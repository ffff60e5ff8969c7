[package]
name = "wgbs_bed"
version = "0.1.0"
edition = "2021"
publish = false

[dependencies]
num-traits = "=0.2.19"
palette = "=0.5.0"
