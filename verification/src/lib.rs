//! Converters for whole-genome bisulfite sequencing (WGBS) methylation
//! tables: a gemBS call table is normalized into a Bismark-style coverage
//! table, and a coverage table paired with smoothed methylation estimates
//! is annotated into an ENCODE BED9+ track.

pub mod annotate;
pub mod args;
pub mod color;
pub mod decimal;
pub mod digits;
pub mod errors;
pub mod normalize;
pub mod records;
pub mod text;
