//! Tests of the call-table normalizer: argument selection, record reading
//! and writing, header skipping and fraction derivation.

use wgbs_bed::args::normalizer_args;
use wgbs_bed::normalize::process;
use wgbs_bed::text::records_of;
use wgbs_bed::text::split_at_char;
use wgbs_bed::text::tsv_line;

#[test]
fn main_test_get_args() {
    let argv: Vec<String> = vec!["prog".to_string(), "infile".to_string(), "outfile".to_string()];
    let args = normalizer_args(&argv).unwrap();
    assert_eq!(args.gembs_bed_file, "infile");
    assert_eq!(args.bismark_bed_outfile, "outfile");
}

#[test]
fn main_test_get_reader() {
    let data = "\
        Contig\tPos0\tPos1\tRef\tsample_E:Call\tsample_E:Flags\tsample_E:Meth\tsample_E:non_conv\tsample_E:conv\tsample_E:support_call\tsample_E:total\n\
        chr1\t10649\t10650\tC\tC\tGQ=11;MQ=22\t1.000\t4\t0\t5\t5\n\
        ";
    let records = records_of(data);
    let fields = split_at_char(&records[1], '\t');
    assert_eq!(
        fields,
        vec![
            "chr1",
            "10649",
            "10650",
            "C",
            "C",
            "GQ=11;MQ=22",
            "1.000",
            "4",
            "0",
            "5",
            "5"
        ]
    );
}

#[test]
fn main_test_get_writer() {
    let fields: Vec<String> = vec!["a".to_string(), "b".to_string(), "c".to_string()];
    let data = tsv_line(&fields);
    assert_eq!(data, "a\tb\tc\n");
}

#[test]
fn main_test_process() {
    let data = "\
        Contig\tPos0\tPos1\tRef\tsample_E:Call\tsample_E:Flags\tsample_E:Meth\tsample_E:non_conv\tsample_E:conv\tsample_E:support_call\tsample_E:total\n\
        chr1\t10649\t10650\tC\tC\tGQ=11;MQ=22\t1.000\t4\t0\t5\t5\n\
        chr1\t10650\t10651\tC\tC\tGQ=11;MQ=22\t1.000\t0\t0\t5\t5\n\
        ";
    let data = process(data).unwrap();
    assert_eq!(
        data,
        "chr1\t10649\t10650\t1.0\t4\t0\nchr1\t10650\t10651\t0.0\t0\t0\n"
    );
}
