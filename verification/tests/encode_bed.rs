//! Tests of the ENCODE BED annotator: argument selection, color mapping,
//! record reading and writing, and the paired-stream processing loop.

use wgbs_bed::annotate::process;
use wgbs_bed::args::annotator_args;
use wgbs_bed::color::rgb_from_methylation;
use wgbs_bed::decimal::Decimal;
use wgbs_bed::records::RgbTriplet;
use wgbs_bed::records::RgbWithDisplay;
use wgbs_bed::text::records_of;
use wgbs_bed::text::split_at_char;
use wgbs_bed::text::tsv_line;

#[test]
fn test_get_args() {
    let argv: Vec<String> = vec![
        "prog".to_string(),
        "infile".to_string(),
        "methvec".to_string(),
        "outfile".to_string(),
    ];
    let args = annotator_args(&argv).unwrap();
    assert_eq!(args.bismark_bed_file, "infile");
    assert_eq!(args.smoothed_methylation_tsv, "methvec");
    assert_eq!(args.encode_bed_outfile, "outfile");
}

#[test]
fn test_rgb_from_methylation() {
    let RgbWithDisplay { red, green, blue } = rgb_from_methylation(&Decimal::new(50, 0));
    assert_eq!(red, 255);
    assert_eq!(green, 255);
    assert_eq!(blue, 0);
}

#[test]
fn test_rgbwithdisplay_from_rgbtriplet() {
    let rgbtriplet: RgbTriplet = (100, 200, 3);
    let RgbWithDisplay { red, green, blue } = RgbWithDisplay::from(rgbtriplet);
    assert_eq!(red, 100);
    assert_eq!(green, 200);
    assert_eq!(blue, 3);
}

#[test]
fn test_rgbwithdislay_to_string() {
    let x = RgbWithDisplay {
        red: 200,
        green: 200,
        blue: 200,
    };
    assert_eq!(x.to_string(), String::from("200,200,200"));
}

#[test]
fn test_get_reader() {
    let data = "\
                chr1\t10649\t10650\t1.0\t4\t0\n\
                ";
    let records = records_of(data);
    let fields = split_at_char(&records[0], '\t');
    assert_eq!(fields, vec!["chr1", "10649", "10650", "1.0", "4", "0"]);
}

#[test]
fn test_get_writer() {
    let fields: Vec<String> = vec!["a".to_string(), "b".to_string(), "c".to_string()];
    let data = tsv_line(&fields);
    assert_eq!(data, "a\tb\tc\n");
}

#[test]
fn test_process() {
    let bismark_data = "\
                        chr1\t10649\t10650\t1.0\t4\t0\n\
                        chr1\t10650\t10651\t1.0\t4\t0\n\
                        ";
    let bsmooth_data = "\
        0.356\n
        NA\n
        ";
    let result = process(bismark_data, bsmooth_data).unwrap();
    assert_eq!(
        result,
        "chr1\t10649\t10650\t.\t4\t.\t10649\t10650\t219,255,0\t4\t35.6\n"
    );
}
