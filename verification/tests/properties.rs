//! Scenario tests: the fixed color anchors of the gradient, score capping,
//! the skip policy, the fraction edge cases, the header-skip guarantee,
//! exact decimal handling, and one input for every error variant.

use wgbs_bed::annotate::annotate_record;
use wgbs_bed::annotate::encode_line;
use wgbs_bed::annotate::parse_coverage_line;
use wgbs_bed::annotate::parse_smoothed_line;
use wgbs_bed::annotate::process as annotate_process;
use wgbs_bed::annotate::process_strict;
use wgbs_bed::annotate::score_from_coverage;
use wgbs_bed::args::annotator_args;
use wgbs_bed::args::normalizer_args;
use wgbs_bed::color::rgb_from_methylation;
use wgbs_bed::decimal::Decimal;
use wgbs_bed::decimal::decimal_text;
use wgbs_bed::decimal::parse_decimal;
use wgbs_bed::decimal::percent_of;
use wgbs_bed::digits::parse_u16;
use wgbs_bed::digits::parse_u32;
use wgbs_bed::digits::parse_u64;
use wgbs_bed::digits::u64_to_string;
use wgbs_bed::errors::AnnotateError;
use wgbs_bed::errors::ParseError;
use wgbs_bed::normalize::coverage_line;
use wgbs_bed::normalize::fraction_decimal;
use wgbs_bed::normalize::normalize_record;
use wgbs_bed::normalize::parse_call_line;
use wgbs_bed::normalize::process as normalize_process;
use wgbs_bed::records::CoverageRecord;
use wgbs_bed::records::SmoothedEstimate;
use wgbs_bed::text::records_of;

#[test]
fn rgb_gradient_anchors() {
    // 0 percent is pure green, 100 percent is pure red; 50 percent (pure
    // yellow) is covered by test_rgb_from_methylation.
    let green = rgb_from_methylation(&Decimal::new(0, 0));
    assert_eq!((green.red, green.green, green.blue), (0, 255, 0));
    let red = rgb_from_methylation(&Decimal::new(100, 0));
    assert_eq!((red.red, red.green, red.blue), (255, 0, 0));
}

#[test]
fn rgb_from_fractional_percent() {
    // 35.6 percent, as in the skip-policy scenario.
    let c = rgb_from_methylation(&Decimal::new(356, 1));
    assert_eq!((c.red, c.green, c.blue), (219, 255, 0));
}

#[test]
fn score_capping() {
    assert_eq!(score_from_coverage(0), 0);
    assert_eq!(score_from_coverage(999), 999);
    assert_eq!(score_from_coverage(1000), 1000);
    assert_eq!(score_from_coverage(1001), 1000);
    assert_eq!(score_from_coverage(50000), 1000);
}

#[test]
fn methylation_fraction_exact_and_zero() {
    let covered = CoverageRecord {
        contig: "chr1".to_string(),
        start: 10,
        stop: 11,
        non_converted_count: 1,
        converted_count: 2,
    };
    let f = covered.methylation_fraction();
    assert_eq!((f.numerator, f.denominator), (1, 3));
    let empty = CoverageRecord {
        contig: "chr1".to_string(),
        start: 10,
        stop: 11,
        non_converted_count: 0,
        converted_count: 0,
    };
    let z = empty.methylation_fraction();
    assert_eq!((z.numerator, z.denominator), (0, 1));
    // The printed fraction of an uncovered site is exactly 0.0, never an
    // undefined value.
    assert_eq!(decimal_text(&fraction_decimal(0, 0)), "0.0");
    assert_eq!(decimal_text(&fraction_decimal(4, 0)), "1.0");
    assert_eq!(decimal_text(&fraction_decimal(1, 2)), "0.333333");
    assert_eq!(decimal_text(&fraction_decimal(1, 1)), "0.5");
}

#[test]
fn skip_policy_emits_only_available_rows() {
    let coverage = "chr1\t10649\t10650\t1.0\t4\t0\nchr1\t10650\t10651\t1.0\t4\t0\n";
    let smoothed = "0.356\nNA\n";
    let out = annotate_process(coverage, smoothed).unwrap();
    assert_eq!(
        out,
        "chr1\t10649\t10650\t.\t4\t.\t10649\t10650\t219,255,0\t4\t35.6\n"
    );
}

#[test]
fn round_trip_discards_caller_fields() {
    // Four supporting reads, none converted, five supporting reads in the
    // ignored trailing columns: the fraction is exactly 1.0 and none of
    // the caller's fields reach the output.
    let line = "chr1\t10649\t10650\tC\tC\tGQ=11;MQ=22\t0.950\t4\t0\t5\t5";
    let raw = parse_call_line(line, 1).unwrap();
    let cov = normalize_record(raw);
    let input = format!(
        "Contig\tPos0\tPos1\tRef\tCall\tFlags\tMeth\tnon_conv\tconv\tsupport_call\ttotal\n{}\n",
        line
    );
    let out = normalize_process(&input).unwrap();
    assert_eq!(out, "chr1\t10649\t10650\t1.0\t4\t0\n");
    assert!(!out.contains("GQ=11"));
    assert!(!out.contains('C'));
    assert!(!out.contains("0.950"));
    assert_eq!(cov.non_converted_count, 4);
    assert_eq!(cov.converted_count, 0);
}

#[test]
fn header_is_skipped_never_emitted() {
    let input = "\
        AnyHeader\tAt\tAll\tRef\tCall\tFlags\tMeth\tnc\tc\tsc\tt\n\
        chr1\t1\t2\tC\tC\tF\t0.5\t1\t1\t2\t2\n\
        chr2\t3\t4\tC\tC\tF\t0.5\t0\t3\t3\t3\n\
        ";
    let out = normalize_process(input).unwrap();
    let lines: Vec<&str> = out.lines().collect();
    assert_eq!(lines.len(), 2);
    assert_eq!(lines[0], "chr1\t1\t2\t0.5\t1\t1");
    assert_eq!(lines[1], "chr2\t3\t4\t0.0\t0\t3");
    assert!(!out.contains("AnyHeader"));
}

#[test]
fn header_only_and_empty_inputs() {
    assert_eq!(normalize_process("").unwrap(), "");
    let header = "Contig\tPos0\tPos1\tRef\tCall\tFlags\tMeth\tnc\tc\tsc\tt\n";
    assert_eq!(normalize_process(header).unwrap(), "");
}

#[test]
fn percent_scaling_is_exact() {
    let d = parse_decimal("0.356").unwrap();
    assert_eq!((d.mantissa, d.scale), (356, 3));
    let pct = percent_of(&d);
    assert_eq!(decimal_text(&pct), "35.6");
    let one = parse_decimal("1").unwrap();
    assert_eq!(decimal_text(&percent_of(&one)), "100.0");
    let d2 = parse_decimal("0.35").unwrap();
    assert_eq!(decimal_text(&percent_of(&d2)), "35.0");
    let d3 = parse_decimal("0.3560").unwrap();
    assert_eq!(decimal_text(&percent_of(&d3)), "35.6");
}

#[test]
fn numeral_parsing() {
    assert_eq!(parse_u64("0042"), Some(42));
    assert_eq!(parse_u64(""), None);
    assert_eq!(parse_u64("4x2"), None);
    assert_eq!(parse_u64("99999999999999999999999"), None);
    assert_eq!(parse_u32("4294967295"), Some(u32::MAX));
    assert_eq!(parse_u32("4294967296"), None);
    assert_eq!(parse_u16("65535"), Some(u16::MAX));
    assert_eq!(parse_u16("65536"), None);
    assert_eq!(u64_to_string(0), "0");
    assert_eq!(u64_to_string(10650), "10650");
}

#[test]
fn smoothed_token_forms() {
    assert!(matches!(
        parse_smoothed_line("NA", 0),
        Ok(SmoothedEstimate::NotAvailable)
    ));
    assert!(matches!(
        parse_smoothed_line("        NA", 0),
        Ok(SmoothedEstimate::NotAvailable)
    ));
    assert!(matches!(
        parse_smoothed_line("0.5", 0),
        Ok(SmoothedEstimate::Valid(_))
    ));
    assert_eq!(
        parse_smoothed_line("half", 3),
        Err(ParseError::Estimate { row: 3 })
    );
    assert_eq!(
        parse_smoothed_line("0.5\textra", 2),
        Err(ParseError::ColumnCount {
            row: 2,
            found: 2,
            expected: 1
        })
    );
}

#[test]
fn call_table_error_variants() {
    // Ten columns instead of eleven.
    let short = "Contig\tP0\tP1\tR\tC\tF\tM\tnc\tc\tsc\tt\nchr1\t1\t2\tC\tC\tF\t0.5\t1\t1\t2\n";
    assert_eq!(
        normalize_process(short),
        Err(ParseError::ColumnCount {
            row: 1,
            found: 10,
            expected: 11
        })
    );
    // A non-numeric start coordinate.
    let bad = "Contig\tP0\tP1\tR\tC\tF\tM\tnc\tc\tsc\tt\nchr1\tx\t2\tC\tC\tF\t0.5\t1\t1\t2\t2\n";
    assert_eq!(
        normalize_process(bad),
        Err(ParseError::Number { row: 1, column: 1 })
    );
    // A count that does not fit sixteen bits.
    let wide = "Contig\tP0\tP1\tR\tC\tF\tM\tnc\tc\tsc\tt\nchr1\t1\t2\tC\tC\tF\t0.5\t65536\t1\t2\t2\n";
    assert_eq!(
        normalize_process(wide),
        Err(ParseError::Number { row: 1, column: 7 })
    );
}

#[test]
fn coverage_table_error_variants() {
    assert!(matches!(
        parse_coverage_line("chr1\t1\t2\t0.5\t1", 0),
        Err(ParseError::ColumnCount {
            row: 0,
            found: 5,
            expected: 6
        })
    ));
    assert!(matches!(
        parse_coverage_line("chr1\t1\t2\tnot-a-number\t1\t1", 0),
        Err(ParseError::Number { row: 0, column: 3 })
    ));
    assert_eq!(
        annotate_process("chr1\t1\t2\t0.5\t1\tx\n", "0.5\n"),
        Err(ParseError::Number { row: 0, column: 5 })
    );
}

#[test]
fn strict_pairing_rejects_length_mismatch() {
    let coverage = "chr1\t1\t2\t0.5\t1\t1\nchr1\t2\t3\t0.5\t1\t1\n";
    assert_eq!(
        process_strict(coverage, "0.5\n"),
        Err(AnnotateError::LengthMismatch {
            coverage_rows: 2,
            estimate_rows: 1
        })
    );
    let ok = process_strict(coverage, "0.5\nNA\n").unwrap();
    assert_eq!(ok.lines().count(), 1);
}

#[test]
fn truncating_pairing_matches_shorter_stream() {
    // The default pairing truncates to the shorter stream: the estimates
    // past the end of the coverage table are never even parsed.
    let coverage = "chr1\t1\t2\t0.5\t1\t1\n";
    let smoothed = "0.5\nNA\tgarbage\nthis is not a number\n";
    let out = annotate_process(coverage, smoothed).unwrap();
    assert_eq!(out.lines().count(), 1);
}

#[test]
fn score_cap_reaches_output() {
    let coverage = "chr1\t1\t2\t0.5\t600\t600\n";
    let out = annotate_process(coverage, "0\n").unwrap();
    assert_eq!(out, "chr1\t1\t2\t.\t1000\t.\t1\t2\t0,255,0\t1200\t0.0\n");
}

#[test]
fn records_skip_blank_lines_and_carriage_returns() {
    let recs = records_of("a\r\n\nb\n\r\nc");
    assert_eq!(recs, vec!["a", "b", "c"]);
}

#[test]
fn normalizer_output_feeds_annotator() {
    // Stage A's output file is stage B's first input: what the normalizer
    // writes is read back by the annotator without loss.
    let call_table = "\
        Contig\tPos0\tPos1\tRef\tCall\tFlags\tMeth\tnc\tc\tsc\tt\n\
        chr1\t10649\t10650\tC\tC\tF\t1.000\t4\t0\t5\t5\n\
        chr1\t10650\t10651\tC\tC\tF\t0.333\t1\t2\t3\t3\n\
        ";
    let coverage = normalize_process(call_table).unwrap();
    assert_eq!(
        coverage,
        "chr1\t10649\t10650\t1.0\t4\t0\nchr1\t10650\t10651\t0.333333\t1\t2\n"
    );
    let bed = annotate_process(&coverage, "0\n1\n").unwrap();
    assert_eq!(
        bed,
        "chr1\t10649\t10650\t.\t4\t.\t10649\t10650\t0,255,0\t4\t0.0\n\
         chr1\t10650\t10651\t.\t3\t.\t10650\t10651\t255,0,0\t3\t100.0\n"
    );
}

#[test]
fn coverage_line_parses_back() {
    let cov = CoverageRecord {
        contig: "chrX".to_string(),
        start: 12,
        stop: 13,
        non_converted_count: 2,
        converted_count: 6,
    };
    let line = coverage_line(&cov);
    assert_eq!(line, "chrX\t12\t13\t0.25\t2\t6");
    let back = parse_coverage_line(&line, 0).unwrap();
    assert_eq!(back.contig, "chrX");
    assert_eq!(back.start, 12);
    assert_eq!(back.stop, 13);
    assert_eq!(back.non_converted_count, 2);
    assert_eq!(back.converted_count, 6);
}

#[test]
fn annotate_record_fields() {
    let cov = CoverageRecord {
        contig: "chr9".to_string(),
        start: 5,
        stop: 6,
        non_converted_count: 3,
        converted_count: 1,
    };
    let rec = annotate_record(cov, Decimal::new(75, 0));
    assert_eq!(rec.item_name, ".");
    assert_eq!(rec.strandedness, '.');
    assert_eq!(rec.start_thick_display, 5);
    assert_eq!(rec.stop_thick_display, 6);
    assert_eq!(rec.coverage, 4);
    assert_eq!(rec.score, 4);
    let line = encode_line(&rec);
    assert_eq!(
        line,
        format!(
            "chr9\t5\t6\t.\t4\t.\t5\t6\t{}\t4\t75.0",
            rec.color_value.to_string()
        )
    );
}

#[test]
fn argument_arity_is_enforced() {
    let argv: Vec<String> = vec!["prog".to_string(), "only-one".to_string()];
    assert!(normalizer_args(&argv).is_none());
    assert!(annotator_args(&argv).is_none());
}
