//! The ENCODE BED annotator: pairs a coverage table positionally with a
//! stream of smoothed methylation estimates and emits one BED9+ record per
//! pair whose estimate is available. A pair whose estimate is the
//! not-available sentinel is skipped entirely; that is a documented policy
//! of the smoothing step, not an error.

use vstd::prelude::*;
use vstd::string::*;

use crate::color::rgb_from_methylation;
use crate::color::spec_rgb_from_methylation;
use crate::decimal::Decimal;
use crate::decimal::TOKEN_MANTISSA_LIMIT;
use crate::decimal::decimal_token_ok;
use crate::decimal::lemma_decimal_text_token;
use crate::decimal::parse_decimal;
use crate::decimal::percent_of;
use crate::decimal::push_decimal_text;
use crate::decimal::spec_decimal_text;
use crate::decimal::spec_parse_decimal;
use crate::decimal::spec_percent_of;
use crate::digits::decimal_of;
use crate::digits::digits_value;
use crate::digits::is_u16_numeral;
use crate::digits::is_u32_numeral;
use crate::digits::lemma_decimal_of_value;
use crate::digits::lemma_digits_not_contains;
use crate::digits::parse_u16;
use crate::digits::parse_u32;
use crate::digits::push_decimal;
use crate::errors::AnnotateError;
use crate::errors::ParseError;
use crate::normalize::call_line_ok;
use crate::normalize::spec_coverage_line;
use crate::normalize::spec_fraction_decimal;
use crate::normalize::spec_normalize_record;
use crate::normalize::spec_parse_call_line;
use crate::records::CoverageRecord;
use crate::records::CoverageRecordV;
use crate::records::EncodeBedRecord;
use crate::records::EncodeBedRecordV;
use crate::records::SmoothedEstimate;
use crate::records::spec_rgb_text;
use crate::text::csv_records;
use crate::text::lemma_split_parts_no_sep;
use crate::text::lemma_split_prepend;
use crate::text::lemma_split_whole;
use crate::text::records_of;
use crate::text::spec_split;
use crate::text::split_at_char;
use crate::text::trim_spaces;
use crate::text::trimmed;
use crate::text::views_of;

verus! {

/// ENCODE caps the BED score field at 1000.
pub const ENCODE_SCORE_CAP: u16 = 1000;

/// Strand is not meaningful for a symmetric CpG call; the BED strand
/// column is always this marker.
pub const UNKNOWN_STRANDEDNESS: char = '.';

/// The coverage table has six tab-separated columns.
pub const COVERAGE_TABLE_COLUMNS: usize = 6;

/// The BED score of a site: its raw read coverage, capped at the largest
/// score the ENCODE BED format allows.
pub open spec fn spec_score(coverage: nat) -> nat {
    if coverage > ENCODE_SCORE_CAP { ENCODE_SCORE_CAP as nat } else { coverage }
}

/// Cap a raw coverage count to the ENCODE BED score range.
pub fn score_from_coverage(coverage: u32) -> (score: u16)
    ensures
        score == spec_score(coverage as nat),
{
    if coverage > ENCODE_SCORE_CAP as u32 {
        ENCODE_SCORE_CAP
    } else {
        coverage as u16
    }
}

/// A well-formed coverage record: six columns with in-range numerals for
/// the coordinates and counts, and a decimal fraction in the methylation
/// column. The fraction column is validated and then discarded: the
/// fraction of a site is derived from its counts, never read.
pub open spec fn coverage_line_ok(l: Seq<char>) -> bool {
    let f = spec_split(l, '\t');
    &&& f.len() == COVERAGE_TABLE_COLUMNS
    &&& is_u32_numeral(f[1])
    &&& is_u32_numeral(f[2])
    &&& decimal_token_ok(f[3])
    &&& is_u16_numeral(f[4])
    &&& is_u16_numeral(f[5])
}

/// The record a well-formed coverage line denotes.
pub open spec fn spec_parse_coverage_line(l: Seq<char>) -> CoverageRecordV {
    let f = spec_split(l, '\t');
    CoverageRecordV {
        contig: f[0],
        start: digits_value(f[1]) as int,
        stop: digits_value(f[2]) as int,
        non_converted_count: digits_value(f[4]) as int,
        converted_count: digits_value(f[5]) as int,
    }
}

/// The error a malformed coverage line yields.
pub open spec fn spec_coverage_line_error(l: Seq<char>, row: int) -> ParseError {
    let f = spec_split(l, '\t');
    if f.len() != COVERAGE_TABLE_COLUMNS {
        ParseError::ColumnCount {
            row: row as usize,
            found: f.len() as usize,
            expected: COVERAGE_TABLE_COLUMNS,
        }
    } else if !is_u32_numeral(f[1]) {
        ParseError::Number { row: row as usize, column: 1 }
    } else if !is_u32_numeral(f[2]) {
        ParseError::Number { row: row as usize, column: 2 }
    } else if !decimal_token_ok(f[3]) {
        ParseError::Number { row: row as usize, column: 3 }
    } else if !is_u16_numeral(f[4]) {
        ParseError::Number { row: row as usize, column: 4 }
    } else {
        ParseError::Number { row: row as usize, column: 5 }
    }
}

/// Parse one coverage record. `row` only labels the error.
pub fn parse_coverage_line(l: &str, row: usize) -> (r: Result<CoverageRecord, ParseError>)
    ensures
        r is Ok <==> coverage_line_ok(l@),
        r is Ok ==> r->Ok_0@ == spec_parse_coverage_line(l@),
        r is Err ==> r->Err_0 == spec_coverage_line_error(l@, row as int),
{
    let fields = split_at_char(l, '\t');
    proof {
        assert(views_of(fields@).len() == fields@.len());
    }
    if fields.len() != COVERAGE_TABLE_COLUMNS {
        return Err(
            ParseError::ColumnCount { row, found: fields.len(), expected: COVERAGE_TABLE_COLUMNS },
        );
    }
    let start = match parse_u32(fields[1].as_str()) {
        Some(v) => v,
        None => return Err(ParseError::Number { row, column: 1 }),
    };
    let stop = match parse_u32(fields[2].as_str()) {
        Some(v) => v,
        None => return Err(ParseError::Number { row, column: 2 }),
    };
    match parse_decimal(fields[3].as_str()) {
        Some(_) => (),
        None => return Err(ParseError::Number { row, column: 3 }),
    };
    let non_converted_count = match parse_u16(fields[4].as_str()) {
        Some(v) => v,
        None => return Err(ParseError::Number { row, column: 4 }),
    };
    let converted_count = match parse_u16(fields[5].as_str()) {
        Some(v) => v,
        None => return Err(ParseError::Number { row, column: 5 }),
    };
    Ok(
        CoverageRecord {
            contig: fields[0].clone(),
            start,
            stop,
            non_converted_count,
            converted_count,
        },
    )
}

/// The not-available sentinel of the smoothing step.
pub open spec fn is_na_token(s: Seq<char>) -> bool {
    s =~= seq!['N', 'A']
}

/// A well-formed smoothed-estimate record: a single column holding, after
/// surrounding spaces are stripped, either a decimal fraction or the
/// not-available sentinel.
pub open spec fn smoothed_line_ok(l: Seq<char>) -> bool {
    let f = spec_split(l, '\t');
    &&& f.len() == 1
    &&& (is_na_token(trim_spaces(f[0])) || decimal_token_ok(trim_spaces(f[0])))
}

/// The estimate a well-formed smoothed line denotes. The sentinel is
/// recognized first, so a literal `NA` is never a number.
pub open spec fn spec_parse_smoothed(l: Seq<char>) -> SmoothedEstimate {
    let t = trim_spaces(spec_split(l, '\t')[0]);
    if is_na_token(t) {
        SmoothedEstimate::NotAvailable
    } else {
        SmoothedEstimate::Valid(spec_parse_decimal(t))
    }
}

/// The error a malformed smoothed line yields.
pub open spec fn spec_smoothed_line_error(l: Seq<char>, row: int) -> ParseError {
    let f = spec_split(l, '\t');
    if f.len() != 1 {
        ParseError::ColumnCount { row: row as usize, found: f.len() as usize, expected: 1 }
    } else {
        ParseError::Estimate { row: row as usize }
    }
}

/// Parse one smoothed-estimate record. `row` only labels the error.
pub fn parse_smoothed_line(l: &str, row: usize) -> (r: Result<SmoothedEstimate, ParseError>)
    ensures
        r is Ok <==> smoothed_line_ok(l@),
        r is Ok ==> r->Ok_0 == spec_parse_smoothed(l@),
        r is Err ==> r->Err_0 == spec_smoothed_line_error(l@, row as int),
        r matches Ok(SmoothedEstimate::Valid(d)) ==> d.wf() && d.mantissa < TOKEN_MANTISSA_LIMIT,
{
    let fields = split_at_char(l, '\t');
    proof {
        assert(views_of(fields@).len() == fields@.len());
    }
    if fields.len() != 1 {
        return Err(ParseError::ColumnCount { row, found: fields.len(), expected: 1 });
    }
    let t = trimmed(fields[0].as_str());
    proof {
        reveal_strlit("NA");
    }
    let is_na = t.as_str().unicode_len() == 2 && t.as_str().get_char(0) == 'N'
        && t.as_str().get_char(1) == 'A';
    proof {
        assert(is_na == is_na_token(t@));
    }
    if is_na {
        Ok(SmoothedEstimate::NotAvailable)
    } else {
        match parse_decimal(t.as_str()) {
            Some(d) => Ok(SmoothedEstimate::Valid(d)),
            None => Err(ParseError::Estimate { row }),
        }
    }
}

/// The BED record for a coverage record and an available methylation
/// percentage: the whole feature is rendered thick, the name and strand
/// are fixed markers, the score is the capped coverage and the color comes
/// from the percentage.
pub open spec fn spec_annotate_record(c: CoverageRecordV, pct: Decimal) -> EncodeBedRecordV {
    EncodeBedRecordV {
        contig: c.contig,
        start: c.start,
        stop: c.stop,
        item_name: seq!['.'],
        score: spec_score((c.non_converted_count + c.converted_count) as nat) as int,
        strandedness: UNKNOWN_STRANDEDNESS,
        start_thick_display: c.start,
        stop_thick_display: c.stop,
        color_value: spec_rgb_from_methylation(pct),
        coverage: c.non_converted_count + c.converted_count,
        smoothed_methylation_percentage: pct,
    }
}

/// Annotate one site, given its smoothed methylation percentage.
pub fn annotate_record(c: CoverageRecord, pct: Decimal) -> (r: EncodeBedRecord)
    requires
        pct.wf(),
    ensures
        r@ == spec_annotate_record(c@, pct),
        r.smoothed_methylation_percentage.wf(),
{
    proof {
        reveal_strlit(".");
    }
    let coverage = c.coverage();
    let score = score_from_coverage(coverage);
    let color_value = rgb_from_methylation(&pct);
    let item_name = String::from_str(".");
    proof {
        assert(item_name@ =~= seq!['.']);
    }
    EncodeBedRecord {
        contig: c.contig,
        start: c.start,
        stop: c.stop,
        item_name,
        score,
        strandedness: UNKNOWN_STRANDEDNESS,
        start_thick_display: c.start,
        stop_thick_display: c.stop,
        color_value,
        coverage,
        smoothed_methylation_percentage: pct,
    }
}

/// The text of one BED record: contig, start, stop, name, score, strand,
/// thick start, thick stop, color, coverage, smoothed methylation
/// percentage, tab-separated.
pub open spec fn spec_encode_line(r: EncodeBedRecordV) -> Seq<char> {
    r.contig + seq!['\t'] + decimal_of(r.start as nat) + seq!['\t'] + decimal_of(r.stop as nat)
        + seq!['\t'] + r.item_name + seq!['\t'] + decimal_of(r.score as nat) + seq!['\t'] + seq![
        r.strandedness,
    ] + seq!['\t'] + decimal_of(r.start_thick_display as nat) + seq!['\t'] + decimal_of(
        r.stop_thick_display as nat,
    ) + seq!['\t'] + spec_rgb_text(r.color_value) + seq!['\t'] + decimal_of(r.coverage as nat)
        + seq!['\t'] + spec_decimal_text(r.smoothed_methylation_percentage)
}

/// Serialize one BED record as a tab-separated line.
#[verifier::rlimit(50)]
pub fn encode_line(r: &EncodeBedRecord) -> (s: String)
    requires
        r.strandedness == UNKNOWN_STRANDEDNESS,
        r.smoothed_methylation_percentage.wf(),
    ensures
        s@ == spec_encode_line(r@),
{
    proof {
        reveal_strlit("\t");
        reveal_strlit(".");
    }
    let mut s = String::new();
    s.append(r.contig.as_str());
    s.append("\t");
    push_decimal(r.start as u64, &mut s);
    s.append("\t");
    push_decimal(r.stop as u64, &mut s);
    s.append("\t");
    s.append(r.item_name.as_str());
    s.append("\t");
    push_decimal(r.score as u64, &mut s);
    s.append("\t");
    s.append(".");
    s.append("\t");
    push_decimal(r.start_thick_display as u64, &mut s);
    s.append("\t");
    push_decimal(r.stop_thick_display as u64, &mut s);
    s.append("\t");
    let color = r.color_value.to_string();
    s.append(color.as_str());
    s.append("\t");
    push_decimal(r.coverage as u64, &mut s);
    s.append("\t");
    push_decimal_text(&r.smoothed_methylation_percentage, &mut s);
    proof {
        assert(s@ =~= spec_encode_line(r@));
    }
    s
}

/// Law: the normalizer's output is the annotator's input. Every line the
/// normalizer emits for a well-formed call record is a well-formed
/// coverage record, and reading it back yields the same site: contig,
/// coordinates and both counts survive the round trip through the file
/// format.
pub proof fn lemma_coverage_line_round_trip(l: Seq<char>)
    requires
        call_line_ok(l),
    ensures
        coverage_line_ok(spec_coverage_line(spec_normalize_record(spec_parse_call_line(l)))),
        spec_parse_coverage_line(spec_coverage_line(spec_normalize_record(spec_parse_call_line(l))))
            == spec_normalize_record(spec_parse_call_line(l)),
{
    let r = spec_normalize_record(spec_parse_call_line(l));
    let out = spec_coverage_line(r);
    let nc = r.non_converted_count as nat;
    let c = r.converted_count as nat;
    let fd = spec_fraction_decimal(nc, c);
    let t = seq!['\t'];
    let p0 = r.contig;
    let p1 = decimal_of(r.start as nat);
    let p2 = decimal_of(r.stop as nat);
    let p3 = spec_decimal_text(fd);
    let p4 = decimal_of(nc);
    let p5 = decimal_of(c);
    lemma_decimal_of_value(r.start as nat);
    lemma_decimal_of_value(r.stop as nat);
    lemma_decimal_of_value(nc);
    lemma_decimal_of_value(c);
    // the printed fraction is a well-formed token free of separators
    if nc + c == 0 {
        assert(fd.mantissa == 0);
    } else {
        let den = nc + c;
        let q = nc * 1_000_000 + den / 2;
        assert(q / den <= q) by (nonlinear_arith)
            requires
                den >= 1,
                q >= 0,
        ;
        assert(q < 100_000_000_000);
        assert(fd.mantissa == q / den);
    }
    lemma_decimal_text_token(fd);
    // no part contains a tab
    lemma_split_parts_no_sep(l, '\t');
    assert(p0 == crate::text::spec_split(l, '\t')[0]);
    assert(!p0.contains('\t'));
    lemma_digits_not_contains(p1, '\t');
    lemma_digits_not_contains(p2, '\t');
    lemma_digits_not_contains(p4, '\t');
    lemma_digits_not_contains(p5, '\t');
    // the line splits back into exactly its six fields
    let rest4 = p4 + t + p5;
    let rest3 = p3 + t + rest4;
    let rest2 = p2 + t + rest3;
    let rest1 = p1 + t + rest2;
    assert(out =~= p0 + t + rest1);
    lemma_split_prepend(p0, rest1, '\t');
    lemma_split_prepend(p1, rest2, '\t');
    lemma_split_prepend(p2, rest3, '\t');
    lemma_split_prepend(p3, rest4, '\t');
    lemma_split_prepend(p4, p5, '\t');
    lemma_split_whole(p5, '\t');
    assert(crate::text::spec_split(out, '\t') =~= seq![p0, p1, p2, p3, p4, p5]);
    assert(coverage_line_ok(out));
    assert(spec_parse_coverage_line(out) == r);
}

/// Whether a positional pair of records is well formed.
pub open spec fn pair_ok(a: Seq<char>, b: Seq<char>) -> bool {
    coverage_line_ok(a) && smoothed_line_ok(b)
}

/// The error of a malformed pair: the coverage record is read first, so
/// its error wins.
pub open spec fn spec_pair_error(a: Seq<char>, b: Seq<char>, row: int) -> ParseError {
    if !coverage_line_ok(a) {
        spec_coverage_line_error(a, row)
    } else {
        spec_smoothed_line_error(b, row)
    }
}

/// The output a pair contributes: one BED line when the estimate is
/// available, nothing when it is the not-available sentinel.
pub open spec fn spec_annotate_row(a: Seq<char>, b: Seq<char>) -> Seq<char> {
    match spec_parse_smoothed(b) {
        SmoothedEstimate::NotAvailable => Seq::empty(),
        SmoothedEstimate::Valid(d) => spec_encode_line(
            spec_annotate_record(spec_parse_coverage_line(a), spec_percent_of(d)),
        ) + seq!['\n'],
    }
}

/// The annotator's output for the pairs from index `i` up to `n`.
pub open spec fn spec_annotate_output(va: Seq<Seq<char>>, vb: Seq<Seq<char>>, i: int, n: int) -> Seq<
    char,
>
    decreases n - i,
{
    if i < 0 || i >= n || n > va.len() || n > vb.len() {
        Seq::empty()
    } else {
        spec_annotate_row(va[i], vb[i]) + spec_annotate_output(va, vb, i + 1, n)
    }
}

/// The first pair index at or after `i` with a malformed record, or `n` if
/// every pair up to `n` is well formed.
pub open spec fn spec_first_bad_pair(va: Seq<Seq<char>>, vb: Seq<Seq<char>>, i: int, n: int) -> int
    decreases n - i,
{
    if i < 0 || i >= n || n > va.len() || n > vb.len() {
        n
    } else if !pair_ok(va[i], vb[i]) {
        i
    } else {
        spec_first_bad_pair(va, vb, i + 1, n)
    }
}

pub proof fn lemma_first_bad_pair_at(
    va: Seq<Seq<char>>,
    vb: Seq<Seq<char>>,
    i: int,
    n: int,
    j: int,
)
    requires
        0 <= i <= j <= n,
        n <= va.len(),
        n <= vb.len(),
        forall|k: int| i <= k < j ==> pair_ok(#[trigger] va[k], vb[k]),
        j < n ==> !pair_ok(va[j], vb[j]),
    ensures
        spec_first_bad_pair(va, vb, i, n) == j,
    decreases j - i,
{
    if i < j {
        lemma_first_bad_pair_at(va, vb, i + 1, n, j);
    }
}

/// Annotate a coverage table with its smoothed estimates, pairing the two
/// record streams positionally and truncating to the shorter stream: a
/// record past the end of the shorter stream is never read, let alone
/// parsed. Exactly the pairs with an available estimate produce a line,
/// in input order; the result is an error exactly when a paired record is
/// malformed, and then it is the error of the first such pair, the
/// coverage record first. `process_strict` refuses the length mismatch
/// instead.
pub fn process(coverage_input: &str, smoothed_input: &str) -> (r: Result<String, ParseError>)
    ensures
        ({
            let va = csv_records(coverage_input@);
            let vb = csv_records(smoothed_input@);
            let n = vstd::math::min(va.len() as int, vb.len() as int);
            match r {
                Ok(out) => spec_first_bad_pair(va, vb, 0, n) == n && out@ == spec_annotate_output(
                    va,
                    vb,
                    0,
                    n,
                ),
                Err(e) => {
                    let fb = spec_first_bad_pair(va, vb, 0, n);
                    &&& 0 <= fb < n
                    &&& e == spec_pair_error(va[fb], vb[fb], fb)
                },
            }
        }),
{
    let recs_a = records_of(coverage_input);
    let recs_b = records_of(smoothed_input);
    let ghost va = csv_records(coverage_input@);
    let ghost vb = csv_records(smoothed_input@);
    let n = if recs_a.len() <= recs_b.len() {
        recs_a.len()
    } else {
        recs_b.len()
    };
    proof {
        assert(n == vstd::math::min(va.len() as int, vb.len() as int));
    }
    let mut out = String::new();
    let mut i: usize = 0;
    while i < n
        invariant
            0 <= i <= n,
            n == vstd::math::min(va.len() as int, vb.len() as int),
            views_of(recs_a@) == va,
            views_of(recs_b@) == vb,
            va == csv_records(coverage_input@),
            vb == csv_records(smoothed_input@),
            forall|k: int| 0 <= k < i ==> pair_ok(#[trigger] va[k], vb[k]),
            out@ + spec_annotate_output(va, vb, i as int, n as int) == spec_annotate_output(
                va,
                vb,
                0,
                n as int,
            ),
        decreases n - i,
    {
        proof {
            assert(va[i as int] == recs_a@[i as int]@);
            assert(vb[i as int] == recs_b@[i as int]@);
        }
        let cov = match parse_coverage_line(recs_a[i].as_str(), i) {
            Ok(c) => c,
            Err(e) => {
                proof {
                    lemma_first_bad_pair_at(va, vb, 0, n as int, i as int);
                }
                return Err(e);
            },
        };
        let est = match parse_smoothed_line(recs_b[i].as_str(), i) {
            Ok(v) => v,
            Err(e) => {
                proof {
                    lemma_first_bad_pair_at(va, vb, 0, n as int, i as int);
                }
                return Err(e);
            },
        };
        match est {
            SmoothedEstimate::NotAvailable => {
                proof {
                    assert(spec_annotate_row(va[i as int], vb[i as int]) == Seq::<char>::empty());
                    assert(out@ + spec_annotate_output(va, vb, i + 1, n as int)
                        =~= spec_annotate_output(va, vb, 0, n as int));
                }
            },
            SmoothedEstimate::Valid(d) => {
                let pct = percent_of(&d);
                let rec = annotate_record(cov, pct);
                let line = encode_line(&rec);
                out.append(line.as_str());
                proof {
                    reveal_strlit("\n");
                }
                out.append("\n");
                proof {
                    assert(out@ + spec_annotate_output(va, vb, i + 1, n as int)
                        =~= spec_annotate_output(va, vb, 0, n as int));
                }
            },
        }
        i = i + 1;
    }
    proof {
        lemma_first_bad_pair_at(va, vb, 0, n as int, n as int);
        assert(out@ =~= spec_annotate_output(va, vb, 0, n as int));
    }
    Ok(out)
}

/// Annotate as `process` does, but refuse input streams of different
/// lengths instead of truncating: the stricter reading of the paired
/// stream contract. The length check comes first; parsing is as in
/// `process`.
pub fn process_strict(coverage_input: &str, smoothed_input: &str) -> (r: Result<
    String,
    AnnotateError,
>)
    ensures
        ({
            let va = csv_records(coverage_input@);
            let vb = csv_records(smoothed_input@);
            if va.len() != vb.len() {
                r == Result::<String, AnnotateError>::Err(
                    AnnotateError::LengthMismatch {
                        coverage_rows: va.len() as usize,
                        estimate_rows: vb.len() as usize,
                    },
                )
            } else {
                match r {
                    Ok(out) => spec_first_bad_pair(va, vb, 0, va.len() as int) == va.len() && out@
                        == spec_annotate_output(va, vb, 0, va.len() as int),
                    Err(e) => {
                        let fb = spec_first_bad_pair(va, vb, 0, va.len() as int);
                        &&& 0 <= fb < va.len()
                        &&& e == AnnotateError::Parse(spec_pair_error(va[fb], vb[fb], fb))
                    },
                }
            }
        }),
{
    let recs_a = records_of(coverage_input);
    let recs_b = records_of(smoothed_input);
    if recs_a.len() != recs_b.len() {
        return Err(
            AnnotateError::LengthMismatch {
                coverage_rows: recs_a.len(),
                estimate_rows: recs_b.len(),
            },
        );
    }
    match process(coverage_input, smoothed_input) {
        Ok(out) => Ok(out),
        Err(e) => Err(AnnotateError::Parse(e)),
    }
}

} // verus!
