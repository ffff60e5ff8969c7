//! The call-table normalizer: turns the variant caller's per-cytosine call
//! table into the simplified coverage table. The first record of the input
//! is its header row; it is always discarded, never parsed as data. Every
//! data record maps to exactly one output record, in input order.

use vstd::prelude::*;
use vstd::string::*;

use crate::decimal::Decimal;
use crate::decimal::push_decimal_text;
use crate::decimal::spec_decimal_text;
use crate::digits::decimal_of;
use crate::digits::digits_value;
use crate::digits::is_u16_numeral;
use crate::digits::is_u32_numeral;
use crate::digits::parse_u16;
use crate::digits::parse_u32;
use crate::digits::push_decimal;
use crate::errors::ParseError;
use crate::records::CoverageRecord;
use crate::records::CoverageRecordV;
use crate::records::RawCallRecord;
use crate::records::RawCallRecordV;
use crate::records::spec_fraction_den;
use crate::records::spec_fraction_num;
use crate::text::csv_records;
use crate::text::records_of;
use crate::text::spec_split;
use crate::text::split_at_char;
use crate::text::views_of;

verus! {

/// The call table has eleven tab-separated columns.
pub const CALL_TABLE_COLUMNS: usize = 11;

/// A well-formed call-table data record: eleven columns, with in-range
/// numerals for the coordinates and the two conversion counts. The four
/// caller-specific columns and the two trailing count columns are carried
/// or discarded as text and never validated, as the schema ignores them.
pub open spec fn call_line_ok(l: Seq<char>) -> bool {
    let f = spec_split(l, '\t');
    &&& f.len() == CALL_TABLE_COLUMNS
    &&& is_u32_numeral(f[1])
    &&& is_u32_numeral(f[2])
    &&& is_u16_numeral(f[7])
    &&& is_u16_numeral(f[8])
}

/// The record a well-formed call-table line denotes.
pub open spec fn spec_parse_call_line(l: Seq<char>) -> RawCallRecordV {
    let f = spec_split(l, '\t');
    RawCallRecordV {
        contig: f[0],
        start: digits_value(f[1]) as int,
        stop: digits_value(f[2]) as int,
        reference_call: f[3],
        genotype_call: f[4],
        flags: f[5],
        methylation_estimate: f[6],
        non_converted_count: digits_value(f[7]) as int,
        converted_count: digits_value(f[8]) as int,
    }
}

/// The error a malformed call-table line yields: a wrong column count is
/// reported first, then the leftmost bad numeric column.
pub open spec fn spec_call_line_error(l: Seq<char>, row: int) -> ParseError {
    let f = spec_split(l, '\t');
    if f.len() != CALL_TABLE_COLUMNS {
        ParseError::ColumnCount {
            row: row as usize,
            found: f.len() as usize,
            expected: CALL_TABLE_COLUMNS,
        }
    } else if !is_u32_numeral(f[1]) {
        ParseError::Number { row: row as usize, column: 1 }
    } else if !is_u32_numeral(f[2]) {
        ParseError::Number { row: row as usize, column: 2 }
    } else if !is_u16_numeral(f[7]) {
        ParseError::Number { row: row as usize, column: 7 }
    } else {
        ParseError::Number { row: row as usize, column: 8 }
    }
}

/// Parse one call-table data record. `row` only labels the error.
pub fn parse_call_line(l: &str, row: usize) -> (r: Result<RawCallRecord, ParseError>)
    ensures
        r is Ok <==> call_line_ok(l@),
        r is Ok ==> r->Ok_0@ == spec_parse_call_line(l@),
        r is Err ==> r->Err_0 == spec_call_line_error(l@, row as int),
{
    let fields = split_at_char(l, '\t');
    proof {
        assert(views_of(fields@).len() == fields@.len());
    }
    if fields.len() != CALL_TABLE_COLUMNS {
        return Err(
            ParseError::ColumnCount { row, found: fields.len(), expected: CALL_TABLE_COLUMNS },
        );
    }
    let start = match parse_u32(fields[1].as_str()) {
        Some(v) => v,
        None => return Err(ParseError::Number { row, column: 1 }),
    };
    let stop = match parse_u32(fields[2].as_str()) {
        Some(v) => v,
        None => return Err(ParseError::Number { row, column: 2 }),
    };
    let non_converted_count = match parse_u16(fields[7].as_str()) {
        Some(v) => v,
        None => return Err(ParseError::Number { row, column: 7 }),
    };
    let converted_count = match parse_u16(fields[8].as_str()) {
        Some(v) => v,
        None => return Err(ParseError::Number { row, column: 8 }),
    };
    Ok(
        RawCallRecord {
            contig: fields[0].clone(),
            start,
            stop,
            reference_call: fields[3].clone(),
            genotype_call: fields[4].clone(),
            flags: fields[5].clone(),
            methylation_estimate: fields[6].clone(),
            non_converted_count,
            converted_count,
        },
    )
}

/// A coverage record keeps the coordinates and counts of a call record and
/// drops everything the caller added.
pub open spec fn spec_normalize_record(r: RawCallRecordV) -> CoverageRecordV {
    CoverageRecordV {
        contig: r.contig,
        start: r.start,
        stop: r.stop,
        non_converted_count: r.non_converted_count,
        converted_count: r.converted_count,
    }
}

/// Normalize one record: keep contig, coordinates and counts; discard the
/// reference call, genotype call, flags and the caller's own estimate.
pub fn normalize_record(r: RawCallRecord) -> (cov: CoverageRecord)
    ensures
        cov@ == spec_normalize_record(r@),
{
    CoverageRecord {
        contig: r.contig,
        start: r.start,
        stop: r.stop,
        non_converted_count: r.non_converted_count,
        converted_count: r.converted_count,
    }
}

/// The methylation fraction rounded to six decimal places, half away from
/// zero: the mantissa over ten to the sixth of the printed fraction.
pub open spec fn spec_fraction_decimal(nc: nat, c: nat) -> Decimal {
    Decimal {
        mantissa: ((spec_fraction_num(nc, c) * 1_000_000 + spec_fraction_den(nc, c) / 2)
            / spec_fraction_den(nc, c)) as u64,
        scale: 6,
    }
}

/// The printed form of the methylation fraction of a site: the exact
/// rational rounded to six decimal places.
pub fn fraction_decimal(nc: u16, c: u16) -> (d: Decimal)
    ensures
        d == spec_fraction_decimal(nc as nat, c as nat),
        d.wf(),
{
    let total = nc as u64 + c as u64;
    if total == 0 {
        Decimal { mantissa: 0, scale: 6 }
    } else {
        let num = (nc as u64) * 1_000_000 + total / 2;
        let m = num / total;
        proof {
            assert(m <= num) by (nonlinear_arith)
                requires
                    total >= 1,
                    m == num / total,
                    num >= 0,
            ;
        }
        Decimal { mantissa: m, scale: 6 }
    }
}

/// The text of one coverage record: contig, start, stop, methylation
/// fraction, non-converted count, converted count, tab-separated.
pub open spec fn spec_coverage_line(r: CoverageRecordV) -> Seq<char> {
    r.contig + seq!['\t'] + decimal_of(r.start as nat) + seq!['\t'] + decimal_of(r.stop as nat)
        + seq!['\t'] + spec_decimal_text(
        spec_fraction_decimal(r.non_converted_count as nat, r.converted_count as nat),
    ) + seq!['\t'] + decimal_of(r.non_converted_count as nat) + seq!['\t'] + decimal_of(
        r.converted_count as nat,
    )
}

/// Serialize one coverage record as a tab-separated line.
pub fn coverage_line(r: &CoverageRecord) -> (s: String)
    ensures
        s@ == spec_coverage_line(r@),
{
    proof {
        reveal_strlit("\t");
    }
    let mut s = String::new();
    s.append(r.contig.as_str());
    s.append("\t");
    push_decimal(r.start as u64, &mut s);
    s.append("\t");
    push_decimal(r.stop as u64, &mut s);
    s.append("\t");
    let d = fraction_decimal(r.non_converted_count, r.converted_count);
    push_decimal_text(&d, &mut s);
    s.append("\t");
    push_decimal(r.non_converted_count as u64, &mut s);
    s.append("\t");
    push_decimal(r.converted_count as u64, &mut s);
    proof {
        assert(s@ =~= spec_coverage_line(r@));
    }
    s
}

/// The normalizer's whole output for the records from index `i` on: one
/// line per record, each ended by a newline.
pub open spec fn spec_normalize_output(recs: Seq<Seq<char>>, i: int) -> Seq<char>
    decreases recs.len() - i,
{
    if i < 0 || i >= recs.len() {
        Seq::empty()
    } else {
        spec_coverage_line(spec_normalize_record(spec_parse_call_line(recs[i]))) + seq!['\n']
            + spec_normalize_output(recs, i + 1)
    }
}

/// The first record index at or after `i` whose line is malformed, or the
/// record count if every line from `i` on is well formed.
pub open spec fn spec_first_bad_call(recs: Seq<Seq<char>>, i: int) -> int
    decreases recs.len() - i,
{
    if i < 0 || i >= recs.len() {
        recs.len() as int
    } else if !call_line_ok(recs[i]) {
        i
    } else {
        spec_first_bad_call(recs, i + 1)
    }
}

pub proof fn lemma_first_bad_call_at(recs: Seq<Seq<char>>, i: int, j: int)
    requires
        0 <= i <= j <= recs.len(),
        forall|k: int| i <= k < j ==> call_line_ok(#[trigger] recs[k]),
        j < recs.len() ==> !call_line_ok(recs[j]),
    ensures
        spec_first_bad_call(recs, i) == if j < recs.len() {
            j
        } else {
            recs.len() as int
        },
    decreases j - i,
{
    if i < j {
        lemma_first_bad_call_at(recs, i + 1, j);
    }
}

/// Normalize a whole call table. The first record is the header and is
/// always skipped; each data record becomes one coverage line, in order.
/// The result is an error exactly when some data record is malformed, and
/// then it is the error of the first such record.
pub fn process(input: &str) -> (r: Result<String, ParseError>)
    ensures
        ({
            let recs = csv_records(input@);
            match r {
                Ok(out) => spec_first_bad_call(recs, 1) == recs.len() && out@
                    == spec_normalize_output(recs, 1),
                Err(e) => {
                    let fb = spec_first_bad_call(recs, 1);
                    &&& 1 <= fb < recs.len()
                    &&& e == spec_call_line_error(recs[fb], fb)
                },
            }
        }),
{
    let recs = records_of(input);
    let ghost v = csv_records(input@);
    proof {
        assert(v.len() == recs@.len());
    }
    let mut out = String::new();
    let mut i: usize = 1;
    if recs.len() <= 1 {
        return Ok(out);
    }
    while i < recs.len()
        invariant
            1 <= i <= recs@.len(),
            views_of(recs@) == csv_records(input@),
            v == csv_records(input@),
            forall|k: int| 1 <= k < i ==> call_line_ok(#[trigger] v[k]),
            out@ + spec_normalize_output(v, i as int) == spec_normalize_output(v, 1),
        decreases recs@.len() - i,
    {
        proof {
            assert(v[i as int] == recs@[i as int]@);
        }
        match parse_call_line(recs[i].as_str(), i) {
            Err(e) => {
                proof {
                    lemma_first_bad_call_at(v, 1, i as int);
                }
                return Err(e);
            },
            Ok(raw) => {
                let cov = normalize_record(raw);
                let line = coverage_line(&cov);
                out.append(line.as_str());
                proof {
                    reveal_strlit("\n");
                }
                out.append("\n");
                proof {
                    assert(spec_normalize_output(v, i as int) == spec_coverage_line(
                        spec_normalize_record(spec_parse_call_line(v[i as int])),
                    ) + seq!['\n'] + spec_normalize_output(v, i + 1));
                    assert(out@ + spec_normalize_output(v, i + 1) =~= spec_normalize_output(v, 1));
                }
            },
        }
        i = i + 1;
    }
    proof {
        lemma_first_bad_call_at(v, 1, v.len() as int);
        assert(out@ =~= spec_normalize_output(v, 1));
    }
    Ok(out)
}

/// Law: a site with at least one read has methylation fraction exactly
/// `non_converted / (non_converted + converted)`, as a rational number.
pub proof fn lemma_methylation_fraction_exact(nc: nat, c: nat)
    requires
        nc + c > 0,
    ensures
        spec_fraction_num(nc, c) == nc,
        spec_fraction_den(nc, c) == nc + c,
{
}

/// Law: a site with no reads at all has methylation fraction exactly zero,
/// not an undefined value.
pub proof fn lemma_methylation_fraction_zero()
    ensures
        spec_fraction_num(0, 0) == 0,
        spec_fraction_den(0, 0) == 1,
{
}

/// Law: the printed fraction is the exact methylation fraction rounded to
/// six decimal places — its mantissa differs from the exact value scaled
/// by ten to the sixth by at most half a unit in the last place. Written
/// over the common denominator:
/// `|mantissa * den - num * 10^6| * 2 <= den`.
pub proof fn lemma_fraction_decimal_rounds(nc: nat, c: nat)
    requires
        nc <= u16::MAX,
        c <= u16::MAX,
    ensures
        ({
            let m = spec_fraction_decimal(nc, c).mantissa as nat;
            let num = spec_fraction_num(nc, c);
            let den = spec_fraction_den(nc, c);
            &&& 2 * (m * den) <= 2 * (num * 1_000_000) + den
            &&& 2 * (num * 1_000_000) <= 2 * (m * den) + den
        }),
{
    let num = spec_fraction_num(nc, c);
    let den = spec_fraction_den(nc, c);
    if nc + c == 0 {
        assert(spec_fraction_decimal(nc, c).mantissa == 0);
    } else {
        let q = num * 1_000_000 + den / 2;
        let m = q / den;
        assert(m <= q) by (nonlinear_arith)
            requires
                den >= 1,
                q >= 0,
                m == q / den,
        ;
        assert(spec_fraction_decimal(nc, c).mantissa == m);
        vstd::arithmetic::div_mod::lemma_fundamental_div_mod(q as int, den as int);
        vstd::arithmetic::div_mod::lemma_mod_bound(q as int, den as int);
        let r = q as int % den as int;
        assert(q == den * m + r);
        assert(2 * (den / 2) <= den);
        assert(den <= 2 * (den / 2) + 1);
        assert(2 * (m * den) <= 2 * (num * 1_000_000) + den) by (nonlinear_arith)
            requires
                q == den * m + r,
                r >= 0,
                q == num * 1_000_000 + den / 2,
                2 * (den / 2) <= den,
        ;
        assert(2 * (num * 1_000_000) <= 2 * (m * den) + den) by (nonlinear_arith)
            requires
                q == den * m + r,
                r < den,
                q == num * 1_000_000 + den / 2,
                den <= 2 * (den / 2) + 1,
        ;
    }
}

} // verus!
