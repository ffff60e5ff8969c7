//! The row model of both converters: a raw variant-caller call record, the
//! coverage record derived from it, the smoothed-estimate input of the
//! annotator, and the ENCODE BED record it emits.

use vstd::prelude::*;
use vstd::string::*;

use crate::decimal::Decimal;
use crate::digits::decimal_of;
use crate::digits::push_decimal;

verus! {

/// A display color, serialized as a decimal `R,G,B` triplet.
#[derive(Clone, Copy, Debug, PartialEq, Eq, Structural)]
pub struct RgbWithDisplay {
    pub red: u8,
    pub green: u8,
    pub blue: u8,
}

pub type RgbTriplet = (u8, u8, u8);

impl From<RgbTriplet> for RgbWithDisplay {
    fn from(rgb: RgbTriplet) -> (r: Self) {
        RgbWithDisplay { red: rgb.0, green: rgb.1, blue: rgb.2 }
    }
}

impl vstd::std_specs::convert::FromSpecImpl<RgbTriplet> for RgbWithDisplay {
    open spec fn obeys_from_spec() -> bool {
        true
    }

    open spec fn from_spec(rgb: RgbTriplet) -> Self {
        RgbWithDisplay { red: rgb.0, green: rgb.1, blue: rgb.2 }
    }
}

/// The `R,G,B` text of a color.
pub open spec fn spec_rgb_text(c: RgbWithDisplay) -> Seq<char> {
    decimal_of(c.red as nat) + seq![','] + decimal_of(c.green as nat) + seq![','] + decimal_of(
        c.blue as nat,
    )
}

impl RgbWithDisplay {
    /// The color as `R,G,B` decimal text.
    pub fn to_string(&self) -> (s: String)
        ensures
            s@ == spec_rgb_text(*self),
    {
        let mut s = String::new();
        proof {
            reveal_strlit(",");
        }
        push_decimal(self.red as u64, &mut s);
        s.append(",");
        push_decimal(self.green as u64, &mut s);
        s.append(",");
        push_decimal(self.blue as u64, &mut s);
        proof {
            assert(s@ =~= spec_rgb_text(*self));
        }
        s
    }
}

/// One row of the variant caller's call table. The caller-specific string
/// fields are carried through parsing and discarded by normalization; the
/// supporting-call and total-base counts of the raw table are discarded
/// already at parse time.
pub struct RawCallRecord {
    pub contig: String,
    pub start: u32,
    pub stop: u32,
    pub reference_call: String,
    pub genotype_call: String,
    pub flags: String,
    pub methylation_estimate: String,
    pub non_converted_count: u16,
    pub converted_count: u16,
}

/// The mathematical model of a raw call record.
pub struct RawCallRecordV {
    pub contig: Seq<char>,
    pub start: int,
    pub stop: int,
    pub reference_call: Seq<char>,
    pub genotype_call: Seq<char>,
    pub flags: Seq<char>,
    pub methylation_estimate: Seq<char>,
    pub non_converted_count: int,
    pub converted_count: int,
}

impl View for RawCallRecord {
    type V = RawCallRecordV;

    open spec fn view(&self) -> RawCallRecordV {
        RawCallRecordV {
            contig: self.contig@,
            start: self.start as int,
            stop: self.stop as int,
            reference_call: self.reference_call@,
            genotype_call: self.genotype_call@,
            flags: self.flags@,
            methylation_estimate: self.methylation_estimate@,
            non_converted_count: self.non_converted_count as int,
            converted_count: self.converted_count as int,
        }
    }
}

/// One row of the coverage table: site coordinates and the two read
/// counts. The methylation fraction is derived from the counts and is not
/// an independent field.
pub struct CoverageRecord {
    pub contig: String,
    pub start: u32,
    pub stop: u32,
    pub non_converted_count: u16,
    pub converted_count: u16,
}

/// The mathematical model of a coverage record.
pub struct CoverageRecordV {
    pub contig: Seq<char>,
    pub start: int,
    pub stop: int,
    pub non_converted_count: int,
    pub converted_count: int,
}

impl View for CoverageRecord {
    type V = CoverageRecordV;

    open spec fn view(&self) -> CoverageRecordV {
        CoverageRecordV {
            contig: self.contig@,
            start: self.start as int,
            stop: self.stop as int,
            non_converted_count: self.non_converted_count as int,
            converted_count: self.converted_count as int,
        }
    }
}

/// Numerator of the methylation fraction of a site: the non-converted
/// count, or zero when the site has no coverage at all.
pub open spec fn spec_fraction_num(nc: nat, c: nat) -> nat {
    if nc + c == 0 {
        0
    } else {
        nc
    }
}

/// Denominator of the methylation fraction: the total read count, or one
/// when the site has no coverage (so the fraction is exactly zero, never
/// an undefined value).
pub open spec fn spec_fraction_den(nc: nat, c: nat) -> nat {
    if nc + c == 0 {
        1
    } else {
        nc + c
    }
}

/// An exact non-negative rational number.
#[derive(Clone, Copy, Debug, PartialEq, Eq, Structural)]
pub struct Fraction {
    pub numerator: u32,
    pub denominator: u32,
}

impl CoverageRecord {
    /// Total read coverage of the site. Kept in a wider integer than the
    /// counts so the sum is total.
    pub fn coverage(&self) -> (cov: u32)
        ensures
            cov == self@.non_converted_count + self@.converted_count,
    {
        self.non_converted_count as u32 + self.converted_count as u32
    }

    /// The methylation fraction of the site, as an exact rational:
    /// non-converted over total when there is coverage, zero otherwise.
    pub fn methylation_fraction(&self) -> (f: Fraction)
        ensures
            f.numerator == spec_fraction_num(
                self.non_converted_count as nat,
                self.converted_count as nat,
            ),
            f.denominator == spec_fraction_den(
                self.non_converted_count as nat,
                self.converted_count as nat,
            ),
            f.denominator >= 1,
            f.numerator <= f.denominator,
    {
        let total = self.coverage();
        if total == 0 {
            Fraction { numerator: 0, denominator: 1 }
        } else {
            Fraction { numerator: self.non_converted_count as u32, denominator: total }
        }
    }
}

/// A smoothed methylation estimate for one site: either a decimal fraction
/// or the not-available sentinel, which makes the annotator skip the site.
#[derive(Clone, Copy, Debug, PartialEq, Eq, Structural)]
pub enum SmoothedEstimate {
    Valid(Decimal),
    NotAvailable,
}

/// One row of the ENCODE BED9+ track.
pub struct EncodeBedRecord {
    pub contig: String,
    pub start: u32,
    pub stop: u32,
    pub item_name: String,
    pub score: u16,
    pub strandedness: char,
    pub start_thick_display: u32,
    pub stop_thick_display: u32,
    pub color_value: RgbWithDisplay,
    pub coverage: u32,
    pub smoothed_methylation_percentage: Decimal,
}

/// The mathematical model of an ENCODE BED record.
pub struct EncodeBedRecordV {
    pub contig: Seq<char>,
    pub start: int,
    pub stop: int,
    pub item_name: Seq<char>,
    pub score: int,
    pub strandedness: char,
    pub start_thick_display: int,
    pub stop_thick_display: int,
    pub color_value: RgbWithDisplay,
    pub coverage: int,
    pub smoothed_methylation_percentage: Decimal,
}

impl View for EncodeBedRecord {
    type V = EncodeBedRecordV;

    open spec fn view(&self) -> EncodeBedRecordV {
        EncodeBedRecordV {
            contig: self.contig@,
            start: self.start as int,
            stop: self.stop as int,
            item_name: self.item_name@,
            score: self.score as int,
            strandedness: self.strandedness,
            start_thick_display: self.start_thick_display as int,
            stop_thick_display: self.stop_thick_display as int,
            color_value: self.color_value,
            coverage: self.coverage as int,
            smoothed_methylation_percentage: self.smoothed_methylation_percentage,
        }
    }
}

} // verus!
