//! Selection of the positional command-line arguments of the two
//! converters. The caller collects the argument list; these functions
//! decide which argument is which path and reject any other arity.

use vstd::prelude::*;

verus! {

/// The two paths of the normalizer: the call table to read and the
/// coverage table to write.
pub struct NormalizerArgs {
    pub gembs_bed_file: String,
    pub bismark_bed_outfile: String,
}

/// The three paths of the annotator: the coverage table and the smoothed
/// estimates to read, and the BED track to write.
pub struct AnnotatorArgs {
    pub bismark_bed_file: String,
    pub smoothed_methylation_tsv: String,
    pub encode_bed_outfile: String,
}

/// Pick the normalizer's two paths from an argument list whose first entry
/// is the program name. Any other number of arguments is rejected.
pub fn normalizer_args(argv: &Vec<String>) -> (r: Option<NormalizerArgs>)
    ensures
        r is Some <==> argv@.len() == 3,
        r is Some ==> r->0.gembs_bed_file@ == argv@[1]@ && r->0.bismark_bed_outfile@ == argv@[2]@,
{
    if argv.len() == 3 {
        Some(
            NormalizerArgs {
                gembs_bed_file: argv[1].clone(),
                bismark_bed_outfile: argv[2].clone(),
            },
        )
    } else {
        None
    }
}

/// Pick the annotator's three paths from an argument list whose first
/// entry is the program name. Any other number of arguments is rejected.
pub fn annotator_args(argv: &Vec<String>) -> (r: Option<AnnotatorArgs>)
    ensures
        r is Some <==> argv@.len() == 4,
        r is Some ==> r->0.bismark_bed_file@ == argv@[1]@ && r->0.smoothed_methylation_tsv@
            == argv@[2]@ && r->0.encode_bed_outfile@ == argv@[3]@,
{
    if argv.len() == 4 {
        Some(
            AnnotatorArgs {
                bismark_bed_file: argv[1].clone(),
                smoothed_methylation_tsv: argv[2].clone(),
                encode_bed_outfile: argv[3].clone(),
            },
        )
    } else {
        None
    }
}

} // verus!
