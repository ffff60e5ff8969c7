//! Errors of the two converters. A parse error names the record it was
//! found in; errors carry no text so that callers can match on them.

use vstd::prelude::*;

verus! {

/// Why a record was rejected. `row` is the index of the record among the
/// file's records (non-empty lines), counting from zero.
#[derive(Clone, Copy, Debug, PartialEq, Eq, Structural)]
pub enum ParseError {
    /// The record did not have the expected number of tab-separated columns.
    ColumnCount { row: usize, found: usize, expected: usize },
    /// A numeric column held something besides an in-range decimal numeral.
    Number { row: usize, column: usize },
    /// A smoothed-estimate record was neither a decimal fraction nor the
    /// not-available sentinel.
    Estimate { row: usize },
}

/// Why a whole annotator run was rejected, for the strict entry point that
/// refuses input streams of different lengths.
#[derive(Clone, Copy, Debug, PartialEq, Eq, Structural)]
pub enum AnnotateError {
    Parse(ParseError),
    LengthMismatch { coverage_rows: usize, estimate_rows: usize },
}

} // verus!
