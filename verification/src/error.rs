//! The fatal conditions a conversion can end in.

use vstd::prelude::*;

verus! {

/// Why an input was rejected as not being in the expected format.
#[derive(Clone, Copy, Debug, PartialEq, Eq, Structural)]
pub enum FormatProblem {
    /// The input's name ends in neither of the two recognised suffixes.
    UnrecognizedExtension,
    /// A data line, or the end of the input, came before any header line.
    MissingHeader,
    /// The input ended right after its header line.
    MissingData,
}

/// A fatal condition. None is ever downgraded to a warning.
#[derive(Clone, Copy, Debug, PartialEq, Eq, Structural)]
pub enum VcfError {
    /// The input stream could not be opened or read.
    IoFailure,
    /// The input is not a header followed by at least one data row, or its
    /// name does not say how to read it.
    InvalidInputFormat(FormatProblem),
    /// A data row has another number of fields than the header. `row` counts
    /// data rows from 1.
    ColumnCountMismatch { row: usize, expected: usize, found: usize },
    /// A batch, or the closing structure, could not be written.
    DestinationWriteFailure,
}

} // verus!
