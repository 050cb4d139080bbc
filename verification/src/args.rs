//! The arguments of a conversion.

use vstd::prelude::*;

verus! {

/// What a conversion is asked for.
#[derive(Clone, Debug, PartialEq, Eq)]
pub struct Cli {
    /// The name of the input: a variant text file, plain (`.vcf`) or
    /// compressed (`.vcf.gz`).
    pub input: String,
    /// The name that the names of the outputs are derived from.
    pub output: String,
    /// The flush threshold: the number of buffered rows at which they are
    /// written out as a batch.
    pub chunk_size: usize,
}

/// The flush threshold where none is asked for.
pub const DEFAULT_CHUNK_SIZE: usize = 500;

} // verus!
