//! The conversion of a whole input in one call.

use vstd::prelude::*;

use crate::batch::Batch;
use crate::error::VcfError;
use crate::read_vcf::{conversion_of, read_vcf, tables_of};

verus! {

/// Converts the lines of an input to the batches of its columnar form,
/// flushing at `threshold` buffered rows, or says why it cannot.
///
/// This is the conversion without a limit on its rows. Where it fails, no
/// batch is handed out.
pub fn vcf_to_parquet(lines: &Vec<String>, threshold: usize) -> (r: Result<Vec<Batch>, VcfError>)
    ensures
        ({
            let whole = conversion_of(lines.deep_view(), threshold as nat, usize::MAX as nat);
            match r {
                Ok(batches) => whole.outcome is Ok && tables_of(batches@) == whole.batches,
                Err(error) => whole.outcome == Err::<usize, VcfError>(error),
            }
        }),
{
    let report = read_vcf(lines, None, threshold);
    match report.outcome {
        Ok(_) => Ok(report.batches),
        Err(error) => Err(error),
    }
}

} // verus!
