//! Conversion of tab-delimited variant text (VCF) to column-major batches,
//! with the preamble kept apart as a JSON object.
//!
//! The input is a preamble of `##key=value` lines, one header line that
//! begins with `#` and names the columns, and data rows of as many fields as
//! the header has names. Every value is kept as text. The rows are buffered
//! column by column and handed out in batches as a flush threshold is
//! reached, so that a caller can write them out one by one.
//!
//! Nothing here reads or writes a file: [`read_vcf::Driver`] is handed the
//! lines and says what is to be written.

pub mod args;
pub mod batch;
pub mod create_parquet;
pub mod delay;
pub mod error;
pub mod laws;
pub mod metadata;
pub mod parquet;
pub mod parquet_writer;
pub mod read_vcf;
pub mod text;
pub mod vcf;

use serde_json::Value;
use vstd::prelude::*;

use crate::args::Cli;
use crate::batch::{Batch, Table};
use crate::error::{FormatProblem, VcfError};
use crate::metadata::{entries_of, grouped, json_object_entries, parse_metadata, read_metadata};
use crate::parquet::vcf_to_parquet;
use crate::read_vcf::{conversion_of, tables_of};
use crate::text::{chars_of, ends_with};
use crate::vcf::preamble_end;

verus! {

/// How the bytes of an input are to be read.
#[derive(Clone, Copy, Debug, PartialEq, Eq, Structural)]
pub enum InputFormat {
    /// As they are.
    Plain,
    /// Through a gzip decoder that goes on after the first member.
    Gzip,
}

/// The suffix of the name of a plain input.
pub open spec fn plain_suffix() -> Seq<char> {
    seq!['.', 'v', 'c', 'f']
}

/// The suffix of the name of a compressed input.
pub open spec fn gzip_suffix() -> Seq<char> {
    seq!['.', 'v', 'c', 'f', '.', 'g', 'z']
}

/// The format that the name of an input stands for, if it is recognised.
pub open spec fn format_of(name: Seq<char>) -> Option<InputFormat> {
    if gzip_suffix().is_suffix_of(name) {
        Some(InputFormat::Gzip)
    } else if plain_suffix().is_suffix_of(name) {
        Some(InputFormat::Plain)
    } else {
        None
    }
}

/// Tells from the suffix of `name` how the input is to be read.
pub fn input_format(name: &str) -> (format: Option<InputFormat>)
    ensures
        format == format_of(name@),
{
    let chars = chars_of(name);
    let plain: Vec<char> = vec!['.', 'v', 'c', 'f'];
    let gzip: Vec<char> = vec!['.', 'v', 'c', 'f', '.', 'g', 'z'];
    if ends_with(&chars, &gzip) {
        Some(InputFormat::Gzip)
    } else if ends_with(&chars, &plain) {
        Some(InputFormat::Plain)
    } else {
        None
    }
}

/// What a conversion hands out for writing.
#[derive(Debug)]
pub struct Converted {
    /// The preamble, grouped by key.
    pub metadata: Value,
    /// The batches of the columnar output, in order.
    pub batches: Vec<Batch>,
}

/// What is converted, as the map and the tables that it is.
pub struct ConvertedView {
    pub metadata: Map<Seq<char>, Seq<Seq<char>>>,
    pub batches: Seq<Table>,
}

impl View for Converted {
    type V = ConvertedView;

    open spec fn view(&self) -> ConvertedView {
        ConvertedView { metadata: json_object_entries(self.metadata), batches: tables_of(self.batches@) }
    }
}

/// What the conversion of an input of this name and these lines gives with
/// this flush threshold.
pub open spec fn converted_of(name: Seq<char>, lines: Seq<Seq<char>>, threshold: nat) -> Result<
    ConvertedView,
    VcfError,
> {
    let whole = conversion_of(lines, threshold, usize::MAX as nat);
    if format_of(name) is None {
        Err(VcfError::InvalidInputFormat(FormatProblem::UnrecognizedExtension))
    } else {
        match whole.outcome {
            Ok(rows) => Ok(
                ConvertedView { metadata: grouped(entries_of(lines.take(preamble_end(lines)))), batches: whole.batches },
            ),
            Err(error) => Err(error),
        }
    }
}

/// Converts an input, given as its name and its lines.
///
/// An input whose name ends in neither `.vcf` nor `.vcf.gz` is refused
/// before anything is converted. Otherwise the preamble is grouped by key,
/// and the rows are converted with `chunk_size` for flush threshold.
pub fn convert_vcf_to_parquet(args: &Cli, lines: &Vec<String>) -> (r: Result<Converted, VcfError>)
    ensures
        match r {
            Ok(converted) => converted_of(args.input@, lines.deep_view(), args.chunk_size as nat) == Ok::<
                ConvertedView,
                VcfError,
            >(converted@),
            Err(error) => converted_of(args.input@, lines.deep_view(), args.chunk_size as nat) == Err::<
                ConvertedView,
                VcfError,
            >(error),
        },
{
    if input_format(args.input.as_str()).is_none() {
        return Err(VcfError::InvalidInputFormat(FormatProblem::UnrecognizedExtension));
    }
    let preamble = read_metadata(lines);
    let metadata = parse_metadata(preamble.as_slice());
    match vcf_to_parquet(lines, args.chunk_size) {
        Ok(batches) => Ok(Converted { metadata, batches }),
        Err(error) => Err(error),
    }
}

/// The compressed and the plain form of an input convert alike: where two
/// names are both recognised, the same lines give the same metadata, the
/// same batches and the same outcome under either name.
pub proof fn law_format_is_transparent(name: Seq<char>, other: Seq<char>, lines: Seq<Seq<char>>, threshold: nat)
    requires
        format_of(name) is Some,
        format_of(other) is Some,
    ensures
        converted_of(name, lines, threshold) == converted_of(other, lines, threshold),
{
}

} // verus!
