//! The three kinds of line in a variant text file.

use vstd::prelude::*;

use crate::batch::{table_of, Table};
use crate::create_parquet::{column_names, create_parquet, single_row, Opening};
use crate::error::{FormatProblem, VcfError};
use crate::text::{split_on, DELIMITER};

verus! {

/// The marker that starts a header line; doubled, it starts a preamble line.
pub const COMMENT: char = '#';

/// What a line is, going by how it begins.
#[derive(Clone, Copy, Debug, PartialEq, Eq, Structural)]
pub enum LineKind {
    /// A preamble line: it begins with the doubled comment marker and
    /// carries key/value metadata.
    Metadata,
    /// A header line: it begins with one comment marker, not two, and names
    /// the columns.
    Header,
    /// Any other line: a row of field values.
    Data,
}

/// The kind of `line`.
pub open spec fn kind_of(line: Seq<char>) -> LineKind {
    if line.len() >= 2 && line[0] == COMMENT && line[1] == COMMENT {
        LineKind::Metadata
    } else if line.len() >= 1 && line[0] == COMMENT {
        LineKind::Header
    } else {
        LineKind::Data
    }
}

/// Classifies `line` by its first two characters.
pub fn classify(line: &str) -> (kind: LineKind)
    ensures
        kind == kind_of(line@),
{
    broadcast use vstd::string::group_string_axioms;

    let mut rest = line.chars();
    let first = rest.next();
    let second = rest.next();
    match first {
        Some(a) => {
            if a != COMMENT {
                LineKind::Data
            } else {
                match second {
                    Some(b) => {
                        if b == COMMENT {
                            LineKind::Metadata
                        } else {
                            LineKind::Header
                        }
                    },
                    None => LineKind::Header,
                }
            }
        },
        None => LineKind::Data,
    }
}

/// The place of the first line that is no preamble line, or the number of
/// lines if all are.
pub open spec fn preamble_end(lines: Seq<Seq<char>>) -> int
    decreases lines.len(),
{
    if lines.len() == 0 {
        0
    } else {
        let before = preamble_end(lines.drop_last());
        if before == lines.len() - 1 && kind_of(lines.last()) == LineKind::Metadata {
            lines.len() as int
        } else {
            before
        }
    }
}

/// All lines before the end of the preamble are preamble lines, and the
/// line there, if there is one, is not.
pub proof fn lemma_preamble_end(lines: Seq<Seq<char>>)
    ensures
        0 <= preamble_end(lines) <= lines.len(),
        forall|i: int| 0 <= i < preamble_end(lines) ==> kind_of(#[trigger] lines[i]) == LineKind::Metadata,
        preamble_end(lines) < lines.len() ==> kind_of(lines[preamble_end(lines)]) != LineKind::Metadata,
    decreases lines.len(),
{
    if lines.len() > 0 {
        let shorter = lines.drop_last();
        lemma_preamble_end(shorter);
        assert forall|i: int| 0 <= i < preamble_end(lines) implies kind_of(#[trigger] lines[i])
            == LineKind::Metadata by {
            if i < shorter.len() {
                assert(shorter[i] == lines[i]);
            }
        }
    }
}

/// The preamble ends at `n` if the lines before `n` are preamble lines and
/// the line at `n`, if there is one, is not.
pub proof fn lemma_preamble_ends_at(lines: Seq<Seq<char>>, n: int)
    requires
        0 <= n <= lines.len(),
        forall|i: int| 0 <= i < n ==> kind_of(#[trigger] lines[i]) == LineKind::Metadata,
        n < lines.len() ==> kind_of(lines[n]) != LineKind::Metadata,
    ensures
        preamble_end(lines) == n,
{
    lemma_preamble_end(lines);
}

/// What the head of an input gives: the schema and the initial batch, or
/// why there is none.
pub open spec fn opening_of(lines: Seq<Seq<char>>) -> Result<(Seq<Seq<char>>, Table), VcfError> {
    let p = preamble_end(lines);
    if p >= lines.len() || kind_of(lines[p]) != LineKind::Header {
        Err(VcfError::InvalidInputFormat(FormatProblem::MissingHeader))
    } else if p + 1 >= lines.len() {
        Err(VcfError::InvalidInputFormat(FormatProblem::MissingData))
    } else {
        let names = split_on(lines[p], DELIMITER);
        let fields = split_on(lines[p + 1], DELIMITER);
        if fields.len() != names.len() {
            Err(
                VcfError::ColumnCountMismatch {
                    row: 1,
                    expected: names.len() as usize,
                    found: fields.len() as usize,
                },
            )
        } else {
            Ok((names, table_of(names, single_row(fields))))
        }
    }
}

/// Reads the head of an input: passes over the preamble, takes the header
/// line and the first data row, and gives what a destination starts with.
pub fn read_vcf(lines: &Vec<String>) -> (r: Result<Opening, VcfError>)
    ensures
        match r {
            Ok(opening) => opening_of(lines.deep_view()) == Ok::<(Seq<Seq<char>>, Table), VcfError>(
                (column_names(opening.schema@), opening.first@),
            ),
            Err(error) => opening_of(lines.deep_view()) == Err::<(Seq<Seq<char>>, Table), VcfError>(
                error,
            ),
        },
{
    let mut p: usize = 0;
    while p < lines.len() && classify(lines[p].as_str()) == LineKind::Metadata
        invariant
            p <= lines.len(),
            forall|i: int| 0 <= i < p ==> kind_of(#[trigger] lines.deep_view()[i]) == LineKind::Metadata,
        decreases lines.len() - p,
    {
        p = p + 1;
    }
    proof {
        lemma_preamble_ends_at(lines.deep_view(), p as int);
    }
    if p >= lines.len() {
        return Err(VcfError::InvalidInputFormat(FormatProblem::MissingHeader));
    }
    match classify(lines[p].as_str()) {
        LineKind::Header => {},
        _ => {
            return Err(VcfError::InvalidInputFormat(FormatProblem::MissingHeader));
        },
    }
    if lines.len() - p < 2 {
        return Err(VcfError::InvalidInputFormat(FormatProblem::MissingData));
    }
    create_parquet(lines[p].clone(), lines[p + 1].clone())
}

} // verus!
