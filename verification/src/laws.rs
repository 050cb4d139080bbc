//! What holds of every conversion, proved of the driver's transitions.
//!
//! The statements speak of `conversion_of`, which is what `read_vcf` returns,
//! and of an input with its header line at place `p`: all lines before it
//! are preamble lines, and the lines after it are the data rows.

use vstd::prelude::*;

use crate::batch::{columns_of, lemma_rows_of_columns, table_of, Table};
use crate::create_parquet::single_row;
use crate::error::{FormatProblem, VcfError};
use crate::parquet_writer::regular;
use crate::read_vcf::{
    batch_in, batches_of, conversion_of, forwarded_of, lemma_run_finished, line_in, run, ActionView, EventView,
    Machine, Progress,
};
use crate::text::{join_with, lemma_join_split, lemma_split_nonempty, split_on, DELIMITER};
use crate::vcf::{kind_of, lemma_preamble_end, preamble_end, LineKind};

verus! {

/// The rows of all batches, one batch after the other.
pub open spec fn rows_in(batches: Seq<Table>) -> Seq<Seq<Seq<char>>>
    decreases batches.len(),
{
    if batches.len() == 0 {
        Seq::empty()
    } else {
        rows_in(batches.drop_last()) + batches.last().rows()
    }
}

/// Whether every batch is well-formed and has `names` for column names.
pub open spec fn uniform(batches: Seq<Table>, names: Seq<Seq<char>>) -> bool {
    forall|i: int| 0 <= i < batches.len() ==> (#[trigger] batches[i]).names == names && batches[i].wf()
}

/// Whether the header line of `lines` is at `p`: it is a header line, and
/// all lines before it are preamble lines.
pub open spec fn header_at(lines: Seq<Seq<char>>, p: int) -> bool {
    &&& 0 <= p < lines.len()
    &&& kind_of(lines[p]) == LineKind::Header
    &&& forall|i: int| 0 <= i < p ==> kind_of(#[trigger] lines[i]) == LineKind::Metadata
}

/// The column names that the header line at `p` gives.
pub open spec fn names_at(lines: Seq<Seq<char>>, p: int) -> Seq<Seq<char>> {
    split_on(lines[p], DELIMITER)
}

/// The fields of data row `i`, counted from 0 behind the header line at `p`.
pub open spec fn row_at(lines: Seq<Seq<char>>, p: int, i: int) -> Seq<Seq<char>> {
    split_on(lines[p + 1 + i], DELIMITER)
}

/// Whether data row `i` has as many fields as the header has names.
pub open spec fn fits(lines: Seq<Seq<char>>, p: int, i: int) -> bool {
    row_at(lines, p, i).len() == names_at(lines, p).len()
}

/// Whether the first `n` data rows all fit the header.
pub open spec fn all_fit(lines: Seq<Seq<char>>, p: int, n: int) -> bool {
    forall|i: int| 0 <= i < n ==> #[trigger] fits(lines, p, i)
}

/// The first `n` data rows, each as its fields.
pub open spec fn data_rows(lines: Seq<Seq<char>>, p: int, n: int) -> Seq<Seq<Seq<char>>> {
    Seq::new(n as nat, |i: int| row_at(lines, p, i))
}

/// The fatal condition that data row `b` is, not fitting the header.
pub open spec fn mismatch_at(lines: Seq<Seq<char>>, p: int, b: int) -> VcfError {
    VcfError::ColumnCountMismatch {
        row: (b + 1) as usize,
        expected: names_at(lines, p).len() as usize,
        found: row_at(lines, p, b).len() as usize,
    }
}

/// Whether data row `b` is the first that does not fit the header.
pub open spec fn first_misfit(lines: Seq<Seq<char>>, p: int, b: int) -> bool {
    &&& 0 <= b < lines.len() - p - 1
    &&& all_fit(lines, p, b)
    &&& !fits(lines, p, b)
}

/// The number of data rows that a conversion takes where all of them fit:
/// all there are, or as many as the cap allows.
pub open spec fn taken(lines: Seq<Seq<char>>, p: int, cap: nat) -> int {
    let rows = lines.len() - p - 1;
    if rows <= cap {
        rows
    } else {
        cap as int
    }
}

/// Where a driver stands after the header line at `p` and `d` data rows,
/// and what it has asked to write until then.
pub open spec fn stands(lines: Seq<Seq<char>>, p: int, d: int, machine: Machine, batches: Seq<Table>) -> bool {
    let names = names_at(lines, p);
    &&& uniform(batches, names)
    &&& match machine.progress {
        Progress::Preamble => false,
        Progress::HeaderSeen { header } => d == 0 && header == lines[p] && batches.len() == 0,
        Progress::Streaming { writer } => {
            &&& 1 <= d <= machine.cap
            &&& writer.names == names
            &&& writer.rows == d
            &&& writer.threshold == machine.threshold
            &&& writer.wf()
            &&& all_fit(lines, p, d)
            &&& rows_in(batches) + writer.pending == data_rows(lines, p, d)
        },
        Progress::Done { rows } => {
            &&& rows == machine.cap
            &&& machine.cap < d
            &&& all_fit(lines, p, rows as int)
            &&& rows_in(batches) == data_rows(lines, p, rows as int)
        },
        Progress::Failed { error } => exists|b: int|
            {
                &&& #[trigger] first_misfit(lines, p, b)
                &&& b < d
                &&& b < machine.cap
                &&& error == mismatch_at(lines, p, b)
                &&& rows_in(batches) == data_rows(lines, p, b)
            },
    }
}

/// The rows of one more batch come behind the rows of the batches before.
pub proof fn lemma_rows_in_push(batches: Seq<Table>, batch: Table)
    ensures
        rows_in(batches.push(batch)) == rows_in(batches) + batch.rows(),
{
    assert(batches.push(batch).drop_last() == batches);
}

/// The batch of rows that all have a value for every name is well-formed,
/// and its rows are those rows.
pub proof fn lemma_batch_rows(names: Seq<Seq<char>>, rows: Seq<Seq<Seq<char>>>)
    requires
        names.len() >= 1,
        regular(rows, names.len()),
    ensures
        table_of(names, columns_of(rows, names.len())).wf(),
        table_of(names, columns_of(rows, names.len())).rows() == rows,
{
    lemma_rows_of_columns(rows, names.len());
}

/// While all lines are preamble lines, the driver stays in the preamble,
/// forwards every line and asks for nothing to be written.
pub proof fn lemma_run_preamble(lines: Seq<Seq<char>>, threshold: nat, cap: nat, n: int)
    requires
        0 <= n <= lines.len(),
        forall|i: int| 0 <= i < n ==> kind_of(#[trigger] lines[i]) == LineKind::Metadata,
    ensures
        run(Machine::start(threshold, cap), lines.take(n)).0 == Machine::start(threshold, cap),
        batches_of(run(Machine::start(threshold, cap), lines.take(n)).1).len() == 0,
        forwarded_of(run(Machine::start(threshold, cap), lines.take(n)).1) == lines.take(n),
    decreases n,
{
    if n > 0 {
        lemma_run_preamble(lines, threshold, cap, n - 1);
        assert(lines.take(n).drop_last() == lines.take(n - 1));
        let (before, actions) = run(Machine::start(threshold, cap), lines.take(n - 1));
        let action = before.step(EventView::Line(lines[n - 1])).1;
        assert(actions.push(action).drop_last() == actions);
    }
}

/// One more data row leads from where the driver stands to where it stands
/// then.
proof fn lemma_step_stands(lines: Seq<Seq<char>>, p: int, d: int, machine: Machine, batches: Seq<Table>)
    requires
        header_at(lines, p),
        0 <= d < lines.len() - p - 1,
        machine.cap <= usize::MAX,
        stands(lines, p, d, machine, batches),
    ensures
        ({
            let (after, action) = machine.step(EventView::Line(lines[p + 1 + d]));
            let written = match batch_in(action) {
                Some(batch) => batches.push(batch),
                None => batches,
            };
            &&& stands(lines, p, d + 1, after, written)
            &&& line_in(action) is None
            &&& after.threshold == machine.threshold
            &&& after.cap == machine.cap
        }),
{
    let names = names_at(lines, p);
    let fields = row_at(lines, p, d);
    lemma_split_nonempty(lines[p], DELIMITER);
    assert(data_rows(lines, p, d + 1) =~= data_rows(lines, p, d).push(fields));
    match machine.progress {
        Progress::Preamble => {},
        Progress::HeaderSeen { header } => {
            assert(data_rows(lines, p, 0) =~= Seq::<Seq<Seq<char>>>::empty());
            if machine.cap > 0 {
                if fields.len() != names.len() {
                    assert(first_misfit(lines, p, 0));
                } else {
                    lemma_batch_rows(names, seq![fields]);
                    lemma_rows_in_push(batches, table_of(names, single_row(fields)));
                }
            }
        },
        Progress::Streaming { writer } => {
            if writer.rows >= machine.cap {
                if writer.pending.len() > 0 {
                    lemma_batch_rows(names, writer.pending);
                    lemma_rows_in_push(batches, writer.batch());
                }
            } else if fields.len() != names.len() {
                assert(first_misfit(lines, p, d));
                if writer.pending.len() > 0 {
                    lemma_batch_rows(names, writer.pending);
                    lemma_rows_in_push(batches, writer.batch());
                }
            } else {
                assert(all_fit(lines, p, d + 1)) by {
                    assert forall|i: int| 0 <= i < d + 1 implies #[trigger] fits(lines, p, i) by {}
                }
                if writer.fills() {
                    lemma_batch_rows(names, writer.with_row(fields).pending);
                    lemma_rows_in_push(batches, writer.with_row(fields).batch());
                }
            }
        },
        Progress::Done { rows } => {},
        Progress::Failed { error } => {},
    }
}

/// After its header line and `d` data rows the driver stands as `stands`
/// says, has forwarded the preamble and nothing else, and has kept its
/// threshold and its cap.
pub proof fn lemma_run_stands(lines: Seq<Seq<char>>, p: int, threshold: nat, cap: nat, d: int)
    requires
        header_at(lines, p),
        0 <= d <= lines.len() - p - 1,
        cap <= usize::MAX,
    ensures
        ({
            let (machine, actions) = run(Machine::start(threshold, cap), lines.take(p + 1 + d));
            &&& stands(lines, p, d, machine, batches_of(actions))
            &&& forwarded_of(actions) == lines.take(p)
            &&& machine.threshold == threshold
            &&& machine.cap == cap
        }),
    decreases d,
{
    assert(lines.take(p + 1 + d).drop_last() == lines.take(p + d));
    let (before, actions) = run(Machine::start(threshold, cap), lines.take(p + d));
    let action = before.step(EventView::Line(lines[p + d])).1;
    assert(actions.push(action).drop_last() == actions);
    if d == 0 {
        lemma_run_preamble(lines, threshold, cap, p);
    } else {
        lemma_run_stands(lines, p, threshold, cap, d - 1);
        lemma_step_stands(lines, p, d - 1, before, batches_of(actions));
    }
}

/// How a conversion of an input with its header line at `p` ends: with an
/// outcome and with rows written as `ends` says. There is one outcome and
/// one sequence of rows of which it says so; neither depends on the flush
/// threshold.
pub open spec fn ends(
    lines: Seq<Seq<char>>,
    p: int,
    cap: nat,
    outcome: Result<usize, VcfError>,
    rows: Seq<Seq<Seq<char>>>,
) -> bool {
    let n = taken(lines, p, cap);
    if lines.len() == p + 1 {
        &&& outcome == Err::<usize, VcfError>(VcfError::InvalidInputFormat(FormatProblem::MissingData))
        &&& rows.len() == 0
    } else if all_fit(lines, p, n) {
        &&& outcome == Ok::<usize, VcfError>(n as usize)
        &&& rows == data_rows(lines, p, n)
    } else {
        exists|b: int|
            {
                &&& #[trigger] first_misfit(lines, p, b)
                &&& b < n
                &&& outcome == Err::<usize, VcfError>(mismatch_at(lines, p, b))
                &&& rows == data_rows(lines, p, b)
            }
    }
}

/// A conversion of an input with its header line at `p` hands out batches
/// that all have the header's names, forwards the preamble, and ends as
/// `ends` says.
pub proof fn lemma_conversion(lines: Seq<Seq<char>>, p: int, threshold: nat, cap: nat)
    requires
        header_at(lines, p),
        cap <= usize::MAX,
    ensures
        ({
            let whole = conversion_of(lines, threshold, cap);
            &&& whole.metadata == lines.take(p)
            &&& uniform(whole.batches, names_at(lines, p))
            &&& ends(lines, p, cap, whole.outcome, rows_in(whole.batches))
        }),
{
    let d = lines.len() - p - 1;
    let names = names_at(lines, p);
    lemma_split_nonempty(lines[p], DELIMITER);
    lemma_run_stands(lines, p, threshold, cap, d);
    assert(lines.take(p + 1 + d) == lines);
    let (machine, actions) = run(Machine::start(threshold, cap), lines);
    let action = machine.step(EventView::EndOfInput).1;
    assert(actions.push(action).drop_last() == actions);
    if let Progress::Streaming { writer } = machine.progress {
        if writer.pending.len() > 0 {
            lemma_batch_rows(names, writer.pending);
            lemma_rows_in_push(batches_of(actions), writer.batch());
        }
    }
}

/// There is one way for a conversion to end.
pub proof fn lemma_ends_once(
    lines: Seq<Seq<char>>,
    p: int,
    cap: nat,
    outcome: Result<usize, VcfError>,
    rows: Seq<Seq<Seq<char>>>,
    other_outcome: Result<usize, VcfError>,
    other_rows: Seq<Seq<Seq<char>>>,
)
    requires
        ends(lines, p, cap, outcome, rows),
        ends(lines, p, cap, other_outcome, other_rows),
    ensures
        outcome == other_outcome,
        rows == other_rows,
{
}

/// A conversion of an input without a header line, be it empty, all
/// preamble, or with a data line for first line behind the preamble, fails
/// for want of a header and asks for nothing to be written.
pub proof fn lemma_conversion_without_header(lines: Seq<Seq<char>>, p: int, threshold: nat, cap: nat)
    requires
        0 <= p <= lines.len(),
        forall|i: int| 0 <= i < p ==> kind_of(#[trigger] lines[i]) == LineKind::Metadata,
        p < lines.len() ==> kind_of(lines[p]) == LineKind::Data,
    ensures
        ({
            let whole = conversion_of(lines, threshold, cap);
            &&& whole.outcome == Err::<usize, VcfError>(VcfError::InvalidInputFormat(FormatProblem::MissingHeader))
            &&& whole.batches.len() == 0
            &&& whole.metadata == lines.take(p)
        }),
{
    let start = Machine::start(threshold, cap);
    lemma_run_preamble(lines, threshold, cap, p);
    if p == lines.len() {
        assert(lines.take(p) == lines);
        let (machine, actions) = run(start, lines);
        let action = machine.step(EventView::EndOfInput).1;
        assert(actions.push(action).drop_last() == actions);
    } else {
        assert(lines.take(p + 1).drop_last() == lines.take(p));
        let (before, actions) = run(start, lines.take(p));
        let action = before.step(EventView::Line(lines[p])).1;
        assert(actions.push(action).drop_last() == actions);
        lemma_run_finished(start, lines, p + 1);
        let (machine, all) = run(start, lines);
        let last = machine.step(EventView::EndOfInput).1;
        assert(all.push(last).drop_last() == all);
    }
}

/// Every batch of a conversion has the header's names for column names, in
/// the header's order, and a value for every name in every row.
pub proof fn law_rows_have_the_header_shape(lines: Seq<Seq<char>>, p: int, threshold: nat, cap: nat)
    requires
        header_at(lines, p),
        cap <= usize::MAX,
    ensures
        uniform(conversion_of(lines, threshold, cap).batches, names_at(lines, p)),
        forall|i: int, r: int|
            #![trigger conversion_of(lines, threshold, cap).batches[i].rows()[r]]
            0 <= i < conversion_of(lines, threshold, cap).batches.len() && 0 <= r < conversion_of(
                lines,
                threshold,
                cap,
            ).batches[i].rows().len() ==> conversion_of(lines, threshold, cap).batches[i].rows()[r].len()
                == names_at(lines, p).len(),
{
    lemma_conversion(lines, p, threshold, cap);
}

/// Where a data row that is taken has another number of fields than the
/// header, the conversion fails with the mismatch of the first such row,
/// and the rows written are those before it.
pub proof fn law_misfit_fails(lines: Seq<Seq<char>>, p: int, threshold: nat, cap: nat, b: int)
    requires
        header_at(lines, p),
        cap <= usize::MAX,
        first_misfit(lines, p, b),
        b < cap,
    ensures
        conversion_of(lines, threshold, cap).outcome == Err::<usize, VcfError>(mismatch_at(lines, p, b)),
        rows_in(conversion_of(lines, threshold, cap).batches) == data_rows(lines, p, b),
{
    lemma_conversion(lines, p, threshold, cap);
}

/// An input that ends with its header line is refused as being without
/// data, and nothing is written.
pub proof fn law_header_only_fails(lines: Seq<Seq<char>>, threshold: nat, cap: nat)
    requires
        lines.len() >= 1,
        header_at(lines, lines.len() - 1),
        cap <= usize::MAX,
    ensures
        conversion_of(lines, threshold, cap).outcome == Err::<usize, VcfError>(
            VcfError::InvalidInputFormat(FormatProblem::MissingData),
        ),
        conversion_of(lines, threshold, cap).batches.len() == 0,
{
    let p = lines.len() - 1;
    lemma_run_stands(lines, p, threshold, cap, 0);
    assert(lines.take(p + 1) == lines);
    let (machine, actions) = run(Machine::start(threshold, cap), lines);
    let action = machine.step(EventView::EndOfInput).1;
    assert(actions.push(action).drop_last() == actions);
}

/// An input in which no line is a header line is refused for want of a
/// header, however many lines follow its preamble, and nothing is written.
pub proof fn law_no_header_fails(lines: Seq<Seq<char>>, threshold: nat, cap: nat)
    requires
        forall|i: int| 0 <= i < lines.len() ==> kind_of(#[trigger] lines[i]) != LineKind::Header,
    ensures
        conversion_of(lines, threshold, cap).outcome == Err::<usize, VcfError>(
            VcfError::InvalidInputFormat(FormatProblem::MissingHeader),
        ),
        conversion_of(lines, threshold, cap).batches.len() == 0,
{
    lemma_preamble_end(lines);
    lemma_conversion_without_header(lines, preamble_end(lines), threshold, cap);
}

/// The flush threshold decides where the batches are cut and nothing else:
/// with any two thresholds a conversion ends alike, forwards the same
/// preamble and writes the same rows in the same order.
pub proof fn law_threshold_invariance(lines: Seq<Seq<char>>, threshold: nat, other: nat, cap: nat)
    requires
        cap <= usize::MAX,
    ensures
        conversion_of(lines, threshold, cap).outcome == conversion_of(lines, other, cap).outcome,
        conversion_of(lines, threshold, cap).metadata == conversion_of(lines, other, cap).metadata,
        rows_in(conversion_of(lines, threshold, cap).batches) == rows_in(conversion_of(lines, other, cap).batches),
{
    lemma_preamble_end(lines);
    let p = preamble_end(lines);
    if p < lines.len() && kind_of(lines[p]) == LineKind::Header {
        lemma_conversion(lines, p, threshold, cap);
        lemma_conversion(lines, p, other, cap);
        let one = conversion_of(lines, threshold, cap);
        let two = conversion_of(lines, other, cap);
        lemma_ends_once(lines, p, cap, one.outcome, rows_in(one.batches), two.outcome, rows_in(two.batches));
    } else {
        lemma_conversion_without_header(lines, p, threshold, cap);
        lemma_conversion_without_header(lines, p, other, cap);
    }
}

/// What was written reads back as what was read: where the data rows that
/// are taken all fit the header, the column names, joined by the delimiter,
/// are the header line, there is a row written for every data line taken,
/// in the order of the lines, and its values, joined by the delimiter, are
/// that line.
pub proof fn law_round_trip(lines: Seq<Seq<char>>, p: int, threshold: nat, cap: nat)
    requires
        header_at(lines, p),
        p + 1 < lines.len(),
        cap <= usize::MAX,
        all_fit(lines, p, taken(lines, p, cap)),
    ensures
        ({
            let whole = conversion_of(lines, threshold, cap);
            let rows = rows_in(whole.batches);
            &&& whole.outcome == Ok::<usize, VcfError>(taken(lines, p, cap) as usize)
            &&& forall|i: int|
                0 <= i < whole.batches.len() ==> join_with((#[trigger] whole.batches[i]).names, DELIMITER)
                    == lines[p]
            &&& rows.len() == taken(lines, p, cap)
            &&& forall|r: int| 0 <= r < rows.len() ==> join_with(#[trigger] rows[r], DELIMITER) == lines[p + 1 + r]
        }),
{
    lemma_conversion(lines, p, threshold, cap);
    let rows = rows_in(conversion_of(lines, threshold, cap).batches);
    lemma_join_split(lines[p], DELIMITER);
    assert forall|r: int| 0 <= r < rows.len() implies join_with(#[trigger] rows[r], DELIMITER) == lines[p + 1
        + r] by {
        lemma_join_split(lines[p + 1 + r], DELIMITER);
    }
}

/// The events that the lines of an input are, one line each.
pub open spec fn line_events(lines: Seq<Seq<char>>) -> Seq<EventView> {
    Seq::new(lines.len(), |i: int| EventView::Line(lines[i]))
}

/// The state that any events lead to from `start`, and the actions that
/// answer them.
pub open spec fn follow(start: Machine, events: Seq<EventView>) -> (Machine, Seq<ActionView>)
    decreases events.len(),
{
    if events.len() == 0 {
        (start, Seq::empty())
    } else {
        let (before, actions) = follow(start, events.drop_last());
        let (after, action) = before.step(events.last());
        (after, actions.push(action))
    }
}

/// What has become of the destination.
pub enum Destination {
    /// It was not created.
    Unopened,
    /// It was created and takes batches.
    Open,
    /// Its closing structure was written and it was released.
    Closed,
    /// It was asked to do what it cannot: to be created twice, to take a
    /// batch before it was created or after it was closed, or to be closed
    /// when it was not open.
    Misused,
}

/// What becomes of the destination when the actions are carried out in
/// order.
pub open spec fn destination_after(actions: Seq<ActionView>) -> Destination
    decreases actions.len(),
{
    if actions.len() == 0 {
        Destination::Unopened
    } else {
        let before = destination_after(actions.drop_last());
        match actions.last() {
            ActionView::Continue => before,
            ActionView::Forward(line) => before,
            ActionView::Open { names, first } => if before is Unopened {
                Destination::Open
            } else {
                Destination::Misused
            },
            ActionView::Write(batch) => if before is Open {
                Destination::Open
            } else {
                Destination::Misused
            },
            ActionView::Close(last) => if before is Open {
                Destination::Closed
            } else {
                Destination::Misused
            },
        }
    }
}

/// Running over lines is following the events that they are.
pub proof fn lemma_run_follows(start: Machine, lines: Seq<Seq<char>>)
    ensures
        run(start, lines) == follow(start, line_events(lines)),
    decreases lines.len(),
{
    if lines.len() > 0 {
        lemma_run_follows(start, lines.drop_last());
        assert(line_events(lines).drop_last() =~= line_events(lines.drop_last()));
    }
}

/// Whatever happens at the input and at the destination, in whatever
/// order, the driver never misuses the destination: it has it created at
/// most once, writes to it only while it is open, and closes it exactly
/// once if it was created, on every way to an end. The destination is open
/// exactly while the driver streams.
pub proof fn law_destination_is_closed(threshold: nat, cap: nat, events: Seq<EventView>)
    ensures
        ({
            let (machine, actions) = follow(Machine::start(threshold, cap), events);
            match machine.progress {
                Progress::Streaming { writer } => destination_after(actions) is Open,
                Progress::Done { rows } => destination_after(actions) is Closed || (rows == 0
                    && destination_after(actions) is Unopened),
                Progress::Failed { error } => destination_after(actions) is Closed || destination_after(actions)
                    is Unopened,
                _ => destination_after(actions) is Unopened,
            }
        }),
    decreases events.len(),
{
    if events.len() > 0 {
        law_destination_is_closed(threshold, cap, events.drop_last());
        let (before, actions) = follow(Machine::start(threshold, cap), events.drop_last());
        let (after, action) = before.step(events.last());
        assert(actions.push(action).drop_last() == actions);
    }
}

} // verus!
