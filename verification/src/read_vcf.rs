//! The conversion driver: a state machine that takes the lines of the input
//! one by one, tells preamble, header and data apart, makes the batch writer
//! once header and first data row are known, and feeds it the rows after.
//!
//! The driver does no input or output itself. Whoever runs it hands it an
//! [`Event`] and carries out the [`Action`] it answers with.

use vstd::prelude::*;

use crate::batch::{table_of, Batch, Table};
use crate::create_parquet::{column_names, single_row, Opening};
use crate::error::{FormatProblem, VcfError};
use crate::parquet_writer::{ParquetWriter, WriterView};
use crate::text::{split_on, DELIMITER};
use crate::vcf::{classify, kind_of, LineKind};

verus! {

/// What happened at the input, or at the destination.
#[derive(Clone, Debug, PartialEq, Eq)]
pub enum Event {
    /// The next line of the input, without its line end.
    Line(String),
    /// The input is exhausted.
    EndOfInput,
    /// The input could not be read.
    ReadFailed,
    /// The destination could not be written.
    WriteFailed,
}

/// An event, with a line as the text it is.
pub enum EventView {
    Line(Seq<char>),
    EndOfInput,
    ReadFailed,
    WriteFailed,
}

impl View for Event {
    type V = EventView;

    open spec fn view(&self) -> EventView {
        match self {
            Event::Line(line) => EventView::Line(line@),
            Event::EndOfInput => EventView::EndOfInput,
            Event::ReadFailed => EventView::ReadFailed,
            Event::WriteFailed => EventView::WriteFailed,
        }
    }
}

/// What is to be done in answer to an event.
#[derive(Clone, Debug, PartialEq, Eq)]
pub enum Action {
    /// Nothing.
    Continue,
    /// Give this preamble line to whoever collects the metadata.
    Forward(String),
    /// Create the destination, anew if it exists, for this schema, and write
    /// the initial batch to it.
    Open(Opening),
    /// Write this batch to the destination.
    Write(Batch),
    /// Write this last batch, if there is one, then write the closing
    /// structure and release the destination.
    Close(Option<Batch>),
}

/// An action, with texts and tables for what it carries.
pub enum ActionView {
    Continue,
    Forward(Seq<char>),
    Open { names: Seq<Seq<char>>, first: Table },
    Write(Table),
    Close(Option<Table>),
}

impl View for Action {
    type V = ActionView;

    open spec fn view(&self) -> ActionView {
        match self {
            Action::Continue => ActionView::Continue,
            Action::Forward(line) => ActionView::Forward(line@),
            Action::Open(opening) => ActionView::Open { names: column_names(opening.schema@), first: opening.first@ },
            Action::Write(batch) => ActionView::Write(batch@),
            Action::Close(Some(batch)) => ActionView::Close(Some(batch@)),
            Action::Close(None) => ActionView::Close(None),
        }
    }
}

/// Where a conversion stands.
pub enum Progress {
    /// No header line was seen yet.
    Preamble,
    /// The header line was seen, no data row yet.
    HeaderSeen { header: Seq<char> },
    /// The writer exists and takes rows.
    Streaming { writer: WriterView },
    /// The conversion ended well, with this many rows written.
    Done { rows: nat },
    /// The conversion failed.
    Failed { error: VcfError },
}

/// The driver as seen from outside.
pub struct Machine {
    pub progress: Progress,
    /// The flush threshold that the writer is made with.
    pub threshold: nat,
    /// The number of data rows after which the driver stops by itself.
    pub cap: nat,
}

/// The most data rows that a driver with this limit takes: as many as
/// there can be where there is no limit, none where the limit is negative.
pub open spec fn cap_of(limit: Option<i32>) -> nat {
    match limit {
        None => usize::MAX as nat,
        Some(n) => if n <= 0 {
            0
        } else {
            n as nat
        },
    }
}

/// What is left in the buffers of `writer`, as the batch to end with.
pub open spec fn last_batch(writer: WriterView) -> Option<Table> {
    if writer.pending.len() > 0 {
        Some(writer.batch())
    } else {
        None
    }
}

impl Machine {
    /// A driver before its first event.
    pub open spec fn start(threshold: nat, cap: nat) -> Machine {
        Machine { progress: Progress::Preamble, threshold, cap }
    }

    /// The same driver at another point of its progress.
    pub open spec fn at(self, progress: Progress) -> Machine {
        Machine { progress, ..self }
    }

    /// The writer, if there is one, is well-formed, was made with the
    /// driver's threshold, and has not taken more rows than the cap allows.
    pub open spec fn wf(self) -> bool {
        &&& self.cap <= usize::MAX
        &&& self.progress matches Progress::Streaming { writer } ==> {
            &&& writer.wf()
            &&& writer.threshold == self.threshold
            &&& writer.rows <= self.cap
        }
    }

    /// Whether the conversion has ended, well or not.
    pub open spec fn finished(self) -> bool {
        self.progress is Done || self.progress is Failed
    }

    /// The transition out of `Preamble`.
    pub open spec fn from_preamble(event: EventView) -> (Progress, ActionView) {
        match event {
            EventView::Line(line) => match kind_of(line) {
                LineKind::Metadata => (Progress::Preamble, ActionView::Forward(line)),
                LineKind::Header => (Progress::HeaderSeen { header: line }, ActionView::Continue),
                LineKind::Data => (
                    Progress::Failed { error: VcfError::InvalidInputFormat(FormatProblem::MissingHeader) },
                    ActionView::Continue,
                ),
            },
            EventView::EndOfInput => (
                Progress::Failed { error: VcfError::InvalidInputFormat(FormatProblem::MissingHeader) },
                ActionView::Continue,
            ),
            EventView::ReadFailed => (Progress::Failed { error: VcfError::IoFailure }, ActionView::Continue),
            EventView::WriteFailed => (
                Progress::Failed { error: VcfError::DestinationWriteFailure },
                ActionView::Continue,
            ),
        }
    }

    /// The transition out of `HeaderSeen`: the next line, whatever it begins
    /// with, is the first data row.
    pub open spec fn from_header_seen(self, header: Seq<char>, event: EventView) -> (Progress, ActionView) {
        match event {
            EventView::Line(line) => {
                let names = split_on(header, DELIMITER);
                let fields = split_on(line, DELIMITER);
                if self.cap == 0 {
                    (Progress::Done { rows: 0 }, ActionView::Continue)
                } else if fields.len() != names.len() {
                    (
                        Progress::Failed {
                            error: VcfError::ColumnCountMismatch {
                                row: 1,
                                expected: names.len() as usize,
                                found: fields.len() as usize,
                            },
                        },
                        ActionView::Continue,
                    )
                } else {
                    (
                        Progress::Streaming {
                            writer: WriterView { names, pending: Seq::empty(), threshold: self.threshold, rows: 1 },
                        },
                        ActionView::Open { names, first: table_of(names, single_row(fields)) },
                    )
                }
            },
            EventView::EndOfInput => (
                Progress::Failed { error: VcfError::InvalidInputFormat(FormatProblem::MissingData) },
                ActionView::Continue,
            ),
            EventView::ReadFailed => (Progress::Failed { error: VcfError::IoFailure }, ActionView::Continue),
            EventView::WriteFailed => (
                Progress::Failed { error: VcfError::DestinationWriteFailure },
                ActionView::Continue,
            ),
        }
    }

    /// The transition out of `Streaming`: every line is a data row. However
    /// the streaming ends, the destination is closed.
    pub open spec fn from_streaming(self, writer: WriterView, event: EventView) -> (Progress, ActionView) {
        match event {
            EventView::Line(line) => {
                let fields = split_on(line, DELIMITER);
                if writer.rows >= self.cap {
                    (Progress::Done { rows: writer.rows }, ActionView::Close(last_batch(writer)))
                } else if fields.len() != writer.names.len() {
                    (
                        Progress::Failed {
                            error: VcfError::ColumnCountMismatch {
                                row: (writer.rows + 1) as usize,
                                expected: writer.names.len() as usize,
                                found: fields.len() as usize,
                            },
                        },
                        ActionView::Close(last_batch(writer)),
                    )
                } else if writer.fills() {
                    (
                        Progress::Streaming { writer: writer.with_row(fields).flushed() },
                        ActionView::Write(writer.with_row(fields).batch()),
                    )
                } else {
                    (Progress::Streaming { writer: writer.with_row(fields) }, ActionView::Continue)
                }
            },
            EventView::EndOfInput => (Progress::Done { rows: writer.rows }, ActionView::Close(last_batch(writer))),
            EventView::ReadFailed => (
                Progress::Failed { error: VcfError::IoFailure },
                ActionView::Close(last_batch(writer)),
            ),
            EventView::WriteFailed => (
                Progress::Failed { error: VcfError::DestinationWriteFailure },
                ActionView::Close(None),
            ),
        }
    }

    /// The transition out of `Done` or `Failed`: a conversion that has ended
    /// stays as it ended, with one exception: when the destination fails
    /// after all, there was no success.
    pub open spec fn from_end(self, event: EventView) -> (Progress, ActionView) {
        if self.progress is Done && event is WriteFailed {
            (Progress::Failed { error: VcfError::DestinationWriteFailure }, ActionView::Continue)
        } else {
            (self.progress, ActionView::Continue)
        }
    }

    /// The state after `event`, and the action that answers it.
    pub open spec fn step(self, event: EventView) -> (Machine, ActionView) {
        let (progress, action) = match self.progress {
            Progress::Preamble => Self::from_preamble(event),
            Progress::HeaderSeen { header } => self.from_header_seen(header, event),
            Progress::Streaming { writer } => self.from_streaming(writer, event),
            _ => self.from_end(event),
        };
        (self.at(progress), action)
    }

    /// How the conversion ended, once it has.
    pub open spec fn outcome(self) -> Option<Result<usize, VcfError>> {
        match self.progress {
            Progress::Done { rows } => Some(Ok(rows as usize)),
            Progress::Failed { error } => Some(Err(error)),
            _ => None,
        }
    }
}

/// The states of the driver, with what each one holds.
enum State {
    Preamble,
    HeaderSeen(String),
    Streaming(ParquetWriter),
    Done(usize),
    Failed(VcfError),
}

/// The conversion driver.
pub struct Driver {
    state: State,
    threshold: usize,
    cap: usize,
}

impl View for Driver {
    type V = Machine;

    closed spec fn view(&self) -> Machine {
        Machine {
            progress: progress_of(self.state),
            threshold: self.threshold as nat,
            cap: self.cap as nat,
        }
    }
}

impl Driver {
    /// The writer, if there is one, is well-formed, and so is what is seen
    /// of the driver.
    pub closed spec fn wf(&self) -> bool {
        &&& self.state matches State::Streaming(writer) ==> writer.wf()
        &&& self@.wf()
    }

    /// A well-formed driver is seen as a well-formed machine.
    pub proof fn lemma_wf(&self)
        requires
            self.wf(),
        ensures
            self@.wf(),
    {
    }

    /// A driver before its first event. It flushes at `threshold` buffered
    /// rows and, where `limit` is given, stops by itself after that many
    /// data rows.
    pub fn new(threshold: usize, limit: Option<i32>) -> (driver: Driver)
        ensures
            driver.wf(),
            driver@ == Machine::start(threshold as nat, cap_of(limit)),
    {
        let cap: usize = match limit {
            None => usize::MAX,
            Some(n) => if n <= 0 {
                0
            } else {
                n as usize
            },
        };
        Driver { state: State::Preamble, threshold, cap }
    }

    /// Whether the conversion has ended, well or not.
    pub fn is_finished(&self) -> (finished: bool)
        ensures
            finished == self@.finished(),
    {
        match &self.state {
            State::Done(_) => true,
            State::Failed(_) => true,
            _ => false,
        }
    }

    /// How the conversion ended, once it has: with the number of rows
    /// written, or with the fatal condition.
    pub fn outcome(&self) -> (outcome: Option<Result<usize, VcfError>>)
        ensures
            outcome == self@.outcome(),
    {
        match &self.state {
            State::Done(rows) => Some(Ok(*rows)),
            State::Failed(error) => Some(Err(*error)),
            _ => None,
        }
    }

    /// The transition out of the preamble.
    fn on_preamble(event: Event) -> (r: (State, Action))
        ensures
            (progress_of(r.0), r.1@) == Machine::from_preamble(event@),
    {
        match event {
            Event::Line(line) => match classify(line.as_str()) {
                LineKind::Metadata => (State::Preamble, Action::Forward(line)),
                LineKind::Header => (State::HeaderSeen(line), Action::Continue),
                LineKind::Data => (
                    State::Failed(VcfError::InvalidInputFormat(FormatProblem::MissingHeader)),
                    Action::Continue,
                ),
            },
            Event::EndOfInput => (
                State::Failed(VcfError::InvalidInputFormat(FormatProblem::MissingHeader)),
                Action::Continue,
            ),
            Event::ReadFailed => (State::Failed(VcfError::IoFailure), Action::Continue),
            Event::WriteFailed => (State::Failed(VcfError::DestinationWriteFailure), Action::Continue),
        }
    }

    /// The transition out of the state in which the header line is known:
    /// the line that comes is the first data row, and with it the writer is
    /// made.
    fn on_header_seen(header: String, event: Event, threshold: usize, cap: usize) -> (r: (State, Action))
        ensures
            (progress_of(r.0), r.1@) == (Machine {
                progress: Progress::HeaderSeen { header: header@ },
                threshold: threshold as nat,
                cap: cap as nat,
            }).from_header_seen(header@, event@),
            r.0 matches State::Streaming(writer) ==> writer.wf(),
    {
        match event {
            Event::Line(line) => {
                if cap == 0 {
                    (State::Done(0), Action::Continue)
                } else {
                    match ParquetWriter::new(header, line, threshold) {
                        Ok((writer, opening)) => (State::Streaming(writer), Action::Open(opening)),
                        Err(error) => (State::Failed(error), Action::Continue),
                    }
                }
            },
            Event::EndOfInput => (
                State::Failed(VcfError::InvalidInputFormat(FormatProblem::MissingData)),
                Action::Continue,
            ),
            Event::ReadFailed => (State::Failed(VcfError::IoFailure), Action::Continue),
            Event::WriteFailed => (State::Failed(VcfError::DestinationWriteFailure), Action::Continue),
        }
    }

    /// The transition out of streaming: a line is one more row for the
    /// writer, and whatever ends the streaming finalizes the writer.
    fn on_streaming(writer: ParquetWriter, event: Event, threshold: usize, cap: usize) -> (r: (State, Action))
        requires
            writer.wf(),
            writer@.rows <= cap,
        ensures
            (progress_of(r.0), r.1@) == (Machine {
                progress: Progress::Streaming { writer: writer@ },
                threshold: threshold as nat,
                cap: cap as nat,
            }).from_streaming(writer@, event@),
            r.0 matches State::Streaming(after) ==> after.wf(),
    {
        let mut writer = writer;
        match event {
            Event::Line(line) => {
                if writer.rows() >= cap {
                    let rows = writer.rows();
                    (State::Done(rows), Action::Close(writer.finalize()))
                } else {
                    match writer.add_row(&line) {
                        Ok(Some(batch)) => (State::Streaming(writer), Action::Write(batch)),
                        Ok(None) => (State::Streaming(writer), Action::Continue),
                        Err(error) => (State::Failed(error), Action::Close(writer.finalize())),
                    }
                }
            },
            Event::EndOfInput => {
                let rows = writer.rows();
                (State::Done(rows), Action::Close(writer.finalize()))
            },
            Event::ReadFailed => (State::Failed(VcfError::IoFailure), Action::Close(writer.finalize())),
            Event::WriteFailed => (State::Failed(VcfError::DestinationWriteFailure), Action::Close(None)),
        }
    }

    /// Answers `event` and moves on.
    pub fn step(self, event: Event) -> (r: (Driver, Action))
        requires
            self.wf(),
        ensures
            r.0.wf(),
            (r.0@, r.1@) == self@.step(event@),
    {
        let Driver { state, threshold, cap } = self;
        let (state, action) = match state {
            State::Preamble => Self::on_preamble(event),
            State::HeaderSeen(header) => Self::on_header_seen(header, event, threshold, cap),
            State::Streaming(writer) => {
                proof {
                    writer.lemma_wf();
                }
                Self::on_streaming(writer, event, threshold, cap)
            },
            State::Done(rows) => match event {
                Event::WriteFailed => (State::Failed(VcfError::DestinationWriteFailure), Action::Continue),
                _ => (State::Done(rows), Action::Continue),
            },
            State::Failed(error) => (State::Failed(error), Action::Continue),
        };
        (Driver { state, threshold, cap }, action)
    }
}

/// What is seen of a state.
spec fn progress_of(state: State) -> Progress {
    match state {
        State::Preamble => Progress::Preamble,
        State::HeaderSeen(header) => Progress::HeaderSeen { header: header@ },
        State::Streaming(writer) => Progress::Streaming { writer: writer@ },
        State::Done(rows) => Progress::Done { rows: rows as nat },
        State::Failed(error) => Progress::Failed { error },
    }
}

/// The state that the lines lead to from `start`, one event each, and the
/// actions that answer them.
pub open spec fn run(start: Machine, lines: Seq<Seq<char>>) -> (Machine, Seq<ActionView>)
    decreases lines.len(),
{
    if lines.len() == 0 {
        (start, Seq::empty())
    } else {
        let (before, actions) = run(start, lines.drop_last());
        let (after, action) = before.step(EventView::Line(lines.last()));
        (after, actions.push(action))
    }
}

/// As `run`, with the end of the input for last event.
pub open spec fn run_to_end(start: Machine, lines: Seq<Seq<char>>) -> (Machine, Seq<ActionView>) {
    let (before, actions) = run(start, lines);
    let (after, action) = before.step(EventView::EndOfInput);
    (after, actions.push(action))
}

/// The batch that `action` asks to write, if it asks for one.
pub open spec fn batch_in(action: ActionView) -> Option<Table> {
    match action {
        ActionView::Open { names, first } => Some(first),
        ActionView::Write(batch) => Some(batch),
        ActionView::Close(Some(batch)) => Some(batch),
        _ => None,
    }
}

/// The preamble line that `action` forwards, if it forwards one.
pub open spec fn line_in(action: ActionView) -> Option<Seq<char>> {
    match action {
        ActionView::Forward(line) => Some(line),
        _ => None,
    }
}

/// The batches that the actions ask to write, in order.
pub open spec fn batches_of(actions: Seq<ActionView>) -> Seq<Table>
    decreases actions.len(),
{
    if actions.len() == 0 {
        Seq::empty()
    } else {
        let before = batches_of(actions.drop_last());
        match batch_in(actions.last()) {
            Some(batch) => before.push(batch),
            None => before,
        }
    }
}

/// The preamble lines that the actions forward, in order.
pub open spec fn forwarded_of(actions: Seq<ActionView>) -> Seq<Seq<char>>
    decreases actions.len(),
{
    if actions.len() == 0 {
        Seq::empty()
    } else {
        let before = forwarded_of(actions.drop_last());
        match line_in(actions.last()) {
            Some(line) => before.push(line),
            None => before,
        }
    }
}

/// What a conversion of a whole input gives.
#[derive(Debug, PartialEq, Eq)]
pub struct Conversion {
    /// The preamble lines, in order.
    pub metadata: Vec<String>,
    /// The batches written, in order. After a failure these are the batches
    /// of the rows before it.
    pub batches: Vec<Batch>,
    /// The number of rows written, or the fatal condition.
    pub outcome: Result<usize, VcfError>,
}

/// A conversion, with texts and tables for what it holds.
pub struct ConversionView {
    pub metadata: Seq<Seq<char>>,
    pub batches: Seq<Table>,
    pub outcome: Result<usize, VcfError>,
}

/// The tables of `batches`.
pub open spec fn tables_of(batches: Seq<Batch>) -> Seq<Table> {
    Seq::new(batches.len(), |i: int| batches[i]@)
}

impl View for Conversion {
    type V = ConversionView;

    open spec fn view(&self) -> ConversionView {
        ConversionView {
            metadata: self.metadata.deep_view(),
            batches: tables_of(self.batches@),
            outcome: self.outcome,
        }
    }
}

/// What the conversion of `lines` gives, for a flush threshold and a cap
/// on the data rows: the trace of a driver over the lines and the end of the
/// input, and how it ended.
pub open spec fn conversion_of(lines: Seq<Seq<char>>, threshold: nat, cap: nat) -> ConversionView {
    let (end, actions) = run_to_end(Machine::start(threshold, cap), lines);
    ConversionView {
        metadata: forwarded_of(actions),
        batches: batches_of(actions),
        outcome: end.outcome().unwrap(),
    }
}

/// At the end of the input every conversion ends.
pub proof fn lemma_end_finishes(machine: Machine)
    ensures
        machine.step(EventView::EndOfInput).0.finished(),
{
}

/// A conversion that has ended answers further lines with nothing and
/// stays as it is.
pub proof fn lemma_run_finished(start: Machine, lines: Seq<Seq<char>>, n: int)
    requires
        0 <= n <= lines.len(),
        run(start, lines.take(n)).0.finished(),
    ensures
        run(start, lines).0 == run(start, lines.take(n)).0,
        batches_of(run(start, lines).1) == batches_of(run(start, lines.take(n)).1),
        forwarded_of(run(start, lines).1) == forwarded_of(run(start, lines.take(n)).1),
    decreases lines.len() - n,
{
    if n == lines.len() {
        assert(lines.take(n) == lines);
    } else {
        assert(lines.drop_last().take(n) == lines.take(n));
        lemma_run_finished(start, lines.drop_last(), n);
        let (before, actions) = run(start, lines.drop_last());
        let action = before.step(EventView::Line(lines.last())).1;
        assert(actions.push(action).drop_last() == actions);
    }
}

/// Carries out `action` on the record of a conversion: a forwarded line
/// joins the metadata, a batch to write joins the batches.
fn absorb(action: Action, metadata: &mut Vec<String>, batches: &mut Vec<Batch>)
    ensures
        final(metadata).deep_view() == match line_in(action@) {
            Some(line) => old(metadata).deep_view().push(line),
            None => old(metadata).deep_view(),
        },
        tables_of(final(batches)@) == match batch_in(action@) {
            Some(batch) => tables_of(old(batches)@).push(batch),
            None => tables_of(old(batches)@),
        },
{
    match action {
        Action::Continue => {},
        Action::Forward(line) => {
            metadata.push(line);
        },
        Action::Open(opening) => {
            batches.push(opening.first);
        },
        Action::Write(batch) => {
            batches.push(batch);
        },
        Action::Close(last) => {
            match last {
                Some(batch) => {
                    batches.push(batch);
                },
                None => {},
            }
        },
    }
}

/// Converts a whole input, given as its lines: runs a driver over them and
/// keeps what it asks to forward and to write.
///
/// With a `limit`, no more than that many data rows are taken, and the
/// conversion ends well once a line comes that would be one more.
pub fn read_vcf(lines: &Vec<String>, limit: Option<i32>, threshold: usize) -> (report: Conversion)
    ensures
        report@ == conversion_of(lines.deep_view(), threshold as nat, cap_of(limit)),
{
    let ghost start = Machine::start(threshold as nat, cap_of(limit));
    let ghost texts = lines.deep_view();
    let mut driver = Driver::new(threshold, limit);
    let mut metadata: Vec<String> = Vec::new();
    let mut batches: Vec<Batch> = Vec::new();
    let ghost mut actions: Seq<ActionView> = Seq::empty();
    let mut i: usize = 0;
    while i < lines.len() && !driver.is_finished()
        invariant
            i <= lines.len(),
            texts == lines.deep_view(),
            driver.wf(),
            (driver@, actions) == run(start, texts.take(i as int)),
            metadata.deep_view() == forwarded_of(actions),
            tables_of(batches@) == batches_of(actions),
        decreases lines.len() - i,
    {
        let (next, action) = driver.step(Event::Line(lines[i].clone()));
        proof {
            assert(texts.take(i + 1).drop_last() == texts.take(i as int));
            assert(actions.push(action@).drop_last() == actions);
            actions = actions.push(action@);
        }
        driver = next;
        absorb(action, &mut metadata, &mut batches);
        i = i + 1;
    }
    proof {
        if i < lines.len() {
            lemma_run_finished(start, texts, i as int);
        } else {
            assert(texts.take(i as int) == texts);
        }
    }
    let ghost all = run(start, texts).1;
    let (end, action) = driver.step(Event::EndOfInput);
    proof {
        assert(all.push(action@).drop_last() == all);
        lemma_end_finishes(run(start, texts).0);
    }
    absorb(action, &mut metadata, &mut batches);
    let outcome = match end.outcome() {
        Some(outcome) => outcome,
        None => vstd::pervasive::unreached(),
    };
    Conversion { metadata, batches, outcome }
}

} // verus!
