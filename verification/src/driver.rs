//! The course of a run over its sources.
//!
//! The driver decides; its caller does the work on files and streams. The
//! caller hands in what happened as an event, and gets back what to do next
//! as an action. Sources are taken in the order in which they were given,
//! one at a time: a source is opened, its records are read and written one
//! by one, and at the end of its stream it is closed before the next one is
//! opened. A record is cut into fields and the selected fields are joined
//! within the one step that takes the record and asks for the line to be
//! written.

use vstd::prelude::*;
use crate::pipeline::Pipeline;
use crate::text::texts;

verus! {

/// Where input comes from.
#[derive(Debug, Clone, PartialEq, Eq)]
pub enum Source {
    /// The standard input of the process.
    StandardInput,
    /// The file at a path.
    File(String),
}

/// A source, with its path as a sequence of characters.
pub enum SourceView {
    StandardInput,
    File(Seq<char>),
}

impl View for Source {
    type V = SourceView;

    open spec fn view(&self) -> SourceView {
        match *self {
            Source::StandardInput => SourceView::StandardInput,
            Source::File(path) => SourceView::File(path@),
        }
    }
}

/// A list of sources, each with its path as a sequence of characters.
pub open spec fn source_views(sources: Seq<Source>) -> Seq<SourceView> {
    Seq::new(sources.len(), |i: int| sources[i]@)
}

/// The sources of a run: the files of the given paths in their order, or
/// the standard input where no path is given.
pub open spec fn sources_of(paths: Seq<Seq<char>>) -> Seq<SourceView> {
    if paths.len() == 0 {
        seq![SourceView::StandardInput]
    } else {
        Seq::new(paths.len(), |i: int| SourceView::File(paths[i]))
    }
}

/// Makes the list of sources of a run from the paths on the command line.
pub fn source_list(paths: &Vec<String>) -> (sources: Vec<Source>)
    ensures
        source_views(sources@) == sources_of(texts(paths@)),
{
    let mut sources: Vec<Source> = Vec::new();
    if paths.len() == 0 {
        sources.push(Source::StandardInput);
        assert(source_views(sources@) =~= seq![SourceView::StandardInput]);
        return sources;
    }
    let mut i: usize = 0;
    while i < paths.len()
        invariant
            i <= paths.len(),
            sources@.len() == i,
            forall|j: int| 0 <= j < i ==> #[trigger] sources@[j] == Source::File(paths@[j]),
        decreases paths.len() - i,
    {
        sources.push(Source::File(paths[i].clone()));
        i += 1;
    }
    assert(source_views(sources@) =~= sources_of(texts(paths@)));
    sources
}

/// What the driver is waiting for.
#[derive(Debug, Clone, Copy, PartialEq, Eq)]
pub enum Stage {
    /// The current source is not open yet.
    Idle,
    /// A record of the current source is being read.
    Reading,
    /// A line of output is being written.
    Writing,
    /// The stream of the current source has ended and the source is being
    /// closed.
    Draining,
    /// The run is over.
    Done,
}

/// What happened outside.
#[derive(Debug, Clone, PartialEq, Eq)]
pub enum Event {
    /// The run begins, or goes on with the next source.
    Begin,
    /// The current source is open.
    Opened,
    /// A record was read; these are its bytes, without the line ending.
    Record(Vec<u8>),
    /// The reader met a malformed record.
    Malformed,
    /// The stream of the current source has ended.
    EndOfStream,
    /// The line was written.
    Written,
    /// The current source is closed.
    Closed,
    /// A source could not be read or the output could not be written.
    Failed,
}

/// Why a run was ended before its time.
#[derive(Debug, Clone, Copy, PartialEq, Eq)]
pub enum Cause {
    /// A source could not be read or the output could not be written.
    Io,
    /// A record was malformed, and the pipeline is strict.
    Malformed,
    /// An event came that the stage was not waiting for.
    Unexpected,
}

/// What is to be done outside.
#[derive(Debug, Clone, PartialEq, Eq)]
pub enum Action {
    /// Open the source with this index.
    Open(usize),
    /// Read the next record of the current source.
    Read,
    /// Write this line to the output.
    Write(Vec<u8>),
    /// Report that this record of this source is malformed, then read the
    /// next record. Records count from 1 within their source.
    Skip { source: usize, record: u64 },
    /// Close the source with this index.
    Close(usize),
    /// End the run: every source has been taken.
    Finish,
    /// End the run with a failure, met at this record of this source.
    Abort { source: usize, record: u64, cause: Cause },
}

/// An action, with the line that it holds as a sequence of bytes.
pub enum ActionView {
    Open(usize),
    Read,
    Write(Seq<u8>),
    Skip { source: usize, record: u64 },
    Close(usize),
    Finish,
    Abort { source: usize, record: u64, cause: Cause },
}

impl View for Action {
    type V = ActionView;

    open spec fn view(&self) -> ActionView {
        match *self {
            Action::Open(i) => ActionView::Open(i),
            Action::Read => ActionView::Read,
            Action::Write(line) => ActionView::Write(line@),
            Action::Skip { source, record } => ActionView::Skip { source, record },
            Action::Close(i) => ActionView::Close(i),
            Action::Finish => ActionView::Finish,
            Action::Abort { source, record, cause } => ActionView::Abort { source, record, cause },
        }
    }
}

/// How far a run has come.
#[derive(Debug, Clone, Copy, PartialEq, Eq)]
pub struct Driver {
    /// What the driver is waiting for.
    pub stage: Stage,
    /// The index of the current source.
    pub source: usize,
    /// How many sources the run has.
    pub sources: usize,
    /// How many records of the current source have been read.
    pub record: u64,
}

/// One more record read. The count stops at the largest number that it
/// can hold.
pub open spec fn counted(record: u64) -> u64 {
    if record < u64::MAX {
        (record + 1) as u64
    } else {
        record
    }
}

impl Driver {
    /// Until the run is over, the current source is one of its sources.
    pub open spec fn wf(self) -> bool {
        self.stage is Done || self.source < self.sources
    }

    /// The driver at the end of the run.
    pub open spec fn ended(self) -> Driver {
        Driver { stage: Stage::Done, ..self }
    }

    /// The driver and the action after a failure.
    pub open spec fn aborted(self, cause: Cause) -> (Driver, ActionView) {
        (self.ended(), ActionView::Abort { source: self.source, record: self.record, cause })
    }

    /// What a record does to a driver that is reading. The record counts.
    /// Where it gives a line, the line is to be written. Where it is
    /// malformed, it is skipped, or the run ends if the pipeline is strict.
    pub open spec fn taken(self, pipeline: Pipeline, line: Option<Seq<u8>>) -> (
        Driver,
        ActionView,
    ) {
        let read = Driver { record: counted(self.record), ..self };
        match line {
            Some(bytes) => (Driver { stage: Stage::Writing, ..read }, ActionView::Write(bytes)),
            None => if pipeline.strict {
                read.aborted(Cause::Malformed)
            } else {
                (read, ActionView::Skip { source: read.source, record: read.record })
            },
        }
    }

    /// The driver after an event, and the action that it asks for.
    pub open spec fn reaction(self, pipeline: Pipeline, event: Event) -> (Driver, ActionView) {
        match (self.stage, event) {
            (Stage::Done, _) => (self, ActionView::Finish),
            (_, Event::Failed) => self.aborted(Cause::Io),
            (Stage::Idle, Event::Begin) => (self, ActionView::Open(self.source)),
            (Stage::Idle, Event::Opened) => (
                Driver { stage: Stage::Reading, ..self },
                ActionView::Read,
            ),
            (Stage::Reading, Event::Record(bytes)) => self.taken(pipeline, pipeline.output(bytes@)),
            (Stage::Reading, Event::Malformed) => self.taken(pipeline, None),
            (Stage::Reading, Event::EndOfStream) => (
                Driver { stage: Stage::Draining, ..self },
                ActionView::Close(self.source),
            ),
            (Stage::Writing, Event::Written) => (
                Driver { stage: Stage::Reading, ..self },
                ActionView::Read,
            ),
            (Stage::Draining, Event::Closed) => if self.source + 1 < self.sources {
                (
                    Driver {
                        stage: Stage::Idle,
                        source: (self.source + 1) as usize,
                        record: 0,
                        ..self
                    },
                    ActionView::Open((self.source + 1) as usize),
                )
            } else {
                (self.ended(), ActionView::Finish)
            },
            _ => self.aborted(Cause::Unexpected),
        }
    }

    /// The driver of a run over `sources` sources, before its first source
    /// is opened. A run without sources is over at once.
    pub fn new(sources: usize) -> (d: Driver)
        ensures
            d == (Driver {
                stage: if sources > 0 {
                    Stage::Idle
                } else {
                    Stage::Done
                },
                source: 0,
                sources,
                record: 0,
            }),
            d.wf(),
    {
        let stage = if sources > 0 {
            Stage::Idle
        } else {
            Stage::Done
        };
        Driver { stage, source: 0, sources, record: 0 }
    }

    fn abort(&mut self, cause: Cause) -> (action: Action)
        ensures
            (*final(self), action@) == old(self).aborted(cause),
    {
        self.stage = Stage::Done;
        Action::Abort { source: self.source, record: self.record, cause }
    }

    fn take(&mut self, pipeline: &Pipeline, line: Option<Vec<u8>>) -> (action: Action)
        ensures
            (*final(self), action@) == old(self).taken(
                *pipeline,
                match line {
                    Some(bytes) => Some(bytes@),
                    None => None,
                },
            ),
    {
        if self.record < u64::MAX {
            self.record = self.record + 1;
        }
        match line {
            Some(bytes) => {
                self.stage = Stage::Writing;
                Action::Write(bytes)
            },
            None => {
                if pipeline.strict {
                    self.abort(Cause::Malformed)
                } else {
                    Action::Skip { source: self.source, record: self.record }
                }
            },
        }
    }

    /// Takes an event and says what to do next.
    pub fn step(&mut self, pipeline: &Pipeline, event: Event) -> (action: Action)
        ensures
            (*final(self), action@) == old(self).reaction(*pipeline, event),
            old(self).wf() ==> final(self).wf(),
    {
        match self.stage {
            Stage::Done => Action::Finish,
            Stage::Idle => match event {
                Event::Failed => self.abort(Cause::Io),
                Event::Begin => Action::Open(self.source),
                Event::Opened => {
                    self.stage = Stage::Reading;
                    Action::Read
                },
                _ => self.abort(Cause::Unexpected),
            },
            Stage::Reading => match event {
                Event::Failed => self.abort(Cause::Io),
                Event::Record(bytes) => {
                    let line = match pipeline.process(bytes.as_slice()) {
                        Ok(line) => Some(line),
                        Err(_) => None,
                    };
                    self.take(pipeline, line)
                },
                Event::Malformed => self.take(pipeline, None),
                Event::EndOfStream => {
                    self.stage = Stage::Draining;
                    Action::Close(self.source)
                },
                _ => self.abort(Cause::Unexpected),
            },
            Stage::Writing => match event {
                Event::Failed => self.abort(Cause::Io),
                Event::Written => {
                    self.stage = Stage::Reading;
                    Action::Read
                },
                _ => self.abort(Cause::Unexpected),
            },
            Stage::Draining => match event {
                Event::Failed => self.abort(Cause::Io),
                Event::Closed => {
                    if self.source < self.sources && self.sources - self.source > 1 {
                        self.stage = Stage::Idle;
                        self.source = self.source + 1;
                        self.record = 0;
                        Action::Open(self.source)
                    } else {
                        self.stage = Stage::Done;
                        Action::Finish
                    }
                },
                _ => self.abort(Cause::Unexpected),
            },
        }
    }
}

/// The end is final: once a run is over, no event changes the driver, and
/// nothing more is asked for.
pub proof fn lemma_done_is_final(d: Driver, pipeline: Pipeline, event: Event)
    requires
        d.stage is Done,
    ensures
        d.reaction(pipeline, event) == (d, ActionView::Finish),
{
}

/// A failure of input or output is fatal: at every stage before the end it
/// ends the run, and the action names the source and the record at which
/// it was met.
pub proof fn lemma_failure_is_fatal(d: Driver, pipeline: Pipeline)
    requires
        !(d.stage is Done),
    ensures
        d.reaction(pipeline, Event::Failed) == (
            Driver { stage: Stage::Done, ..d },
            ActionView::Abort { source: d.source, record: d.record, cause: Cause::Io },
        ),
{
}

/// A malformed record is not fatal where the pipeline is not strict: it is
/// counted and reported with its source and its number, and the driver
/// goes on reading.
pub proof fn lemma_malformed_is_skipped(d: Driver, pipeline: Pipeline, event: Event)
    requires
        d.stage is Reading,
        !pipeline.strict,
        event is Malformed || (event matches Event::Record(bytes) && pipeline.output(bytes@) is None),
    ensures
        d.reaction(pipeline, event) == (
            Driver { record: counted(d.record), ..d },
            ActionView::Skip { source: d.source, record: counted(d.record) },
        ),
{
}

/// Sources are taken in order, one at a time: a step keeps the current
/// source, or goes on to the very next one, and that only when the current
/// one has been closed at the end of its stream. The count of records
/// starts again with the new source.
pub proof fn lemma_sources_in_order(d: Driver, pipeline: Pipeline, event: Event)
    requires
        d.wf(),
    ensures
        ({
            let next = d.reaction(pipeline, event).0;
            &&& next.wf()
            &&& next.sources == d.sources
            &&& next.source == d.source || (next.source == d.source + 1 && d.stage is Draining
                && event is Closed && next.stage is Idle && next.record == 0)
        }),
{
}

/// Records are counted one by one: a step leaves the count as it is, adds
/// one for a record that was read, well-formed or not, or starts again at
/// the next source.
pub proof fn lemma_records_counted(d: Driver, pipeline: Pipeline, event: Event)
    ensures
        ({
            let next = d.reaction(pipeline, event).0;
            let read = d.stage is Reading && (event is Record || event is Malformed);
            if read {
                next.record == counted(d.record)
            } else {
                next.record == d.record || (next.record == 0 && next.source == d.source + 1)
            }
        }),
{
}

} // verus!
