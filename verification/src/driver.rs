//! The driver: it takes the sources of a file list one after the other,
//! says what has to be opened or read next, and turns what came back into
//! what has to be written. A source that fails is reported and left; the
//! sources after it are processed as if nothing had happened.

use crate::catr::{format_with, takes_index, LineFormatter, Mode};
use crate::headr::{first_bytes, header, header_line, Limit, PrefixLimiter};
use crate::source::{diagnostic, diagnostic_line};
use vstd::prelude::*;

verus! {

/// What is done with each source.
#[derive(Clone, Copy, Debug, PartialEq, Eq)]
pub enum Policy {
    /// Every line is written, numbered as the mode says.
    Concatenate(Mode),
    /// A prefix is written, as long as the limit says.
    Head(Limit),
}

/// What the driver needs next from the program around it.
#[derive(Clone, Copy, Debug, PartialEq, Eq)]
pub enum Request {
    /// Release the source that is held, if any, and open the current one.
    Open,
    /// Read the next line of the open source.
    ReadLine,
    /// Read at most that many bytes of the open source.
    ReadBytes(usize),
    /// Release the source that is held, if any: nothing is left to do.
    Finished,
}

/// What the program around the driver found when it did what was asked.
#[derive(Debug)]
pub enum Event {
    /// The current source is open.
    Opened,
    /// The current source could not be opened, for that cause.
    OpenFailed(String),
    /// The next line of the open source, without its boundary.
    Line(String),
    /// The next bytes of the open source.
    Chunk(Vec<u8>),
    /// The open source holds nothing more.
    EndOfInput,
    /// Reading the open source failed, for that cause.
    ReadFailed(String),
}

/// One thing to write.
#[derive(Debug, PartialEq, Eq)]
pub enum Emission {
    /// A line for the standard output; its boundary is added when it is written.
    Line(String),
    /// Bytes for the standard output, written as they are.
    Bytes(Vec<u8>),
    /// A line for the error channel.
    Diagnostic(String),
}

/// An emission as a value of mathematics.
pub enum EmissionView {
    Line(Seq<char>),
    Bytes(Seq<u8>),
    Diagnostic(Seq<char>),
}

impl DeepView for Emission {
    type V = EmissionView;

    open spec fn deep_view(&self) -> EmissionView {
        match self {
            Emission::Line(text) => EmissionView::Line(text@),
            Emission::Bytes(bytes) => EmissionView::Bytes(bytes@),
            Emission::Diagnostic(text) => EmissionView::Diagnostic(text@),
        }
    }
}

/// Where the driver stands with the current source.
#[derive(Clone, Copy, Debug)]
pub enum Stage {
    /// It is not open yet.
    Opening,
    /// It is open and its lines are being formatted.
    Formatting(LineFormatter),
    /// It is open and its prefix is being written.
    Limiting(PrefixLimiter),
}

/// The driver as a value of mathematics.
pub struct DriverState {
    /// The names of the sources, in the order in which they are processed.
    pub files: Seq<Seq<char>>,
    pub policy: Policy,
    /// The position of the current source in `files`; their number when all are done.
    pub current: int,
    pub stage: Stage,
}

impl DriverState {
    /// The state before anything was done.
    pub open spec fn initial(files: Seq<Seq<char>>, policy: Policy) -> DriverState {
        DriverState { files, policy, current: 0, stage: Stage::Opening }
    }

    /// Whether every source has been processed.
    pub open spec fn finished(self) -> bool {
        self.current == self.files.len()
    }

    /// The name of the current source.
    pub open spec fn name(self) -> Seq<char>
        recommends
            0 <= self.current < self.files.len(),
    {
        self.files[self.current]
    }

    /// Whether sources get a header: in head mode, where there is more than one.
    pub open spec fn has_headers(self) -> bool {
        self.policy is Head && self.files.len() > 1
    }

    /// The stage fits the policy, a source that is open is one of the list,
    /// and a limiter that is kept has something left to give.
    pub open spec fn wf(self) -> bool {
        &&& 0 <= self.current <= self.files.len()
        &&& match self.stage {
            Stage::Opening => true,
            Stage::Formatting(formatter) => self.current < self.files.len() && self.policy
                == Policy::Concatenate(formatter.mode),
            Stage::Limiting(limiter) => self.current < self.files.len() && self.policy is Head
                && limiter.bound == self.policy->Head_0.bound() && limiter.taken < limiter.bound,
        }
    }

    /// What has to be done next.
    pub open spec fn request(self) -> Request {
        if self.finished() {
            Request::Finished
        } else {
            match self.stage {
                Stage::Opening => Request::Open,
                Stage::Formatting(_) => Request::ReadLine,
                Stage::Limiting(limiter) => match self.policy {
                    Policy::Head(Limit::Bytes(_)) => Request::ReadBytes(
                        (limiter.bound - limiter.taken) as usize,
                    ),
                    _ => Request::ReadLine,
                },
            }
        }
    }

    /// Whether `event` can be what came of the request: the outcome of an
    /// opening where one was asked for, a line, the end or a failure where a
    /// line was asked for, bytes (at least one), the end or a failure where
    /// bytes were asked for. A line that takes an index is accepted as long as
    /// the counter of the current source can still go up.
    pub open spec fn accepts(self, event: Event) -> bool {
        match self.request() {
            Request::Finished => false,
            Request::Open => event is Opened || event is OpenFailed,
            Request::ReadLine => match event {
                Event::Line(line) => match self.stage {
                    Stage::Formatting(formatter) => formatter.has_room_for(line@),
                    _ => true,
                },
                Event::EndOfInput => true,
                Event::ReadFailed(_) => true,
                _ => false,
            },
            Request::ReadBytes(_) => match event {
                Event::Chunk(bytes) => bytes@.len() > 0,
                Event::EndOfInput => true,
                Event::ReadFailed(_) => true,
                _ => false,
            },
        }
    }

    /// The state in which the next source is the current one.
    pub open spec fn at_next_source(self) -> DriverState {
        DriverState { current: self.current + 1, stage: Stage::Opening, ..self }
    }

    /// The state with another stage.
    pub open spec fn at_stage(self, stage: Stage) -> DriverState {
        DriverState { stage, ..self }
    }

    /// The state once `granted` more units of the current source are written:
    /// the next source where the prefix is complete.
    pub open spec fn after_granting(self, limiter: PrefixLimiter, granted: nat) -> DriverState {
        if limiter.taken + granted >= limiter.bound {
            self.at_next_source()
        } else {
            self.at_stage(
                Stage::Limiting(
                    PrefixLimiter {
                        bound: limiter.bound,
                        taken: (limiter.taken + granted) as usize,
                    },
                ),
            )
        }
    }

    /// The state after `event`. Every way in which a source ends leads to the
    /// next source, with nothing kept of the one that ended.
    pub open spec fn after(self, event: Event) -> DriverState {
        match (self.stage, event) {
            (Stage::Opening, Event::Opened) => match self.policy {
                Policy::Concatenate(mode) => self.at_stage(
                    Stage::Formatting(LineFormatter { mode, count: 0 }),
                ),
                Policy::Head(limit) => self.after_granting(
                    PrefixLimiter { bound: limit.bound(), taken: 0 },
                    0,
                ),
            },
            (Stage::Opening, Event::OpenFailed(_)) => self.at_next_source(),
            (Stage::Formatting(formatter), Event::Line(line)) => self.at_stage(
                Stage::Formatting(
                    LineFormatter {
                        mode: formatter.mode,
                        count: if takes_index(formatter.mode, line@) {
                            (formatter.count + 1) as usize
                        } else {
                            formatter.count
                        },
                    },
                ),
            ),
            (Stage::Limiting(limiter), Event::Line(_)) => self.after_granting(limiter, 1),
            (Stage::Limiting(limiter), Event::Chunk(bytes)) => self.after_granting(
                limiter,
                limiter.grants(bytes@.len()),
            ),
            (_, _) => self.at_next_source(),
        }
    }

    /// What is written on `event`: the header on an opening where sources
    /// have headers; a line, formatted or as it is; the bytes of a chunk
    /// that the limit still allows; one diagnostic for a failure; nothing at
    /// the end of a source.
    pub open spec fn emissions(self, event: Event) -> Seq<EmissionView> {
        match event {
            Event::Opened => if self.has_headers() {
                seq![EmissionView::Line(header(self.name()))]
            } else {
                seq![]
            },
            Event::OpenFailed(cause) => seq![
                EmissionView::Diagnostic(diagnostic(self.name(), cause@)),
            ],
            Event::Line(line) => match self.stage {
                Stage::Formatting(formatter) => seq![
                    EmissionView::Line(format_with(formatter.mode, formatter.count as nat, line@)),
                ],
                _ => seq![EmissionView::Line(line@)],
            },
            Event::Chunk(bytes) => match self.stage {
                Stage::Limiting(limiter) => seq![
                    EmissionView::Bytes(
                        bytes@.take(limiter.grants(bytes@.len()) as int),
                    ),
                ],
                _ => seq![],
            },
            Event::EndOfInput => seq![],
            Event::ReadFailed(cause) => seq![
                EmissionView::Diagnostic(diagnostic(self.name(), cause@)),
            ],
        }
    }
}

/// A step from a well-formed state on an accepted event leads to a
/// well-formed state with the same file list and policy, and never goes back
/// to an earlier source.
pub proof fn lemma_step_preserves_wf(state: DriverState, event: Event)
    requires
        state.wf(),
        state.accepts(event),
    ensures
        state.after(event).wf(),
        state.after(event).files == state.files,
        state.after(event).policy == state.policy,
        state.after(event).current == state.current || state.after(event).current
            == state.current + 1,
{
}

/// The bytes of `chunks`, one chunk after the other.
pub open spec fn joined(chunks: Seq<Vec<u8>>) -> Seq<u8>
    decreases chunks.len(),
{
    if chunks.len() == 0 {
        Seq::empty()
    } else {
        chunks[0]@ + joined(chunks.drop_first())
    }
}

/// The bytes that are written of the current source when its reading gives
/// `chunks`, one after the other, for as long as the driver goes on reading it.
pub open spec fn written_of_chunks(state: DriverState, chunks: Seq<Vec<u8>>) -> Seq<u8>
    decreases chunks.len(),
{
    if chunks.len() == 0 || !(state.request() is ReadBytes) {
        Seq::empty()
    } else {
        let event = Event::Chunk(chunks[0]);
        state.emissions(event)[0]->Bytes_0 + written_of_chunks(
            state.after(event),
            chunks.drop_first(),
        )
    }
}

/// However the reading of a source cuts its bytes into chunks, what is
/// written of them is the first bytes of the source, as many as the limit
/// still allows or all where there are fewer.
pub proof fn lemma_chunks_give_first_bytes(state: DriverState, chunks: Seq<Vec<u8>>)
    requires
        state.wf(),
        state.request() is ReadBytes,
        forall|i: int| 0 <= i < chunks.len() ==> (#[trigger] chunks[i])@.len() > 0,
    ensures
        written_of_chunks(state, chunks) == first_bytes(
            joined(chunks),
            state.request()->ReadBytes_0 as nat,
        ),
    decreases chunks.len(),
{
    if chunks.len() > 0 {
        let event = Event::Chunk(chunks[0]);
        let left = state.request()->ReadBytes_0 as nat;
        let first = chunks[0]@;
        let rest = chunks.drop_first();
        lemma_step_preserves_wf(state, event);
        assert forall|i: int| 0 <= i < rest.len() implies (#[trigger] rest[i])@.len() > 0 by {
            assert(rest[i] == chunks[i + 1]);
        }
        if first.len() < left {
            lemma_chunks_give_first_bytes(state.after(event), rest);
        } else {
            assert(written_of_chunks(state.after(event), rest) =~= Seq::<u8>::empty());
        }
    }
}

/// The driver of one run over a file list. The program around it asks for
/// the `request`, does what it says, and hands what it found to `step`, which
/// gives back what has to be written; and so on until the request is
/// `Finished`.
#[derive(Debug)]
pub struct Driver {
    files: Vec<String>,
    policy: Policy,
    current: usize,
    stage: Stage,
}

impl View for Driver {
    type V = DriverState;

    closed spec fn view(&self) -> DriverState {
        DriverState {
            files: self.files.deep_view(),
            policy: self.policy,
            current: self.current as int,
            stage: self.stage,
        }
    }
}

impl Driver {
    #[verifier::type_invariant]
    spec fn well_formed(&self) -> bool {
        self@.wf()
    }

    /// A driver that has `files` before it, in that order, with nothing done yet.
    pub fn new(files: Vec<String>, policy: Policy) -> (driver: Driver)
        ensures
            driver@ == DriverState::initial(files.deep_view(), policy),
            driver@.wf(),
    {
        Driver { files, policy, current: 0, stage: Stage::Opening }
    }

    /// What the program has to do next.
    pub fn request(&self) -> (request: Request)
        ensures
            request == self@.request(),
            self@.wf(),
    {
        proof {
            use_type_invariant(self);
        }
        if self.current == self.files.len() {
            Request::Finished
        } else {
            match self.stage {
                Stage::Opening => Request::Open,
                Stage::Formatting(_) => Request::ReadLine,
                Stage::Limiting(limiter) => match self.policy {
                    Policy::Head(Limit::Bytes(_)) => Request::ReadBytes(limiter.remaining()),
                    _ => Request::ReadLine,
                },
            }
        }
    }

    /// The position of the current source in the file list; the length of
    /// the list when every source is done.
    pub fn position(&self) -> (position: usize)
        ensures
            position == self@.current,
            self@.wf(),
    {
        proof {
            use_type_invariant(self);
        }
        self.current
    }

    /// The name of the current source; `None` when every source is done.
    pub fn current_name(&self) -> (name: Option<&str>)
        ensures
            match name {
                Some(text) => !self@.finished() && text@ == self@.name(),
                None => self@.finished(),
            },
    {
        proof {
            use_type_invariant(self);
        }
        if self.current < self.files.len() {
            Some(self.files[self.current].as_str())
        } else {
            None
        }
    }

    /// Whether `event` can be handed to `step` now.
    pub fn accepts(&self, event: &Event) -> (accepted: bool)
        ensures
            accepted == self@.accepts(*event),
    {
        match self.request() {
            Request::Finished => false,
            Request::Open => match event {
                Event::Opened => true,
                Event::OpenFailed(_) => true,
                _ => false,
            },
            Request::ReadLine => match event {
                Event::Line(line) => match self.stage {
                    Stage::Formatting(formatter) => formatter.can_format(line.as_str()),
                    _ => true,
                },
                Event::EndOfInput => true,
                Event::ReadFailed(_) => true,
                _ => false,
            },
            Request::ReadBytes(_) => match event {
                Event::Chunk(bytes) => bytes.len() > 0,
                Event::EndOfInput => true,
                Event::ReadFailed(_) => true,
                _ => false,
            },
        }
    }

    /// Takes what the program found and gives back what has to be written
    /// for it, in the order in which it has to be written.
    pub fn step(&mut self, event: Event) -> (written: Vec<Emission>)
        requires
            old(self)@.accepts(event),
        ensures
            old(self)@.wf(),
            final(self)@.wf(),
            final(self)@ == old(self)@.after(event),
            written.deep_view() == old(self)@.emissions(event),
    {
        proof {
            use_type_invariant(&*self);
        }
        assert(self.current < self.files.len());
        let mut written: Vec<Emission> = Vec::new();
        match event {
            Event::Opened => {
                match self.policy {
                    Policy::Concatenate(mode) => {
                        self.stage = Stage::Formatting(LineFormatter::new(mode));
                    },
                    Policy::Head(limit) => {
                        if self.files.len() > 1 {
                            written.push(
                                Emission::Line(header_line(self.files[self.current].as_str())),
                            );
                        }
                        let limiter = PrefixLimiter::new(limit.value());
                        self.settle(limiter);
                    },
                }
            },
            Event::OpenFailed(cause) => {
                written.push(
                    Emission::Diagnostic(
                        diagnostic_line(self.files[self.current].as_str(), cause.as_str()),
                    ),
                );
                self.current = self.current + 1;
            },
            Event::Line(line) => {
                match self.stage {
                    Stage::Formatting(formatter) => {
                        let mut formatter = formatter;
                        written.push(Emission::Line(formatter.format(line.as_str())));
                        self.stage = Stage::Formatting(formatter);
                    },
                    Stage::Limiting(limiter) => {
                        let mut limiter = limiter;
                        limiter.grant(1);
                        written.push(Emission::Line(line));
                        self.settle(limiter);
                    },
                    Stage::Opening => {},
                }
            },
            Event::Chunk(bytes) => {
                match self.stage {
                    Stage::Limiting(limiter) => {
                        let mut limiter = limiter;
                        let granted = limiter.grant(bytes.len());
                        let mut bytes = bytes;
                        bytes.truncate(granted);
                        written.push(Emission::Bytes(bytes));
                        self.settle(limiter);
                    },
                    _ => {},
                }
            },
            Event::EndOfInput => {
                self.stage = Stage::Opening;
                self.current = self.current + 1;
            },
            Event::ReadFailed(cause) => {
                written.push(
                    Emission::Diagnostic(
                        diagnostic_line(self.files[self.current].as_str(), cause.as_str()),
                    ),
                );
                self.stage = Stage::Opening;
                self.current = self.current + 1;
            },
        }
        written
    }

    /// Keeps `limiter` for the current source, or goes on to the next source
    /// where the limiter has nothing left to give.
    fn settle(&mut self, limiter: PrefixLimiter)
        requires
            old(self)@.wf(),
            !old(self)@.finished(),
            limiter.wf(),
            old(self)@.policy is Head,
            limiter.bound == old(self)@.policy->Head_0.bound(),
        ensures
            final(self)@ == (if limiter.taken >= limiter.bound {
                old(self)@.at_next_source()
            } else {
                old(self)@.at_stage(Stage::Limiting(limiter))
            }),
    {
        assert(self.current < self.files.len());
        if limiter.is_done() {
            self.stage = Stage::Opening;
            self.current = self.current + 1;
        } else {
            self.stage = Stage::Limiting(limiter);
        }
    }
}

} // verus!
