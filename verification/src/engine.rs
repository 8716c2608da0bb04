//! The single-path copy engine, as a state machine.
//!
//! The engine decides; a driver performs. The driver hands the engine an
//! [`Event`], the engine answers with the next [`Action`], and so on until the
//! answer is [`Action::Finish`] or [`Action::Abort`]. The engine never touches
//! a file: it holds the rules of the copy (what is opened, where each side
//! starts, when to stop, how much of the buffer to write, that a flush comes
//! before success) and the counters.

use crate::config::{aligned, is_aligned, misaligned, misaligned_text, CopyConfig};
use crate::error::{Fault, RddError};
use vstd::prelude::*;

verus! {

/// The stages of a copy, in the order in which a copy goes through them.
#[derive(Clone, Copy, Debug, PartialEq, Eq, Structural)]
pub enum Phase {
    Opening,
    Seeking,
    Copying,
    Flushing,
    Done,
    Failed,
}

/// What the engine is waiting for.
#[derive(Clone, Copy, Debug)]
pub enum Step {
    /// Nothing yet: the copy has not started.
    Ready,
    /// The input to be opened.
    InputOpen,
    /// The output to be opened.
    OutputOpen,
    /// The input cursor to be moved.
    InputSeek,
    /// The output cursor to be moved.
    OutputSeek,
    /// A block to be read.
    Read,
    /// That many bytes of the buffer to be written.
    Write(usize),
    /// The output to reach stable storage.
    Flush,
    /// Nothing more: the copy succeeded.
    Done,
    /// Nothing more: the copy failed.
    Failed,
}

/// What a driver reports to the engine.
#[derive(Debug)]
pub enum Event {
    /// The driver is ready to start.
    Start,
    /// The open that was asked for succeeded, on a device that takes direct
    /// I/O in units of this many bytes only; one for a device that takes
    /// any.
    Opened(usize),
    /// The seek, write or flush that was asked for succeeded.
    Completed,
    /// The read that was asked for put this many bytes at the start of the
    /// buffer; none means that the input has ended.
    Read(usize),
    /// What was asked for failed.
    Failed(std::io::Error),
}

/// What the engine asks its driver to do.
#[derive(Debug)]
pub enum Action {
    /// Open the input for reading.
    OpenInput,
    /// Open the output for writing. With `truncate` the output is created if
    /// absent and emptied if present; without, it is there already and is
    /// left as it is.
    OpenOutput { truncate: bool },
    /// Move the input cursor to this byte, counted from the start.
    SeekInput(u64),
    /// Move the output cursor to this byte, counted from the start. The
    /// output may be shorter than that.
    SeekOutput(u64),
    /// Read up to this many bytes into the start of the buffer.
    Read(usize),
    /// Write exactly this many bytes from the start of the buffer.
    Write(usize),
    /// Force what was written to stable storage.
    Flush,
    /// Report success.
    Finish,
    /// Report this failure.
    Abort(RddError),
}

/// An [`Action`], with the error it may hold taken by its view.
pub enum Request {
    OpenInput,
    OpenOutput { truncate: bool },
    SeekInput(u64),
    SeekOutput(u64),
    Read(usize),
    Write(usize),
    Flush,
    Finish,
    Abort(Fault),
}

impl View for Action {
    type V = Request;

    open spec fn view(&self) -> Request {
        match *self {
            Action::OpenInput => Request::OpenInput,
            Action::OpenOutput { truncate } => Request::OpenOutput { truncate },
            Action::SeekInput(offset) => Request::SeekInput(offset),
            Action::SeekOutput(offset) => Request::SeekOutput(offset),
            Action::Read(len) => Request::Read(len),
            Action::Write(len) => Request::Write(len),
            Action::Flush => Request::Flush,
            Action::Finish => Request::Finish,
            Action::Abort(e) => Request::Abort(e@),
        }
    }
}

/// The state of one copy: what it was asked to do, where it stands, and how
/// much it has moved.
#[derive(Clone, Copy, Debug)]
pub struct CopyEngine {
    /// Size of the buffer, and so of every block but a short last one.
    pub block_size: usize,
    /// The most blocks to copy; without one, the copy goes on until the
    /// input ends.
    pub limit: Option<u64>,
    /// The byte of the input at which reading starts.
    pub input_start: u64,
    /// The byte of the output at which writing starts.
    pub output_start: u64,
    /// Whether opening the output creates and empties it.
    pub truncate: bool,
    /// Whether the copy bypasses the operating system's cache, which takes
    /// blocks that suit the device.
    pub direct: bool,
    /// What the engine is waiting for.
    pub step: Step,
    /// Blocks written so far; stays at the largest 64-bit number once there.
    pub blocks_copied: u64,
    /// Bytes written so far; stays at the largest 64-bit number once there.
    pub bytes_copied: u64,
}

/// The text of the failure that answers an event that was not asked for.
pub open spec fn unexpected_event_text() -> Seq<char> {
    "The copy engine received an event that it was not waiting for."@
}

/// `a + b`, or the largest 64-bit number where the sum is beyond it.
pub open spec fn capped_sum(a: u64, b: nat) -> u64 {
    if a + b > u64::MAX {
        u64::MAX
    } else {
        (a + b) as u64
    }
}

/// The engine that runs the whole of `config` on one path, before its
/// first step.
pub open spec fn single_path(config: CopyConfig) -> CopyEngine {
    CopyEngine {
        block_size: config.block_size,
        limit: if config.count == 0 {
            None
        } else {
            Some(config.count)
        },
        input_start: (config.skip * config.block_size) as u64,
        output_start: (config.seek * config.block_size) as u64,
        truncate: true,
        direct: config.use_direct_io,
        step: Step::Ready,
        blocks_copied: 0,
        bytes_copied: 0,
    }
}

impl CopyEngine {
    /// What holds of an engine at all times.
    pub open spec fn wf(&self) -> bool {
        &&& self.block_size > 0
        &&& self.step matches Step::Write(len) ==> 0 < len <= self.block_size
        &&& self.limit matches Some(most) ==> self.blocks_copied <= most
        &&& self.limit matches Some(most) ==> (self.step is Read || self.step is Write
            ==> self.blocks_copied < most)
        &&& self.blocks_copied <= self.bytes_copied
        &&& self.bytes_copied <= self.blocks_copied * self.block_size
    }

    /// The stage that the engine is in.
    pub open spec fn spec_phase(&self) -> Phase {
        match self.step {
            Step::Ready | Step::InputOpen | Step::OutputOpen => Phase::Opening,
            Step::InputSeek | Step::OutputSeek => Phase::Seeking,
            Step::Read | Step::Write(_) => Phase::Copying,
            Step::Flush => Phase::Flushing,
            Step::Done => Phase::Done,
            Step::Failed => Phase::Failed,
        }
    }

    /// The engine with another step, and the request that goes with it.
    pub open spec fn at(self, step: Step, request: Request) -> (CopyEngine, Request) {
        (CopyEngine { step, ..self }, request)
    }

    /// The engine failed, with the reason.
    pub open spec fn failed(self, fault: Fault) -> (CopyEngine, Request) {
        self.at(Step::Failed, Request::Abort(fault))
    }

    /// Whether the blocks of this copy suit a device that was opened with
    /// this alignment. Without direct I/O every device suits.
    pub open spec fn suits(self, alignment: usize) -> bool {
        !self.direct || aligned(self.block_size, alignment)
    }

    /// The engine failed because its blocks do not suit a device.
    pub open spec fn unsuited(self, alignment: usize) -> (CopyEngine, Request) {
        self.failed(Fault::Config(misaligned_text(self.block_size, alignment)))
    }

    /// What comes between two blocks: the flush once the limit is reached,
    /// else one more read of a whole block.
    pub open spec fn next_block(self) -> (CopyEngine, Request) {
        if self.limit matches Some(most) && self.blocks_copied >= most {
            self.at(Step::Flush, Request::Flush)
        } else {
            self.at(Step::Read, Request::Read(self.block_size))
        }
    }

    /// What comes once the input cursor is in place: the output cursor is
    /// moved if the output does not start at its first byte.
    pub open spec fn place_output(self) -> (CopyEngine, Request) {
        if self.output_start > 0 {
            self.at(Step::OutputSeek, Request::SeekOutput(self.output_start))
        } else {
            self.next_block()
        }
    }

    /// What comes once both sides are open: the input cursor is moved if
    /// the input does not start at its first byte.
    pub open spec fn place_input(self) -> (CopyEngine, Request) {
        if self.input_start > 0 {
            self.at(Step::InputSeek, Request::SeekInput(self.input_start))
        } else {
            self.place_output()
        }
    }

    /// The engine with one more block of `len` bytes counted.
    pub open spec fn counted(self, len: usize) -> CopyEngine {
        CopyEngine {
            blocks_copied: capped_sum(self.blocks_copied, 1),
            bytes_copied: capped_sum(self.bytes_copied, len as nat),
            ..self
        }
    }

    /// The transition function: the state after `event`, and the request
    /// that answers it.
    ///
    /// A failure reported in any step before the end fails the copy with
    /// the I/O error as its cause. A device that direct I/O cannot use with
    /// blocks of this size fails the copy as soon as it is open, with a
    /// configuration error. An event that the current step does not
    /// wait for fails the copy as well. The two final steps are final:
    /// whatever comes, a finished copy stays finished and a failed one
    /// stays failed.
    pub open spec fn after(self, event: Event) -> (CopyEngine, Request) {
        match (self.step, event) {
            (Step::Done, _) => (self, Request::Finish),
            (Step::Failed, _) => self.failed(Fault::Channel(unexpected_event_text())),
            (_, Event::Failed(cause)) => self.failed(Fault::Io(cause)),
            (Step::Ready, Event::Start) => self.at(Step::InputOpen, Request::OpenInput),
            (Step::InputOpen, Event::Opened(alignment)) => if self.suits(alignment) {
                self.at(Step::OutputOpen, Request::OpenOutput { truncate: self.truncate })
            } else {
                self.unsuited(alignment)
            },
            (Step::OutputOpen, Event::Opened(alignment)) => if self.suits(alignment) {
                self.place_input()
            } else {
                self.unsuited(alignment)
            },
            (Step::InputSeek, Event::Completed) => self.place_output(),
            (Step::OutputSeek, Event::Completed) => self.next_block(),
            (Step::Read, Event::Read(len)) => if len == 0 {
                self.at(Step::Flush, Request::Flush)
            } else if len <= self.block_size {
                self.at(Step::Write(len), Request::Write(len))
            } else {
                self.failed(Fault::Channel(unexpected_event_text()))
            },
            (Step::Write(len), Event::Completed) => self.counted(len).next_block(),
            (Step::Flush, Event::Completed) => self.at(Step::Done, Request::Finish),
            _ => self.failed(Fault::Channel(unexpected_event_text())),
        }
    }

    /// An engine for a range of blocks: at most `limit` blocks of
    /// `block_size` bytes, read from byte `input_start` of the input and
    /// written from byte `output_start` of the output.
    pub fn for_range(
        block_size: usize,
        limit: Option<u64>,
        input_start: u64,
        output_start: u64,
        truncate: bool,
        direct: bool,
    ) -> (engine: CopyEngine)
        requires
            block_size > 0,
        ensures
            engine == (CopyEngine {
                block_size,
                limit,
                input_start,
                output_start,
                truncate,
                direct,
                step: Step::Ready,
                blocks_copied: 0,
                bytes_copied: 0,
            }),
            engine.wf(),
    {
        CopyEngine {
            block_size,
            limit,
            input_start,
            output_start,
            truncate,
            direct,
            step: Step::Ready,
            blocks_copied: 0,
            bytes_copied: 0,
        }
    }

    /// The engine that runs the whole of `config` on one path: it creates
    /// or empties the output, starts `skip` blocks into the input and `seek`
    /// blocks into the output, and copies `count` blocks, or all there is if
    /// `count` is zero.
    pub fn new(config: &CopyConfig) -> (engine: CopyEngine)
        requires
            config.wf(),
        ensures
            engine == single_path(*config),
            engine.wf(),
    {
        let limit = if config.count == 0 {
            None
        } else {
            Some(config.count)
        };
        CopyEngine::for_range(
            config.block_size,
            limit,
            config.skip_bytes(),
            config.seek_bytes(),
            true,
            config.use_direct_io,
        )
    }

    /// The stage that the engine is in.
    #[verifier::when_used_as_spec(spec_phase)]
    pub fn phase(&self) -> (phase: Phase)
        ensures
            phase == self.spec_phase(),
    {
        match self.step {
            Step::Ready | Step::InputOpen | Step::OutputOpen => Phase::Opening,
            Step::InputSeek | Step::OutputSeek => Phase::Seeking,
            Step::Read | Step::Write(_) => Phase::Copying,
            Step::Flush => Phase::Flushing,
            Step::Done => Phase::Done,
            Step::Failed => Phase::Failed,
        }
    }

    /// Moves to `step` and asks for `action`.
    fn go(&mut self, step: Step, action: Action) -> (asked: Action)
        ensures
            (*final(self), asked@) == old(self).at(step, action@),
    {
        self.step = step;
        action
    }

    /// Fails the copy because of an event that was not asked for.
    fn reject(&mut self) -> (asked: Action)
        ensures
            (*final(self), asked@) == old(self).failed(Fault::Channel(unexpected_event_text())),
    {
        self.step = Step::Failed;
        Action::Abort(
            RddError::Channel(
                String::from_str("The copy engine received an event that it was not waiting for."),
            ),
        )
    }

    /// Fails the copy because its blocks do not suit a device.
    fn turn_down(&mut self, alignment: usize) -> (asked: Action)
        ensures
            (*final(self), asked@) == old(self).unsuited(alignment),
    {
        self.step = Step::Failed;
        Action::Abort(misaligned(self.block_size, alignment))
    }

    /// Whether the blocks of this copy suit a device with this alignment.
    fn takes(&self, alignment: usize) -> (suits: bool)
        ensures
            suits == self.suits(alignment),
    {
        !self.direct || is_aligned(self.block_size, alignment)
    }

    /// Decides between one more block and the flush.
    fn begin_block(&mut self) -> (asked: Action)
        ensures
            (*final(self), asked@) == old(self).next_block(),
    {
        let reached = match self.limit {
            Some(most) => self.blocks_copied >= most,
            None => false,
        };
        if reached {
            self.go(Step::Flush, Action::Flush)
        } else {
            let len = self.block_size;
            self.go(Step::Read, Action::Read(len))
        }
    }

    /// Moves the output cursor if need be, else starts copying.
    fn begin_output(&mut self) -> (asked: Action)
        ensures
            (*final(self), asked@) == old(self).place_output(),
    {
        if self.output_start > 0 {
            let offset = self.output_start;
            self.go(Step::OutputSeek, Action::SeekOutput(offset))
        } else {
            self.begin_block()
        }
    }

    /// Moves the input cursor if need be, else goes on with the output.
    fn begin_input(&mut self) -> (asked: Action)
        ensures
            (*final(self), asked@) == old(self).place_input(),
    {
        if self.input_start > 0 {
            let offset = self.input_start;
            self.go(Step::InputSeek, Action::SeekInput(offset))
        } else {
            self.begin_output()
        }
    }

    /// Takes what the driver reports and says what to do next.
    ///
    /// The answer and the new state are those of [`CopyEngine::after`].
    pub fn advance(&mut self, event: Event) -> (action: Action)
        requires
            old(self).wf(),
        ensures
            (*final(self), action@) == old(self).after(event),
            final(self).wf(),
    {
        proof {
            lemma_after_keeps_wf(*self, event);
        }
        match self.step {
            Step::Done => Action::Finish,
            Step::Failed => self.reject(),
            step => match event {
                Event::Failed(cause) => {
                    self.step = Step::Failed;
                    Action::Abort(RddError::Io(cause))
                },
                Event::Start => match step {
                    Step::Ready => self.go(Step::InputOpen, Action::OpenInput),
                    _ => self.reject(),
                },
                Event::Read(len) => match step {
                    Step::Read => if len == 0 {
                        self.go(Step::Flush, Action::Flush)
                    } else if len <= self.block_size {
                        self.go(Step::Write(len), Action::Write(len))
                    } else {
                        self.reject()
                    },
                    _ => self.reject(),
                },
                Event::Opened(alignment) => match step {
                    Step::InputOpen => if self.takes(alignment) {
                        let truncate = self.truncate;
                        self.go(Step::OutputOpen, Action::OpenOutput { truncate })
                    } else {
                        self.turn_down(alignment)
                    },
                    Step::OutputOpen => if self.takes(alignment) {
                        self.begin_input()
                    } else {
                        self.turn_down(alignment)
                    },
                    _ => self.reject(),
                },
                Event::Completed => match step {
                    Step::InputSeek => self.begin_output(),
                    Step::OutputSeek => self.begin_block(),
                    Step::Write(len) => {
                        self.blocks_copied = self.blocks_copied.saturating_add(1);
                        self.bytes_copied = self.bytes_copied.saturating_add(len as u64);
                        self.begin_block()
                    },
                    Step::Flush => self.go(Step::Done, Action::Finish),
                    _ => self.reject(),
                },
            },
        }
    }
}

/// No event takes an engine out of what holds of it at all times: it never
/// counts more blocks than its limit, never more bytes than its blocks can
/// hold, and never asks for a write of nothing or of more than a block.
pub proof fn lemma_after_keeps_wf(engine: CopyEngine, event: Event)
    requires
        engine.wf(),
    ensures
        engine.after(event).0.wf(),
        engine.after(event).1 matches Request::Write(len) ==> 0 < len <= engine.block_size,
        engine.after(event).1 matches Request::Read(len) ==> len == engine.block_size,
{
    if let Step::Write(len) = engine.step {
        let counted = engine.counted(len);
        assert(counted.bytes_copied <= counted.blocks_copied * counted.block_size) by (nonlinear_arith)
            requires
                engine.bytes_copied <= engine.blocks_copied * engine.block_size,
                0 < len <= engine.block_size,
                counted.block_size == engine.block_size,
                counted.blocks_copied == capped_sum(engine.blocks_copied, 1),
                counted.bytes_copied == capped_sum(engine.bytes_copied, len as nat),
        ;
    }
}

/// The rank of a stage in the order in which a copy goes through the
/// stages.
pub open spec fn rank(phase: Phase) -> nat {
    match phase {
        Phase::Opening => 0,
        Phase::Seeking => 1,
        Phase::Copying => 2,
        Phase::Flushing => 3,
        Phase::Done => 4,
        Phase::Failed => 5,
    }
}

/// A copy never goes back to an earlier stage, and the two final stages
/// are final.
pub proof fn lemma_stages_in_order(engine: CopyEngine, event: Event)
    ensures
        rank(engine.spec_phase()) <= rank(engine.after(event).0.spec_phase()),
        engine.spec_phase() == Phase::Done ==> engine.after(event).0 == engine,
        engine.spec_phase() == Phase::Failed ==> engine.after(event).0 == engine,
{
}

/// A device that does not suit the blocks of a copy with direct I/O fails
/// the copy when it is opened, before a byte is read or written; any device
/// suits a copy without direct I/O.
pub proof fn lemma_unsuited_device_fails_at_open(engine: CopyEngine, alignment: usize)
    requires
        engine.step is InputOpen || engine.step is OutputOpen,
    ensures
        engine.direct && !aligned(engine.block_size, alignment) ==> engine.after(
            Event::Opened(alignment),
        ) == engine.unsuited(alignment) && engine.after(Event::Opened(alignment)).0.bytes_copied
            == engine.bytes_copied,
        !engine.direct ==> !(engine.after(Event::Opened(alignment)).1 is Abort),
{
}

/// Success is only ever reported in answer to a flush that succeeded.
pub proof fn lemma_success_follows_flush(engine: CopyEngine, event: Event)
    requires
        !(engine.step is Done),
        engine.after(event).1 == Request::Finish,
    ensures
        engine.step is Flush,
        event is Completed,
        engine.after(event).0.step is Done,
{
}

/// A failure that is reported before the copy has ended fails the copy at
/// once, whatever its step, with the failure as the cause; the counters
/// stay as they are.
pub proof fn lemma_failure_is_final(engine: CopyEngine, cause: std::io::Error)
    requires
        !(engine.step is Done),
        !(engine.step is Failed),
    ensures
        engine.after(Event::Failed(cause)) == (
            CopyEngine { step: Step::Failed, ..engine },
            Request::Abort(Fault::Io(cause)),
        ),
{
}

/// What is written is what was read: a read of some bytes, at most a block,
/// is answered with a write of as many bytes, and the end of the input with
/// the flush.
pub proof fn lemma_write_is_as_long_as_read(engine: CopyEngine, len: usize)
    requires
        engine.step is Read,
        len <= engine.block_size,
    ensures
        len > 0 ==> engine.after(Event::Read(len)).1 == Request::Write(len),
        len == 0 ==> engine.after(Event::Read(len)).1 == Request::Flush,
{
}

} // verus!
