//! One engine at work: the state machine of the copy together with the
//! digest of what it has written.
//!
//! A driver that runs a [`CopySession`] hands over its buffer with every
//! event. The session moves the engine and, when a write has succeeded,
//! folds exactly the bytes that were written into the digest, at the offset
//! that the engine has counted up to.

use crate::config::HashAlgorithm;
use crate::digest::{digest_of, UpdateFault, VerificationAccumulator, MAX_DIGEST_INPUT};
use crate::engine::{unexpected_event_text, Action, CopyEngine, Event, Phase, Request, Step};
use crate::error::{Fault, RddError};
use crate::result::JobResult;
use vstd::prelude::*;

verus! {

/// A copy in progress, with the digest of what it has written if the copy
/// is verified.
pub struct CopySession {
    engine: CopyEngine,
    accumulator: Option<VerificationAccumulator>,
}

/// Why a session cannot take the bytes of a write into its digest.
pub enum DigestFault {
    /// The buffer that came with the event is shorter than the write.
    NoBuffer,
    /// The digest would cover more bytes than a digest covers.
    TooLong,
}

impl DigestFault {
    /// The error that reports this fault.
    pub open spec fn fault(self) -> Fault {
        match self {
            DigestFault::NoBuffer => Fault::Channel(unexpected_event_text()),
            DigestFault::TooLong => UpdateFault::TooLong.fault(),
        }
    }
}

impl CopySession {
    /// The state of the engine.
    pub closed spec fn engine(&self) -> CopyEngine {
        self.engine
    }

    /// The digest that the copy is verified with, if it is.
    pub closed spec fn algorithm(&self) -> Option<HashAlgorithm> {
        match self.accumulator {
            Some(accumulator) => Some(accumulator.algorithm()),
            None => None,
        }
    }

    /// The bytes that the digest has taken so far, in order; none if the
    /// copy is not verified.
    pub closed spec fn digested(&self) -> Seq<u8> {
        match self.accumulator {
            Some(accumulator) => accumulator.absorbed(),
            None => Seq::empty(),
        }
    }

    /// What holds of a session at all times: what holds of its engine, and
    /// the digest has taken as many bytes as the engine has counted.
    pub closed spec fn wf(&self) -> bool {
        &&& self.engine.wf()
        &&& self.accumulator matches Some(accumulator) ==> accumulator.wf()
            && accumulator.absorbed().len() == self.engine.bytes_copied
    }

    /// The length of the write whose success `event` reports to `engine`,
    /// if it reports one.
    pub open spec fn written(engine: CopyEngine, event: Event) -> Option<usize> {
        match (engine.step, event) {
            (Step::Write(len), Event::Completed) => Some(len),
            _ => None,
        }
    }

    /// Why the bytes of the write that `event` reports cannot be taken
    /// into the digest, if they cannot. A session without a digest takes
    /// every event as its engine does.
    pub open spec fn digest_fault(&self, event: Event, buffer: Seq<u8>) -> Option<DigestFault> {
        match Self::written(self.engine(), event) {
            Some(len) if self.algorithm() is Some => if len > buffer.len() {
                Some(DigestFault::NoBuffer)
            } else if self.digested().len() + len > MAX_DIGEST_INPUT {
                Some(DigestFault::TooLong)
            } else {
                None
            },
            _ => None,
        }
    }

    /// A session for `engine`, verified with `verify` if that is a digest.
    pub fn new(engine: CopyEngine, verify: Option<HashAlgorithm>) -> (session: CopySession)
        requires
            engine.wf(),
            engine.bytes_copied == 0,
        ensures
            session.wf(),
            session.engine() == engine,
            session.algorithm() == verify,
            session.digested() == Seq::<u8>::empty(),
    {
        let accumulator = match verify {
            Some(algorithm) => Some(VerificationAccumulator::new(algorithm)),
            None => None,
        };
        CopySession { engine, accumulator }
    }

    /// Blocks written so far.
    pub fn blocks_copied(&self) -> (blocks: u64)
        ensures
            blocks == self.engine().blocks_copied,
    {
        self.engine.blocks_copied
    }

    /// Bytes written so far.
    pub fn bytes_copied(&self) -> (bytes: u64)
        ensures
            bytes == self.engine().bytes_copied,
    {
        self.engine.bytes_copied
    }

    /// The stage that the copy is in.
    pub fn phase(&self) -> (phase: Phase)
        ensures
            phase == self.engine().spec_phase(),
    {
        self.engine.phase()
    }

    /// Takes what the driver reports and says what to do next. `buffer` is
    /// the driver's buffer as the last read and write left it.
    ///
    /// The engine moves as [`CopyEngine::after`] says. When the event is
    /// the success of a write, the bytes that were written, which are the
    /// first of the buffer, are taken into the digest; no other event
    /// touches the digest. If the digest cannot take them, the copy fails
    /// and the digest stays as it was.
    pub fn advance(&mut self, event: Event, buffer: &[u8]) -> (action: Action)
        requires
            old(self).wf(),
        ensures
            final(self).wf(),
            final(self).algorithm() == old(self).algorithm(),
            match old(self).digest_fault(event, buffer@) {
                Some(fault) => {
                    &&& final(self).engine() == (CopyEngine {
                        step: Step::Failed,
                        ..old(self).engine()
                    })
                    &&& action@ == Request::Abort(fault.fault())
                    &&& final(self).digested() == old(self).digested()
                },
                None => {
                    &&& (final(self).engine(), action@) == old(self).engine().after(event)
                    &&& final(self).digested() == match Self::written(old(self).engine(), event) {
                        Some(len) if old(self).algorithm() is Some => old(self).digested()
                            + buffer@.take(len as int),
                        _ => old(self).digested(),
                    }
                },
            },
    {
        let written = match (&self.engine.step, &event) {
            (Step::Write(len), Event::Completed) => Some(*len),
            _ => None,
        };
        if let Some(len) = written {
            if let Some(accumulator) = &mut self.accumulator {
                if len > buffer.len() {
                    self.engine.step = Step::Failed;
                    return Action::Abort(
                        RddError::Channel(
                            String::from_str(
                                "The copy engine received an event that it was not waiting for.",
                            ),
                        ),
                    );
                }
                let taken = accumulator.update(self.engine.bytes_copied, &buffer[0..len]);
                assert(buffer@.subrange(0, len as int) == buffer@.take(len as int));
                if let Err(error) = taken {
                    self.engine.step = Step::Failed;
                    return Action::Abort(error);
                }
            }
        }
        self.engine.advance(event)
    }

    /// Ends the session and reports: the counters of the engine, the
    /// failure that the driver was told to report, if any, and the digest of
    /// what was written if the copy is verified and has succeeded.
    pub fn result(self, failure: Option<RddError>) -> (result: JobResult)
        requires
            self.wf(),
        ensures
            result.blocks_copied == self.engine().blocks_copied,
            result.bytes_copied == self.engine().bytes_copied,
            result.error == failure,
            match self.algorithm() {
                Some(algorithm) if failure is None && self.engine().step is Done => {
                    result.verification_digest is Some && result.verification_digest->0@
                        == digest_of(algorithm, self.digested())
                },
                _ => result.verification_digest is None,
            },
    {
        let succeeded = failure.is_none() && match self.engine.step {
            Step::Done => true,
            _ => false,
        };
        let digest = match self.accumulator {
            Some(accumulator) => if succeeded {
                Some(accumulator.finalize())
            } else {
                None
            },
            None => None,
        };
        JobResult {
            blocks_copied: self.engine.blocks_copied,
            bytes_copied: self.engine.bytes_copied,
            verification_digest: digest,
            error: failure,
        }
    }
}

} // verus!
