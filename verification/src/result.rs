//! What a job reports when it ends, and how the reports of several shards
//! fold into one.

use crate::digest::{check_digest, hex_of};
use crate::error::{Fault, RddError};
use vstd::prelude::*;

verus! {

/// The outcome of a job, or of one shard of it.
///
/// A failure does not wipe the counters: what was copied before it stays
/// copied and stays counted. A digest that differs from the expected one is
/// a failure of its own kind, next to counters that tell of a whole copy.
#[derive(Debug)]
pub struct JobResult {
    /// Blocks written.
    pub blocks_copied: u64,
    /// Bytes written.
    pub bytes_copied: u64,
    /// The digest of the bytes written, where one was asked for.
    pub verification_digest: Option<Vec<u8>>,
    /// The failure that ended the job, if it did not succeed.
    pub error: Option<RddError>,
}

/// `n`, or the largest 64-bit number if `n` is beyond it.
pub open spec fn capped(n: nat) -> u64 {
    if n > u64::MAX {
        u64::MAX
    } else {
        n as u64
    }
}

/// The blocks of all `results` together.
pub open spec fn total_blocks(results: Seq<JobResult>) -> nat
    decreases results.len(),
{
    if results.len() == 0 {
        0
    } else {
        results[0].blocks_copied as nat + total_blocks(results.drop_first())
    }
}

/// The bytes of all `results` together.
pub open spec fn total_bytes(results: Seq<JobResult>) -> nat
    decreases results.len(),
{
    if results.len() == 0 {
        0
    } else {
        results[0].bytes_copied as nat + total_bytes(results.drop_first())
    }
}

/// The failure of the first of `results` that has one.
pub open spec fn first_error(results: Seq<JobResult>) -> Option<RddError>
    decreases results.len(),
{
    if results.len() == 0 {
        None
    } else if results[0].error is Some {
        results[0].error
    } else {
        first_error(results.drop_first())
    }
}

/// One more result at the end adds its counters to the totals, and its
/// failure counts only if no result before it failed.
pub proof fn lemma_totals_push(results: Seq<JobResult>, last: JobResult)
    ensures
        total_blocks(results.push(last)) == total_blocks(results) + last.blocks_copied,
        total_bytes(results.push(last)) == total_bytes(results) + last.bytes_copied,
        first_error(results.push(last)) == if first_error(results) is Some {
            first_error(results)
        } else {
            last.error
        },
    decreases results.len(),
{
    let grown = results.push(last);
    assert(grown.len() > 0 && grown[0] == if results.len() == 0 {
        last
    } else {
        results[0]
    });
    if results.len() == 0 {
        let none = grown.drop_first();
        assert(none.len() == 0);
        assert(total_blocks(none) == 0 && total_bytes(none) == 0 && first_error(none) is None);
    } else {
        assert(grown.drop_first() == results.drop_first().push(last));
        lemma_totals_push(results.drop_first(), last);
    }
}

/// The text of the failure of a verification without a digest.
pub open spec fn no_digest_text() -> Seq<char> {
    "No digest was computed to hold against the expected one."@
}

/// What a job that reports `digest` fails with when `expected` is the
/// digest that it should have: nothing if the two are the same, byte for
/// byte.
pub open spec fn verification_fault(digest: Option<Vec<u8>>, expected: Seq<u8>) -> Option<Fault> {
    match digest {
        None => Some(Fault::Channel(no_digest_text())),
        Some(actual) => if actual@ == expected {
            None
        } else {
            Some(Fault::VerificationFailure { expected: hex_of(expected), actual: hex_of(actual@) })
        },
    }
}

impl JobResult {
    /// Holds the digest of a job against the digest that was expected.
    ///
    /// A job that failed stays as it is. A job that succeeded fails now if
    /// its digest is another, or if it has none; its counters and its
    /// digest stay, so that the result tells of the copy as well as of the
    /// verification.
    pub fn verified(self, expected: &[u8]) -> (checked: JobResult)
        ensures
            checked.blocks_copied == self.blocks_copied,
            checked.bytes_copied == self.bytes_copied,
            checked.verification_digest == self.verification_digest,
            self.error is Some ==> checked.error == self.error,
            self.error is None ==> match verification_fault(self.verification_digest, expected@) {
                None => checked.error is None,
                Some(fault) => checked.error is Some && checked.error->0@ == fault,
            },
    {
        if self.error.is_some() {
            return self;
        }
        let error = match &self.verification_digest {
            None => Some(
                RddError::Channel(
                    String::from_str("No digest was computed to hold against the expected one."),
                ),
            ),
            Some(actual) => match check_digest(expected, actual.as_slice()) {
                Ok(()) => None,
                Err(e) => Some(e),
            },
        };
        JobResult {
            blocks_copied: self.blocks_copied,
            bytes_copied: self.bytes_copied,
            verification_digest: self.verification_digest,
            error,
        }
    }

    /// Whether the job did all it was asked to.
    pub fn succeeded(&self) -> (ok: bool)
        ensures
            ok == self.error is None,
    {
        self.error.is_none()
    }

    /// Folds the results of the shards of one job, given in the order of
    /// the shards, into the result of the job.
    ///
    /// The counters add up, and stay at the largest 64-bit number if the
    /// sums are beyond it. The job fails if any shard failed, with the
    /// failure of the first such shard in the order given, whichever shard
    /// ended first. No digest comes out: the shards each saw a part of the
    /// stream only.
    pub fn merge(results: Vec<JobResult>) -> (merged: JobResult)
        ensures
            merged.blocks_copied == capped(total_blocks(results@)),
            merged.bytes_copied == capped(total_bytes(results@)),
            merged.verification_digest is None,
            merged.error == first_error(results@),
    {
        let ghost all = results@;
        let mut rest = results;
        let mut merged = JobResult {
            blocks_copied: 0,
            bytes_copied: 0,
            verification_digest: None,
            error: None,
        };
        assert(all.skip(all.len() as int) == Seq::<JobResult>::empty());
        while rest.len() > 0
            invariant
                rest@ == all.take(rest@.len() as int),
                rest@.len() <= all.len(),
                merged.blocks_copied == capped(total_blocks(all.skip(rest@.len() as int))),
                merged.bytes_copied == capped(total_bytes(all.skip(rest@.len() as int))),
                merged.verification_digest is None,
                merged.error == first_error(all.skip(rest@.len() as int)),
            decreases rest@.len(),
        {
            let ghost at = rest@.len() - 1;
            let shard = rest.pop().unwrap();
            proof {
                assert(shard == all[at]);
                assert(all.skip(at).drop_first() == all.skip(at + 1));
                assert(all.skip(at)[0] == shard);
                assert(rest@ == all.take(at));
            }
            merged.blocks_copied = merged.blocks_copied.saturating_add(shard.blocks_copied);
            merged.bytes_copied = merged.bytes_copied.saturating_add(shard.bytes_copied);
            if shard.error.is_some() {
                merged.error = shard.error;
            }
        }
        assert(all.skip(0) == all);
        merged
    }
}

} // verus!
