//! Splitting one job over several paths.
//!
//! A job with a known number of blocks is cut into as many contiguous ranges
//! as it has threads; a job without one hands out ranges of a fixed length
//! from a cursor that only moves forward. Either way no block belongs to two
//! ranges, and each range is copied by a single-path engine of its own.

use crate::config::CopyConfig;
use crate::engine::{CopyEngine, Step};
use crate::error::{Fault, RddError, RddResult};
use vstd::prelude::*;

verus! {

/// A run of blocks of a job, counted from the job's first block.
#[derive(Clone, Copy, Debug, PartialEq, Eq, Structural)]
pub struct BlockRange {
    /// The first block of the range.
    pub start: u64,
    /// The number of blocks in it.
    pub len: u64,
}

/// The engine that a job is run with.
#[derive(Clone, Copy, Debug, PartialEq, Eq, Structural)]
pub enum EngineKind {
    /// One engine copies everything.
    SinglePath,
    /// The blocks are cut into one range for each thread beforehand.
    Partitioned,
    /// The threads claim one range after the other until the input ends.
    Ticketed,
}

/// Where shard `index` of `shards` starts when `count` blocks are split.
pub open spec fn shard_start(count: u64, shards: nat, index: nat) -> nat {
    index * (count as nat / shards)
}

/// How many blocks shard `index` of `shards` gets when `count` blocks are
/// split: an equal share, and for the last shard what is left.
pub open spec fn shard_len(count: u64, shards: nat, index: nat) -> nat {
    if index + 1 == shards {
        (count - shard_start(count, shards, index)) as nat
    } else {
        count as nat / shards
    }
}

/// The engine that a job is run with: one path for one thread, and for a
/// job that verifies what it copies, since a digest takes the bytes in
/// order; else ranges cut beforehand if the number of blocks is known, and
/// ranges claimed one by one if it is not.
pub open spec fn engine_kind(config: CopyConfig) -> EngineKind {
    if config.threads <= 1 || config.verification_algo is Some {
        EngineKind::SinglePath
    } else if config.count > 0 {
        EngineKind::Partitioned
    } else {
        EngineKind::Ticketed
    }
}

/// Chooses the engine for `config`.
pub fn select_engine(config: &CopyConfig) -> (kind: EngineKind)
    ensures
        kind == engine_kind(*config),
{
    if config.threads <= 1 || config.verification_algo.is_some() {
        EngineKind::SinglePath
    } else if config.count > 0 {
        EngineKind::Partitioned
    } else {
        EngineKind::Ticketed
    }
}

/// The shares are whole: a shard starts where the one before it ends, the
/// first starts at the first block and the last ends at the last. No share
/// but the last differs from another, and the last is the largest.
pub proof fn lemma_shards_tile(count: u64, shards: nat, index: nat)
    requires
        shards >= 1,
        index < shards,
    ensures
        shard_start(count, shards, 0) == 0,
        shard_start(count, shards, index) + shard_len(count, shards, index) <= count,
        index + 1 < shards ==> shard_start(count, shards, index) + shard_len(count, shards, index)
            == shard_start(count, shards, index + 1),
        index + 1 == shards ==> shard_start(count, shards, index) + shard_len(
            count,
            shards,
            index,
        ) == count,
        shard_len(count, shards, index) <= shard_len(count, shards, (shards - 1) as nat),
        index + 1 < shards ==> shard_len(count, shards, index) == count as nat / shards,
{
    let base = count as nat / shards;
    vstd::arithmetic::div_mod::lemma_fundamental_div_mod(count as int, shards as int);
    assert(0 <= count as int % shards as int);
    assert(shards * base <= count);
    assert(index * base <= (shards - 1) * base) by (nonlinear_arith)
        requires
            index <= shards - 1,
            base >= 0,
    ;
    assert((shards - 1) * base + base == shards * base) by (nonlinear_arith);
    assert(index * base + base == (index + 1) * base) by (nonlinear_arith);
    assert(0 * base == 0);
}

/// Cuts `count` blocks into `shards` contiguous ranges, as evenly as can
/// be: every range has `count / shards` blocks, and the last has those that
/// are left as well.
pub fn partition(count: u64, shards: u8) -> (ranges: Vec<BlockRange>)
    requires
        shards >= 1,
    ensures
        ranges@.len() == shards,
        forall|i: int|
            0 <= i < shards ==> (#[trigger] ranges@[i]).start == shard_start(
                count,
                shards as nat,
                i as nat,
            ) && ranges@[i].len == shard_len(count, shards as nat, i as nat),
{
    let base = count / (shards as u64);
    let mut ranges: Vec<BlockRange> = Vec::new();
    let mut index: u8 = 0;
    let mut start: u64 = 0;
    proof {
        lemma_shards_tile(count, shards as nat, 0);
    }
    while index < shards
        invariant
            shards >= 1,
            index <= shards,
            base == count as nat / shards as nat,
            ranges@.len() == index,
            index < shards ==> start == shard_start(count, shards as nat, index as nat),
            forall|i: int|
                0 <= i < index ==> (#[trigger] ranges@[i]).start == shard_start(
                    count,
                    shards as nat,
                    i as nat,
                ) && ranges@[i].len == shard_len(count, shards as nat, i as nat),
        decreases shards - index,
    {
        proof {
            lemma_shards_tile(count, shards as nat, index as nat);
        }
        let len = if index + 1 == shards {
            count - start
        } else {
            base
        };
        ranges.push(BlockRange { start, len });
        if index + 1 < shards {
            start = start + len;
        }
        index = index + 1;
    }
    ranges
}

/// Whether the two offsets of the shard that starts `range.start` blocks
/// into the job are byte positions of 64 bits.
pub open spec fn range_fits(config: CopyConfig, range: BlockRange) -> bool {
    &&& (config.skip + range.start) * config.block_size <= u64::MAX
    &&& (config.seek + range.start) * config.block_size <= u64::MAX
}

/// The engine that copies `range` of the job `config`: it starts that many
/// blocks behind the job's own offsets on either side, copies no more
/// blocks than the range has, and leaves the output's other bytes alone.
pub open spec fn shard_engine(config: CopyConfig, range: BlockRange) -> CopyEngine {
    CopyEngine {
        block_size: config.block_size,
        limit: Some(range.len),
        input_start: ((config.skip + range.start) * config.block_size) as u64,
        output_start: ((config.seek + range.start) * config.block_size) as u64,
        truncate: false,
        direct: config.use_direct_io,
        step: Step::Ready,
        blocks_copied: 0,
        bytes_copied: 0,
    }
}

/// The last of the ranges that `config` is cut into.
pub open spec fn last_range(config: CopyConfig) -> BlockRange {
    let last = (config.threads - 1) as nat;
    BlockRange {
        start: shard_start(config.count, config.threads as nat, last) as u64,
        len: shard_len(config.count, config.threads as nat, last) as u64,
    }
}

/// The text of the failure of a job whose ranges do not fit.
pub open spec fn ranges_too_far_text() -> Seq<char> {
    "Block range is too large to be split across threads."@
}

/// `(base + start) * block_size`, where that is a byte position of 64 bits.
fn block_offset(base: u64, start: u64, block_size: usize) -> (offset: Option<u64>)
    requires
        block_size > 0,
    ensures
        (base + start) * block_size <= u64::MAX ==> offset == Some(
            ((base + start) * block_size) as u64,
        ),
        (base + start) * block_size > u64::MAX ==> offset is None,
{
    match base.checked_add(start) {
        Some(blocks) => blocks.checked_mul(block_size as u64),
        None => {
            assert((base + start) * block_size > u64::MAX) by (nonlinear_arith)
                requires
                    base + start > u64::MAX,
                    block_size >= 1,
            ;
            None
        },
    }
}

/// The engine for one range of a job, if its offsets fit 64 bits.
pub fn engine_for(config: &CopyConfig, range: BlockRange) -> (engine: Option<CopyEngine>)
    requires
        config.wf(),
    ensures
        range_fits(*config, range) ==> engine == Some(shard_engine(*config, range)),
        !range_fits(*config, range) ==> engine is None,
        engine matches Some(e) ==> e.wf(),
{
    let input_start = match block_offset(config.skip, range.start, config.block_size) {
        Some(offset) => offset,
        None => {
            return None;
        },
    };
    let output_start = match block_offset(config.seek, range.start, config.block_size) {
        Some(offset) => offset,
        None => {
            return None;
        },
    };
    Some(
        CopyEngine::for_range(
            config.block_size,
            Some(range.len),
            input_start,
            output_start,
            false,
            config.use_direct_io,
        ),
    )
}

/// A range that starts no later than one that fits, fits.
pub proof fn lemma_earlier_range_fits(config: CopyConfig, earlier: BlockRange, later: BlockRange)
    requires
        earlier.start <= later.start,
        range_fits(config, later),
    ensures
        range_fits(config, earlier),
{
    let bs = config.block_size as int;
    assert((config.skip + earlier.start) * bs <= (config.skip + later.start) * bs)
        by (nonlinear_arith)
        requires
            earlier.start <= later.start,
            bs >= 0,
    ;
    assert((config.seek + earlier.start) * bs <= (config.seek + later.start) * bs)
        by (nonlinear_arith)
        requires
            earlier.start <= later.start,
            bs >= 0,
    ;
}

/// The engines of a job whose blocks are cut into one range for each
/// thread, in the order of the ranges.
///
/// The job is turned down, before anything is opened, if the last range
/// starts beyond what 64 bits can address on either side.
pub fn plan_shards(config: &CopyConfig) -> (r: RddResult<Vec<CopyEngine>>)
    requires
        config.wf(),
    ensures
        range_fits(*config, last_range(*config)) ==> r is Ok && r->Ok_0@.len() == config.threads
            && forall|i: int|
            0 <= i < config.threads ==> #[trigger] r->Ok_0@[i] == shard_engine(
                *config,
                BlockRange {
                    start: shard_start(config.count, config.threads as nat, i as nat) as u64,
                    len: shard_len(config.count, config.threads as nat, i as nat) as u64,
                },
            ),
        !range_fits(*config, last_range(*config)) ==> r is Err && r->Err_0@ == Fault::Config(
            ranges_too_far_text(),
        ),
{
    let ranges = partition(config.count, config.threads);
    let mut engines: Vec<CopyEngine> = Vec::new();
    let mut index: usize = 0;
    let ghost shards = config.threads as nat;
    while index < ranges.len()
        invariant
            config.wf(),
            shards == config.threads,
            ranges@.len() == shards,
            index <= shards,
            engines@.len() == index,
            forall|i: int|
                0 <= i < shards ==> (#[trigger] ranges@[i]).start == shard_start(
                    config.count,
                    shards,
                    i as nat,
                ) && ranges@[i].len == shard_len(config.count, shards, i as nat),
            forall|i: int| 0 <= i < index ==> #[trigger] engines@[i] == shard_engine(*config, ranges@[i]),
            forall|i: int| 0 <= i < index ==> range_fits(*config, #[trigger] ranges@[i]),
        decreases shards - index,
    {
        let range = ranges[index];
        proof {
            lemma_shards_tile(config.count, shards, index as nat);
            lemma_shards_tile(config.count, shards, (shards - 1) as nat);
            assert(ranges@[shards - 1] == last_range(*config));
            assert(range.start <= last_range(*config).start) by (nonlinear_arith)
                requires
                    range.start == index * (config.count as nat / shards),
                    last_range(*config).start == (shards - 1) * (config.count as nat / shards),
                    index <= shards - 1,
            ;
            if range_fits(*config, last_range(*config)) {
                lemma_earlier_range_fits(*config, range, last_range(*config));
            }
            if !range_fits(*config, range) {
                if range_fits(*config, last_range(*config)) {
                    lemma_earlier_range_fits(*config, range, last_range(*config));
                }
            }
        }
        match engine_for(config, range) {
            Some(engine) => {
                engines.push(engine);
            },
            None => {
                return Err(
                    RddError::Config(
                        String::from_str("Block range is too large to be split across threads."),
                    ),
                );
            },
        }
        index = index + 1;
    }
    proof {
        assert(ranges@[shards - 1] == last_range(*config)) by {
            lemma_shards_tile(config.count, shards, (shards - 1) as nat);
        }
        assert forall|i: int| 0 <= i < config.threads implies #[trigger] engines@[i]
            == shard_engine(
            *config,
            BlockRange {
                start: shard_start(config.count, config.threads as nat, i as nat) as u64,
                len: shard_len(config.count, config.threads as nat, i as nat) as u64,
            },
        ) by {
            lemma_shards_tile(config.count, shards, i as nat);
            assert(ranges@[i].start == shard_start(config.count, shards, i as nat));
        }
    }
    Ok(engines)
}

/// The cursor that hands out the ranges of a job without a known number of
/// blocks: each claim takes the next `stride` blocks, so that the ranges
/// follow one another and no block is claimed twice. The threads of a job
/// share one cursor.
#[derive(Clone, Copy, Debug)]
pub struct TicketCursor {
    /// The first block that has not been claimed.
    pub next_block: u64,
    /// The number of blocks in a range.
    pub stride: u64,
    /// Whether the end of the input was seen, after which nothing is
    /// handed out.
    pub closed: bool,
}

impl TicketCursor {
    /// What holds of a cursor at all times.
    pub open spec fn wf(&self) -> bool {
        self.stride > 0
    }

    /// The cursor after a claim, and the range that the claim gets: the
    /// next `stride` blocks, or fewer if the 64-bit block numbers end
    /// before; none from a closed cursor or once the numbers have run out.
    pub open spec fn claimed(self) -> (TicketCursor, Option<BlockRange>) {
        if self.closed || self.next_block == u64::MAX {
            (self, None)
        } else {
            let len = if self.stride <= u64::MAX - self.next_block {
                self.stride
            } else {
                (u64::MAX - self.next_block) as u64
            };
            (
                TicketCursor { next_block: (self.next_block + len) as u64, ..self },
                Some(BlockRange { start: self.next_block, len }),
            )
        }
    }

    /// A cursor at the first block of a job.
    pub fn new(stride: u64) -> (cursor: TicketCursor)
        requires
            stride > 0,
        ensures
            cursor == (TicketCursor { next_block: 0, stride, closed: false }),
            cursor.wf(),
    {
        TicketCursor { next_block: 0, stride, closed: false }
    }

    /// Claims the next range.
    pub fn claim(&mut self) -> (range: Option<BlockRange>)
        requires
            old(self).wf(),
        ensures
            (*final(self), range) == old(self).claimed(),
            final(self).wf(),
    {
        if self.closed || self.next_block == u64::MAX {
            return None;
        }
        let room = u64::MAX - self.next_block;
        let len = if self.stride <= room {
            self.stride
        } else {
            room
        };
        let start = self.next_block;
        self.next_block = start + len;
        Some(BlockRange { start, len })
    }

    /// Records that the input has ended: no range is handed out any more.
    pub fn close(&mut self)
        ensures
            *final(self) == (TicketCursor { closed: true, ..*old(self) }),
    {
        self.closed = true;
    }
}

/// The range that claim number `index` gets, counted from zero, from a
/// cursor that started at the first block and was never closed: `stride`
/// blocks behind those of the claims before it, as far as the 64-bit block
/// numbers go.
pub open spec fn ticket(stride: u64, index: int) -> BlockRange {
    let start = if index * stride <= u64::MAX {
        index * stride
    } else {
        u64::MAX as int
    };
    BlockRange {
        start: start as u64,
        len: if stride <= u64::MAX - start {
            stride
        } else {
            (u64::MAX - start) as u64
        },
    }
}

/// A cursor that has handed out `index` ranges hands out range number
/// `index` next, and stands at the start of the one after it then.
pub proof fn lemma_next_ticket(cursor: TicketCursor, index: int)
    requires
        cursor.wf(),
        !cursor.closed,
        index >= 0,
        cursor.next_block == ticket(cursor.stride, index).start,
    ensures
        cursor.claimed().1 is Some <==> ticket(cursor.stride, index).len > 0,
        cursor.claimed().1 matches Some(range) ==> range == ticket(cursor.stride, index),
        cursor.claimed().0.next_block == ticket(cursor.stride, index + 1).start,
        ticket(cursor.stride, index).start + ticket(cursor.stride, index).len == ticket(
            cursor.stride,
            index + 1,
        ).start,
{
    let stride = cursor.stride as int;
    assert((index + 1) * stride == index * stride + stride) by (nonlinear_arith);
    assert(index * stride >= 0) by (nonlinear_arith)
        requires
            index >= 0,
            stride >= 0,
    ;
}

/// Claims never overlap: a claim moves the cursor forward, by the range it
/// gets, and a range claimed from a cursor that is no further back than
/// where an earlier claim left it starts behind the earlier range.
pub proof fn lemma_tickets_apart(earlier: TicketCursor, later: TicketCursor)
    requires
        earlier.wf(),
        later.wf(),
        earlier.claimed().0.next_block <= later.next_block,
    ensures
        earlier.next_block <= earlier.claimed().0.next_block,
        earlier.claimed().1 matches Some(first) ==> first.len > 0 && first.start
            == earlier.next_block && first.start + first.len == earlier.claimed().0.next_block,
        earlier.claimed().1 is Some && later.claimed().1 is Some ==> earlier.claimed().1->0.start
            + earlier.claimed().1->0.len <= later.claimed().1->0.start,
{
}

} // verus!
