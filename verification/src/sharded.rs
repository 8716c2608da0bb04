//! Jobs on several paths, between endpoints that live in memory.
//!
//! The ranges of a job are run one after the other, each by a single-path
//! engine of its own, as the threads of a job run them side by side on a
//! file. What comes out is held against the single path: the same bytes at
//! the same places, and the same counters.

use crate::config::{CopyConfig, HashAlgorithm};
use crate::digest::{digest_of, MAX_DIGEST_INPUT};
use crate::engine::{single_path, CopyEngine};
use crate::error::{Fault, RddError, RddResult};
use crate::extent::{
    abuts, image, joined, lemma_extents_leave_file_of_whole, names_all, Extent,
};
use crate::memory::{
    blocks_for, copy_in_memory, region_len, region_start, run_in_memory, transferred,
};
use crate::result::{first_error, lemma_totals_push, total_blocks, total_bytes, JobResult};
use crate::shard::{
    engine_for, engine_kind, last_range, lemma_earlier_range_fits, lemma_next_ticket,
    lemma_shards_tile, partition, range_fits, ranges_too_far_text, select_engine, shard_engine,
    shard_len, shard_start, ticket, BlockRange, EngineKind, TicketCursor,
};
use vstd::prelude::*;

verus! {

/// Range `index` of the ranges that `config` is cut into.
pub open spec fn range_of(config: CopyConfig, index: int) -> BlockRange {
    BlockRange {
        start: shard_start(config.count, config.threads as nat, index as nat) as u64,
        len: shard_len(config.count, config.threads as nat, index as nat) as u64,
    }
}

/// Whether `extents`, with `result`, are the outcome of the job `config`
/// on `input`, whatever engine ran it: the extents hold, end to end, the
/// bytes that a single path writes; each extent that holds anything starts
/// right behind the ones before it, as far behind the output's start as
/// the job seeks; the counters are exact; nothing failed; and with `verify`
/// the digest is that of the bytes written.
pub open spec fn is_job(
    extents: Seq<Extent>,
    result: JobResult,
    config: CopyConfig,
    input: Seq<u8>,
    verify: Option<HashAlgorithm>,
) -> bool {
    &&& joined(extents) == transferred(input, single_path(config))
    &&& forall|i: int|
        0 <= i < extents.len() ==> #[trigger] abuts(
            extents,
            i,
            (config.seek * config.block_size) as u64,
        )
    &&& result.bytes_copied == joined(extents).len()
    &&& result.blocks_copied == blocks_for(joined(extents).len(), config.block_size as nat)
    &&& result.error is None
    &&& match verify {
        Some(algorithm) => result.verification_digest is Some && result.verification_digest->0@
            == digest_of(algorithm, joined(extents)),
        None => result.verification_digest is None,
    }
}

/// Whether extent `index` of `extents` is what the engine of `range` makes
/// of `input`, at the offset at which that engine writes.
pub open spec fn is_extent_of(
    extents: Seq<Extent>,
    index: int,
    config: CopyConfig,
    input: Seq<u8>,
    range: BlockRange,
) -> bool {
    &&& extents[index].data@ == transferred(input, shard_engine(config, range))
    &&& extents[index].offset == shard_engine(config, range).output_start
}

/// Whether extent `index` of `extents` took every block of `range`.
pub open spec fn is_full(
    extents: Seq<Extent>,
    index: int,
    config: CopyConfig,
    range: BlockRange,
) -> bool {
    blocks_for(extents[index].data@.len(), config.block_size as nat) == range.len
}

/// Whether `extents` are what the engines of a job that is cut into one
/// range for each thread write: one extent for each range, in the order of
/// the ranges.
pub open spec fn is_partitioned_run(
    extents: Seq<Extent>,
    config: CopyConfig,
    input: Seq<u8>,
) -> bool {
    &&& extents.len() == config.threads
    &&& forall|i: int|
        0 <= i < config.threads ==> #[trigger] is_extent_of(
            extents,
            i,
            config,
            input,
            range_of(config, i),
        )
}

/// Whether `extents` are what the engines of a job that claims ranges of
/// `stride` blocks write: one extent for each claim, in the order of the
/// claims; every claim but the last took all its blocks; and the last
/// either stopped short, as it does where the input ends, or is followed
/// by no claim that 64 bits can address.
pub open spec fn is_ticketed_run(
    extents: Seq<Extent>,
    config: CopyConfig,
    input: Seq<u8>,
    stride: u64,
) -> bool {
    let claims = extents.len() as int;
    &&& claims >= 1
    &&& forall|i: int|
        0 <= i < claims ==> #[trigger] is_extent_of(extents, i, config, input, ticket(stride, i))
    &&& forall|i: int|
        0 <= i < claims - 1 ==> #[trigger] is_full(extents, i, config, ticket(stride, i))
    &&& {
        ||| !is_full(extents, claims - 1, config, ticket(stride, claims - 1))
        ||| ticket(stride, claims).len == 0
        ||| !range_fits(config, ticket(stride, claims))
    }
}

/// `bytes`, or `rest` if that is less.
pub open spec fn reach(rest: int, bytes: int) -> int {
    if bytes <= rest {
        bytes
    } else {
        rest
    }
}

/// The region of a shard that starts `before` bytes into its job begins
/// where the job's region has got to after that many bytes, and ends where
/// it has got to after the shard's bytes as well.
proof fn lemma_shard_region(
    len: nat,
    block_size: usize,
    job_start: u64,
    before: int,
    blocks: u64,
    shard_start: u64,
)
    requires
        block_size > 0,
        before >= 0,
        shard_start == job_start + before,
    ensures
        ({
            let from = region_start(len, job_start);
            let rest = len - from;
            &&& region_start(len, shard_start) == from + reach(rest, before)
            &&& region_len(len, block_size, Some(blocks), shard_start) == reach(
                rest,
                before + blocks * block_size,
            ) - reach(rest, before)
        }),
{
    assert(blocks * block_size >= 0) by (nonlinear_arith);
}

/// Whole blocks in front of some bytes add their number to the blocks that
/// the bytes take.
proof fn lemma_blocks_for_sum(whole: nat, bytes: nat, block_size: nat)
    requires
        block_size > 0,
    ensures
        blocks_for(whole * block_size, block_size) == whole,
        blocks_for(whole * block_size + bytes, block_size) == whole + blocks_for(bytes, block_size),
{
    vstd::arithmetic::div_mod::lemma_fundamental_div_mod_converse(
        (whole * block_size) as int,
        block_size as int,
        whole as int,
        0,
    );
    vstd::arithmetic::div_mod::lemma_fundamental_div_mod(bytes as int, block_size as int);
    let q = bytes as int / block_size as int;
    let r = bytes as int % block_size as int;
    assert(whole * block_size + bytes == block_size * (whole + q) + r) by (nonlinear_arith)
        requires
            bytes == block_size * q + r,
    ;
    assert(0 <= q) by (nonlinear_arith)
        requires
            bytes == block_size * q + r,
            0 <= r < block_size,
            bytes >= 0,
    ;
    vstd::arithmetic::div_mod::lemma_fundamental_div_mod_converse(
        (whole * block_size + bytes) as int,
        block_size as int,
        whole + q,
        r,
    );
}

/// Bytes that fit into some blocks take no more blocks than those.
proof fn lemma_blocks_for_within(bytes: nat, whole: nat, block_size: nat)
    requires
        block_size > 0,
        bytes <= whole * block_size,
    ensures
        blocks_for(bytes, block_size) <= whole,
{
    vstd::arithmetic::div_mod::lemma_fundamental_div_mod(bytes as int, block_size as int);
    let q = bytes as int / block_size as int;
    let r = bytes as int % block_size as int;
    assert(q <= whole && (r > 0 ==> q < whole)) by (nonlinear_arith)
        requires
            bytes == block_size * q + r,
            0 <= r < block_size,
            bytes <= whole * block_size,
    ;
}

/// It takes no more blocks than bytes to move the bytes.
proof fn lemma_blocks_for_bound(bytes: nat, block_size: nat)
    requires
        block_size > 0,
    ensures
        blocks_for(bytes, block_size) <= bytes,
{
    vstd::arithmetic::div_mod::lemma_fundamental_div_mod(bytes as int, block_size as int);
    let q = bytes as int / block_size as int;
    let r = bytes as int % block_size as int;
    assert(0 <= q <= block_size * q) by (nonlinear_arith)
        requires
            bytes == block_size * q + r,
            0 <= r < block_size,
            bytes >= 0,
    ;
}

/// What holds once the ranges in front of block `blocks` of a job have been
/// run, one after the other, with `extents` as what they wrote and
/// `results` as what they reported: the extents, end to end, are the bytes
/// that a single path has written after that many blocks, no extent
/// overlaps another or leaves a gap, and the results add up to the counters
/// of a single path.
pub open spec fn covers(
    config: CopyConfig,
    input: Seq<u8>,
    extents: Seq<Extent>,
    results: Seq<JobResult>,
    blocks: int,
) -> bool {
    let block_size = config.block_size as int;
    let from = region_start(input.len(), (config.skip * block_size) as u64) as int;
    let bytes = reach(input.len() - from, blocks * block_size);
    &&& blocks >= 0
    &&& extents.len() == results.len()
    &&& joined(extents) == input.subrange(from, from + bytes)
    &&& forall|i: int|
        0 <= i < extents.len() ==> #[trigger] abuts(extents, i, (config.seek * block_size) as u64)
    &&& total_bytes(results) == bytes
    &&& total_blocks(results) == blocks_for(bytes as nat, block_size as nat)
    &&& first_error(results) is None
}

/// Runs the engine of one range of a job over `input`, and adds what it
/// wrote and what it reported to those of the ranges in front of it. Says
/// whether the engine stopped short of the range's last block, as it does
/// only where the input ends.
fn run_range(
    config: &CopyConfig,
    input: &[u8],
    range: BlockRange,
    engine: CopyEngine,
    extents: &mut Vec<Extent>,
    results: &mut Vec<JobResult>,
) -> (short: bool)
    requires
        config.wf(),
        range_fits(*config, range),
        engine == shard_engine(*config, range),
        covers(*config, input@, old(extents)@, old(results)@, range.start as int),
    ensures
        covers(*config, input@, final(extents)@, final(results)@, range.start + range.len),
        final(extents)@.len() == old(extents)@.len() + 1,
        final(extents)@.drop_last() == old(extents)@,
        is_extent_of(final(extents)@, final(extents)@.len() - 1, *config, input@, range),
        short ==> input@.len() - region_start(
            input@.len(),
            (config.skip * config.block_size) as u64,
        ) < (range.start + range.len) * config.block_size,
        !short && range.len > 0 ==> final(extents)@.last().data@.len() > 0,
        short == (blocks_for(final(extents)@.last().data@.len(), config.block_size as nat)
            < range.len),
        short || is_full(final(extents)@, final(extents)@.len() - 1, *config, range),
{
    let ghost block_size = config.block_size as int;
    let ghost job_start = (config.skip * config.block_size) as u64;
    let ghost origin = (config.seek * config.block_size) as u64;
    let ghost from = region_start(input@.len(), job_start) as int;
    let ghost rest = input@.len() - from;
    let ghost before = range.start * block_size;
    let ghost after = before + range.len * block_size;
    let ghost earlier = extents@;
    let ghost counted = results@;
    proof {
        assert((config.skip + range.start) * block_size == config.skip * block_size + before)
            by (nonlinear_arith)
            requires
                before == range.start * block_size,
        ;
        assert((config.seek + range.start) * block_size == config.seek * block_size + before)
            by (nonlinear_arith)
            requires
                before == range.start * block_size,
        ;
        assert(before >= 0 && after >= before) by (nonlinear_arith)
            requires
                before == range.start * block_size,
                after == before + range.len * block_size,
                block_size > 0,
        ;
        assert((range.start + range.len) * block_size == after) by (nonlinear_arith)
            requires
                before == range.start * block_size,
                after == before + range.len * block_size,
        ;
        lemma_shard_region(
            input@.len(),
            config.block_size,
            job_start,
            before,
            range.len,
            engine.input_start,
        );
    }
    let (data, result) = run_in_memory(engine, input, None);
    let short = result.blocks_copied < range.len;
    proof {
        assert(data@ == input@.subrange(from + reach(rest, before), from + reach(rest, after)));
        let grown = earlier.push(Extent { offset: engine.output_start, data });
        assert(grown.drop_last() == earlier);
        assert(joined(grown) == input@.subrange(from, from + reach(rest, after)));
        assert(grown.take(earlier.len() as int) == earlier);
        assert forall|i: int| 0 <= i < grown.len() implies #[trigger] abuts(grown, i, origin) by {
            if i < earlier.len() {
                assert(abuts(earlier, i, origin));
                assert(grown.take(i) == earlier.take(i));
                assert(grown[i] == earlier[i]);
            }
        }
        lemma_totals_push(counted, result);
        if before <= rest {
            lemma_blocks_for_sum(range.start as nat, data@.len(), block_size as nat);
        }
        lemma_blocks_for_sum(0, 0, block_size as nat);
        lemma_blocks_for_sum(range.len as nat, 0, block_size as nat);
        lemma_blocks_for_within(data@.len(), range.len as nat, block_size as nat);
    }
    extents.push(Extent { offset: engine.output_start, data });
    results.push(result);
    short
}

/// Runs a job whose blocks are cut into one range for each thread over
/// `input`, one range after the other, and returns what each range's
/// engine wrote, with the result of the job. Nothing is verified: a digest
/// takes a single path.
///
/// The extents, one after the other, are the bytes that the job writes on a
/// single path, and the counters are those of a single path. Each extent
/// that holds anything starts right behind the ones before it, so the
/// output is the same in whatever order the engines write.
pub fn copy_sharded_in_memory(config: &CopyConfig, input: &[u8]) -> (r: RddResult<
    (Vec<Extent>, JobResult),
>)
    requires
        config.wf(),
        config.count > 0,
    ensures
        r is Ok <==> range_fits(*config, last_range(*config)),
        r matches Err(e) ==> e@ == Fault::Config(ranges_too_far_text()),
        r matches Ok(out) ==> is_partitioned_run(out.0@, *config, input@) && is_job(
            out.0@,
            out.1,
            *config,
            input@,
            None,
        ),
{
    let shards = config.threads;
    let ranges = partition(config.count, shards);
    let ghost last = last_range(*config);
    proof {
        lemma_shards_tile(config.count, shards as nat, (shards - 1) as nat);
        assert(ranges@[shards - 1] == last);
    }
    let total = input.len();
    let mut extents: Vec<Extent> = Vec::new();
    let mut results: Vec<JobResult> = Vec::new();
    let mut index: usize = 0;
    proof {
        lemma_shards_tile(config.count, shards as nat, 0);
        lemma_covers_nothing(*config, input@);
    }
    while index < ranges.len()
        invariant
            config.wf(),
            shards == config.threads,
            total == input@.len(),
            last == last_range(*config),
            index > 0 ==> range_fits(*config, ranges@[index - 1]),
            ranges@.len() == shards,
            forall|i: int| 0 <= i < shards ==> #[trigger] ranges@[i] == range_of(*config, i),
            index <= shards,
            extents@.len() == index,
            covers(
                *config,
                input@,
                extents@,
                results@,
                if index < shards {
                    shard_start(config.count, shards as nat, index as nat) as int
                } else {
                    config.count as int
                },
            ),
            forall|i: int|
                0 <= i < index ==> #[trigger] is_extent_of(
                    extents@,
                    i,
                    *config,
                    input@,
                    range_of(*config, i),
                ),
        decreases shards - index,
    {
        let range = ranges[index];
        let ghost earlier = extents@;
        proof {
            lemma_shards_tile(config.count, shards as nat, index as nat);
            lemma_shards_tile(config.count, shards as nat, (shards - 1) as nat);
            assert(range.start <= last.start) by (nonlinear_arith)
                requires
                    range.start == index * (config.count as nat / shards as nat),
                    last.start == (shards - 1) * (config.count as nat / shards as nat),
                    index <= shards - 1,
            ;
            if range_fits(*config, last) {
                lemma_earlier_range_fits(*config, range, last);
            }
        }
        let engine = match engine_for(config, range) {
            Some(engine) => engine,
            None => {
                return Err(
                    RddError::Config(
                        String::from_str("Block range is too large to be split across threads."),
                    ),
                );
            },
        };
        run_range(config, input, range, engine, &mut extents, &mut results);
        proof {
            assert forall|i: int| 0 <= i < index + 1 implies #[trigger] is_extent_of(
                extents@,
                i,
                *config,
                input@,
                range_of(*config, i),
            ) by {
                if i < index {
                    assert(extents@[i] == earlier[i]);
                    assert(is_extent_of(earlier, i, *config, input@, range_of(*config, i)));
                }
            }
        }
        index = index + 1;
    }
    let merged = JobResult::merge(results);
    proof {
        lemma_blocks_for_bound(joined(extents@).len(), config.block_size as nat);
    }
    Ok((extents, merged))
}

/// Before any range has run, nothing is written and nothing is counted.
proof fn lemma_covers_nothing(config: CopyConfig, input: Seq<u8>)
    requires
        config.wf(),
    ensures
        covers(config, input, Seq::<Extent>::empty(), Seq::<JobResult>::empty(), 0),
{
    let block_size = config.block_size as int;
    let from = region_start(input.len(), (config.skip * block_size) as u64) as int;
    assert(0 * block_size == 0);
    assert(joined(Seq::<Extent>::empty()) == input.subrange(from, from));
    lemma_blocks_for_sum(0, 0, block_size as nat);
}

/// Runs a job without a known number of blocks over `input` as its threads
/// do: range after range of `stride` blocks is claimed from one cursor and
/// copied by an engine of its own, until a range ends short or no further
/// range can be addressed. Returns what each engine wrote, with the result
/// of the job. Nothing is verified: a digest takes a single path.
///
/// The extents, one after the other, are the bytes that the job writes on a
/// single path, and the counters are those of a single path. Each extent
/// that holds anything starts right behind the ones before it.
pub fn copy_ticketed_in_memory(config: &CopyConfig, input: &[u8], stride: u64) -> (out: (
    Vec<Extent>,
    JobResult,
))
    requires
        config.wf(),
        config.count == 0,
        stride > 0,
        config.seek * config.block_size + input@.len() <= u64::MAX,
    ensures
        is_ticketed_run(out.0@, *config, input@, stride),
        is_job(out.0@, out.1, *config, input@, None),
{
    let total = input.len();
    let ghost block_size = config.block_size as int;
    let ghost from = region_start(input@.len(), (config.skip * block_size) as u64) as int;
    let ghost rest = input@.len() - from;
    let ghost reached: int = 0;
    let ghost claims: int = 0;
    let mut cursor = TicketCursor::new(stride);
    let mut extents: Vec<Extent> = Vec::new();
    let mut results: Vec<JobResult> = Vec::new();
    proof {
        lemma_covers_nothing(*config, input@);
        assert(0 * stride == 0);
    }
    loop
        invariant_except_break
            !cursor.closed,
            reached == cursor.next_block,
            forall|i: int|
                0 <= i < claims ==> #[trigger] is_full(extents@, i, *config, ticket(stride, i)),
        invariant
            config.wf(),
            config.count == 0,
            config.seek * config.block_size + input@.len() <= u64::MAX,
            total == input@.len(),
            block_size == config.block_size,
            from == region_start(input@.len(), (config.skip * block_size) as u64),
            rest == input@.len() - from,
            cursor.wf(),
            cursor.stride == stride,
            claims == extents@.len(),
            reached == ticket(stride, claims).start,
            covers(*config, input@, extents@, results@, reached),
            forall|i: int|
                0 <= i < claims ==> #[trigger] is_extent_of(
                    extents@,
                    i,
                    *config,
                    input@,
                    ticket(stride, i),
                ),
        ensures
            rest <= reached * block_size,
            is_ticketed_run(extents@, *config, input@, stride),
        decreases rest - reach(rest, reached * block_size),
    {
        proof {
            lemma_next_ticket(cursor, claims);
        }
        let range = match cursor.claim() {
            Some(range) => range,
            None => {
                proof {
                    assert(reached * block_size >= reached) by (nonlinear_arith)
                        requires
                            reached >= 0,
                            block_size >= 1,
                    ;
                }
                break ;
            },
        };
        proof {
            assert((config.skip + range.start) * block_size == config.skip * block_size
                + reached * block_size) by (nonlinear_arith)
                requires
                    range.start == reached,
            ;
            assert((config.seek + range.start) * block_size == config.seek * block_size
                + reached * block_size) by (nonlinear_arith)
                requires
                    range.start == reached,
            ;
        }
        let engine = match engine_for(config, range) {
            Some(engine) => engine,
            None => {
                break ;
            },
        };
        let ghost earlier = extents@;
        let short = run_range(config, input, range, engine, &mut extents, &mut results);
        proof {
            assert((range.start + range.len) * block_size >= reached * block_size)
                by (nonlinear_arith)
                requires
                    range.start == reached,
                    range.len >= 0,
                    block_size >= 0,
            ;
            assert forall|i: int| 0 <= i < claims + 1 implies #[trigger] is_extent_of(
                extents@,
                i,
                *config,
                input@,
                ticket(stride, i),
            ) by {
                if i < claims {
                    assert(extents@[i] == earlier[i]);
                    assert(is_extent_of(earlier, i, *config, input@, ticket(stride, i)));
                }
            }
            assert forall|i: int| 0 <= i < claims implies #[trigger] is_full(
                extents@,
                i,
                *config,
                ticket(stride, i),
            ) by {
                assert(extents@[i] == earlier[i]);
                assert(is_full(earlier, i, *config, ticket(stride, i)));
            }
            reached = range.start + range.len;
            claims = claims + 1;
        }
        if short {
            cursor.close();
            break ;
        }
    }
    let merged = JobResult::merge(results);
    proof {
        lemma_blocks_for_bound(joined(extents@).len(), config.block_size as nat);
    }
    (extents, merged)
}

/// Runs `config` over `input` with the engine that is chosen for it, and
/// returns what its engines wrote, with the result of the job. `stride` is
/// the number of blocks in a claimed range, for a job that claims ranges.
///
/// Whichever engine runs, the extents hold, end to end, the bytes that a
/// single path writes, each extent where a single path puts its bytes, and
/// the counters are those of a single path. A job that verifies what it
/// copies reports the digest of exactly these bytes.
pub fn run_job_in_memory(config: &CopyConfig, input: &[u8], stride: u64) -> (r: RddResult<
    (Vec<Extent>, JobResult),
>)
    requires
        config.wf(),
        stride > 0,
        config.seek * config.block_size + input@.len() <= u64::MAX,
        config.verification_algo is Some ==> input@.len() <= MAX_DIGEST_INPUT,
    ensures
        r is Err <==> engine_kind(*config) == EngineKind::Partitioned && !range_fits(
            *config,
            last_range(*config),
        ),
        r matches Err(e) ==> e@ == Fault::Config(ranges_too_far_text()),
        r matches Ok(out) ==> is_job(out.0@, out.1, *config, input@, config.verification_algo)
            && match engine_kind(*config) {
            EngineKind::SinglePath => out.0@.len() == 1 && out.0@[0].offset == config.seek
                * config.block_size,
            EngineKind::Partitioned => is_partitioned_run(out.0@, *config, input@),
            EngineKind::Ticketed => is_ticketed_run(out.0@, *config, input@, stride),
        },
{
    match select_engine(config) {
        EngineKind::SinglePath => {
            let (data, result) = copy_in_memory(config, input);
            let mut extents: Vec<Extent> = Vec::new();
            extents.push(Extent { offset: config.seek_bytes(), data });
            proof {
                assert(extents@.drop_last() == Seq::<Extent>::empty());
                assert(joined(extents@.drop_last()) == Seq::<u8>::empty());
                assert(joined(extents@) == data@);
                assert(extents@.take(0) == Seq::<Extent>::empty());
            }
            Ok((extents, result))
        },
        EngineKind::Partitioned => copy_sharded_in_memory(config, input),
        EngineKind::Ticketed => Ok(copy_ticketed_in_memory(config, input, stride)),
    }
}

/// A job leaves the same file whatever engine runs it, and in whatever
/// order its engines write: the file that a single path leaves, which
/// writes all the bytes in one run behind the output's start offset.
pub proof fn lemma_job_leaves_file_of_single_path(
    extents: Seq<Extent>,
    result: JobResult,
    config: CopyConfig,
    input: Seq<u8>,
    verify: Option<HashAlgorithm>,
    order: Seq<int>,
    whole: Extent,
)
    requires
        is_job(extents, result, config, input, verify),
        names_all(order, extents.len()),
        whole.offset == config.seek * config.block_size,
        whole.data@ == transferred(input, single_path(config)),
    ensures
        image(extents, order) == image(seq![whole], seq![0int]),
{
    lemma_extents_leave_file_of_whole(whole, extents, order);
}

/// The digest that a verified job reports is the digest of the region of
/// the input that the job moves, as anyone computes it from the input
/// alone, whatever engine ran the job.
pub proof fn lemma_job_digest_is_that_of_region(
    extents: Seq<Extent>,
    result: JobResult,
    config: CopyConfig,
    input: Seq<u8>,
    algorithm: HashAlgorithm,
)
    requires
        is_job(extents, result, config, input, Some(algorithm)),
    ensures
        result.verification_digest is Some,
        result.verification_digest->0@ == digest_of(
            algorithm,
            transferred(input, single_path(config)),
        ),
{
}

} // verus!
