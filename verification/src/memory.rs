//! Copies between endpoints that live in memory.
//!
//! The input is a run of bytes and the output is what the copy writes, in the
//! order in which it writes it. The driver here does what a driver on files
//! does, with the same reused buffer, so what is proved of it is proved of the
//! engine's decisions: which bytes reach the output, how many, and in how
//! many blocks.

use crate::config::{CopyConfig, HashAlgorithm};
use crate::digest::{digest_of, MAX_DIGEST_INPUT};
use crate::engine::{single_path, Action, CopyEngine, Event, Request, Step};
use crate::result::JobResult;
use crate::session::CopySession;
use vstd::prelude::*;

verus! {

/// Where a copy that starts at byte `start` begins to read in an input of
/// `len` bytes: at `start`, or at the end if the input is shorter.
pub open spec fn region_start(len: nat, start: u64) -> nat {
    if start <= len {
        start as nat
    } else {
        len
    }
}

/// How many bytes a copy moves out of an input of `len` bytes: all that
/// follow its start, or as many as its limit of blocks holds if that is
/// less.
pub open spec fn region_len(len: nat, block_size: usize, limit: Option<u64>, start: u64) -> nat {
    let rest = (len - region_start(len, start)) as nat;
    match limit {
        Some(most) if most * block_size <= rest => (most * block_size) as nat,
        _ => rest,
    }
}

/// The bytes that `engine` moves out of `input`.
pub open spec fn transferred(input: Seq<u8>, engine: CopyEngine) -> Seq<u8> {
    let from = region_start(input.len(), engine.input_start) as int;
    input.subrange(
        from,
        from + region_len(input.len(), engine.block_size, engine.limit, engine.input_start),
    )
}

/// How many blocks of `block_size` bytes it takes to move `bytes` bytes,
/// the last of which may be short.
pub open spec fn blocks_for(bytes: nat, block_size: nat) -> nat {
    if bytes % block_size == 0 {
        bytes / block_size
    } else {
        bytes / block_size + 1
    }
}

/// Whether `written`, with `result`, is the copy that `engine` makes of
/// `input`: the bytes of its region and no others, counters that are exact,
/// no failure, and with `verify` the digest of what was written.
pub open spec fn is_copy(
    written: Seq<u8>,
    result: JobResult,
    input: Seq<u8>,
    engine: CopyEngine,
    verify: Option<HashAlgorithm>,
) -> bool {
    &&& written == transferred(input, engine)
    &&& result.bytes_copied == written.len()
    &&& result.blocks_copied == blocks_for(written.len(), engine.block_size as nat)
    &&& result.error is None
    &&& match verify {
        Some(algorithm) => result.verification_digest is Some && result.verification_digest->0@
            == digest_of(algorithm, written),
        None => result.verification_digest is None,
    }
}

/// A copy can be made again: two copies that the same engine makes of the
/// same input hold the same bytes, count the same and have the same digest.
pub proof fn lemma_copy_repeats(
    first: Seq<u8>,
    first_result: JobResult,
    second: Seq<u8>,
    second_result: JobResult,
    input: Seq<u8>,
    engine: CopyEngine,
    verify: Option<HashAlgorithm>,
)
    requires
        is_copy(first, first_result, input, engine, verify),
        is_copy(second, second_result, input, engine, verify),
    ensures
        first == second,
        first_result.blocks_copied == second_result.blocks_copied,
        first_result.bytes_copied == second_result.bytes_copied,
        verify is Some ==> first_result.verification_digest->0@
            == second_result.verification_digest->0@,
{
}

/// An input that ends before the limit of blocks is reached is copied to
/// its end and no further: what is written is all that the input holds
/// from the start of the region on, with nothing behind it.
pub proof fn lemma_short_input_copied_to_its_end(input: Seq<u8>, engine: CopyEngine)
    requires
        engine.limit matches Some(most) && input.len() - region_start(
            input.len(),
            engine.input_start,
        ) <= most * engine.block_size,
    ensures
        transferred(input, engine) == input.skip(
            region_start(input.len(), engine.input_start) as int,
        ),
        transferred(input, engine).len() == input.len() - region_start(
            input.len(),
            engine.input_start,
        ),
{
}

/// Nothing from before the start of the region is written, and nothing is
/// written twice or out of place: byte `i` of what is written is the byte
/// that stands `i` behind the start in the input.
pub proof fn lemma_copy_starts_at_offset(input: Seq<u8>, engine: CopyEngine, i: int)
    requires
        0 <= i < transferred(input, engine).len(),
    ensures
        engine.input_start + i < input.len(),
        transferred(input, engine)[i] == input[engine.input_start + i],
{
}

/// Whether `request` is what an engine in its current step has asked for.
pub open spec fn awaits(engine: CopyEngine, request: Request) -> bool {
    match engine.step {
        Step::InputOpen => request == Request::OpenInput,
        Step::OutputOpen => request == (Request::OpenOutput { truncate: engine.truncate }),
        Step::InputSeek => request == Request::SeekInput(engine.input_start),
        Step::OutputSeek => request == Request::SeekOutput(engine.output_start),
        Step::Read => request == Request::Read(engine.block_size),
        Step::Write(len) => request == Request::Write(len),
        Step::Flush => request == Request::Flush,
        Step::Done => request == Request::Finish,
        Step::Ready | Step::Failed => false,
    }
}

/// How the counters of an engine that copies out of `input`, the cursor of
/// the input, the bytes written and the buffer hang together.
pub open spec fn tracks(
    engine: CopyEngine,
    input: Seq<u8>,
    cursor: u64,
    written: Seq<u8>,
    buffer: Seq<u8>,
) -> bool {
    let from = region_start(input.len(), engine.input_start) as int;
    let rest = input.len() - from;
    let bytes = engine.bytes_copied as int;
    let blocks = engine.blocks_copied as int;
    &&& engine.wf()
    &&& buffer.len() == engine.block_size
    &&& bytes <= rest
    &&& written == input.subrange(from, from + bytes)
    &&& blocks == blocks_for(bytes as nat, engine.block_size as nat)
    &&& match engine.step {
        Step::InputOpen | Step::OutputOpen | Step::InputSeek => bytes == 0 && cursor == 0,
        Step::OutputSeek | Step::Read => {
            &&& cursor == engine.input_start + bytes
            &&& bytes == blocks * engine.block_size || cursor >= input.len()
        },
        Step::Write(len) => {
            &&& cursor == engine.input_start + bytes + len
            &&& bytes == blocks * engine.block_size
            &&& bytes + len <= rest
            &&& len == engine.block_size || bytes + len == rest
            &&& buffer.take(len as int) == input.subrange(from + bytes, from + bytes + len)
        },
        Step::Flush | Step::Done => bytes == region_len(
            input.len(),
            engine.block_size,
            engine.limit,
            engine.input_start,
        ),
        Step::Ready | Step::Failed => false,
    }
}

/// How far an engine that copies out of an input of `len` bytes is from its
/// end, at most.
pub open spec fn distance(engine: CopyEngine, len: nat, cursor: u64) -> nat {
    let rest = if cursor < len {
        (len - cursor) as nat
    } else {
        0
    };
    match engine.step {
        Step::Ready => 2 * len + 10,
        Step::InputOpen => 2 * len + 9,
        Step::OutputOpen => 2 * len + 8,
        Step::InputSeek => 2 * len + 7,
        Step::OutputSeek => 2 * len + 6,
        Step::Write(_) => 2 * rest + 3,
        Step::Read => 2 * rest + 2,
        Step::Flush => 1,
        Step::Done | Step::Failed => 0,
    }
}

/// `blocks` whole blocks and `len` more bytes, at most a block, take one
/// block more.
proof fn lemma_blocks_for_next(blocks: nat, len: nat, block_size: nat)
    requires
        0 < len <= block_size,
    ensures
        blocks_for(blocks * block_size, block_size) == blocks,
        blocks_for(blocks * block_size + len, block_size) == blocks + 1,
{
    vstd::arithmetic::div_mod::lemma_fundamental_div_mod_converse(
        (blocks * block_size) as int,
        block_size as int,
        blocks as int,
        0,
    );
    if len == block_size {
        assert(blocks * block_size + len == (blocks + 1) * block_size) by (nonlinear_arith)
            requires
                len == block_size,
        ;
        vstd::arithmetic::div_mod::lemma_fundamental_div_mod_converse(
            (blocks * block_size + len) as int,
            block_size as int,
            blocks as int + 1,
            0,
        );
    } else {
        vstd::arithmetic::div_mod::lemma_fundamental_div_mod_converse(
            (blocks * block_size + len) as int,
            block_size as int,
            blocks as int,
            len as int,
        );
    }
}

/// Reads at the cursor as a file does: up to `len` bytes, as many as the
/// input still has, into the start of the buffer. What the buffer held
/// behind them stays there.
fn read_block(input: &[u8], cursor: u64, buffer: &mut Vec<u8>, len: usize) -> (n: usize)
    requires
        len <= old(buffer)@.len(),
    ensures
        final(buffer)@.len() == old(buffer)@.len(),
        cursor >= input@.len() ==> n == 0,
        cursor < input@.len() ==> n == if len <= input@.len() - cursor {
            len as int
        } else {
            input@.len() - cursor
        },
        n > 0 ==> final(buffer)@.take(n as int) == input@.subrange(cursor as int, cursor + n),
        final(buffer)@.skip(n as int) == old(buffer)@.skip(n as int),
{
    let total = input.len();
    if cursor >= total as u64 {
        return 0;
    }
    let at = cursor as usize;
    let rest = total - at;
    let n = if len <= rest {
        len
    } else {
        rest
    };
    let mut i: usize = 0;
    while i < n
        invariant
            i <= n,
            n <= buffer@.len(),
            total == input@.len(),
            at + n <= total,
            buffer@.len() == old(buffer)@.len(),
            buffer@.take(i as int) == input@.subrange(at as int, at + i),
            buffer@.skip(i as int) == old(buffer)@.skip(i as int),
        decreases n - i,
    {
        let ghost filled = buffer@;
        buffer[i] = input[at + i];
        proof {
            assert(buffer@ == filled.update(i as int, input@[at + i]));
            assert(buffer@.take(i + 1) == filled.take(i as int).push(input@[at + i]));
            assert(input@.subrange(at as int, at + i + 1) == input@.subrange(
                at as int,
                at + i,
            ).push(input@[at + i]));
            assert(buffer@.skip(i + 1) == filled.skip(i as int).drop_first());
            assert(old(buffer)@.skip(i + 1) == old(buffer)@.skip(i as int).drop_first());
        }
        i = i + 1;
    }
    n
}

/// Appends the first `len` bytes of the buffer to what was written.
fn write_block(written: &mut Vec<u8>, buffer: &Vec<u8>, len: usize)
    requires
        len <= buffer@.len(),
    ensures
        final(written)@ == old(written)@ + buffer@.take(len as int),
{
    let mut i: usize = 0;
    while i < len
        invariant
            i <= len <= buffer@.len(),
            written@ == old(written)@ + buffer@.take(i as int),
        decreases len - i,
    {
        written.push(buffer[i]);
        i = i + 1;
    }
}

/// Drives `engine` over `input` and returns what it writes, in order, with
/// the result of the job. With `verify`, the result holds the digest of
/// what was written.
///
/// The bytes written are those of the input from the engine's start on, as
/// many as the input has and the limit allows: nothing from before the
/// start, and nothing that a short last block left in the buffer. The
/// counters are exact, and the copy does not fail.
pub fn run_in_memory(engine: CopyEngine, input: &[u8], verify: Option<HashAlgorithm>) -> (out: (
    Vec<u8>,
    JobResult,
))
    requires
        engine.wf(),
        engine.step is Ready,
        engine.blocks_copied == 0,
        engine.bytes_copied == 0,
        verify is Some ==> input@.len() <= MAX_DIGEST_INPUT,
    ensures
        is_copy(out.0@, out.1, input@, engine, verify),
{
    let mut session = CopySession::new(engine, verify);
    let total = input.len();
    let mut buffer: Vec<u8> = vec![0u8; engine.block_size];
    let mut written: Vec<u8> = Vec::new();
    let mut cursor: u64 = 0;
    let mut action = session.advance(Event::Start, buffer.as_slice());
    proof {
        assert(written@ == input@.subrange(
            region_start(input@.len(), engine.input_start) as int,
            region_start(input@.len(), engine.input_start) as int,
        ));
    }
    loop
        invariant
            session.wf(),
            session.algorithm() == verify,
            session.engine().block_size == engine.block_size,
            session.engine().limit == engine.limit,
            session.engine().input_start == engine.input_start,
            session.engine().output_start == engine.output_start,
            session.engine().truncate == engine.truncate,
            session.engine().direct == engine.direct,
            total == input@.len(),
            awaits(session.engine(), action@),
            tracks(session.engine(), input@, cursor, written@, buffer@),
            verify is Some ==> input@.len() <= MAX_DIGEST_INPUT && session.digested() == written@,
        decreases distance(session.engine(), input@.len(), cursor),
    {
        let ghost before = session.engine();
        let ghost from = region_start(input@.len(), before.input_start) as int;
        let ghost bytes = before.bytes_copied as nat;
        let ghost blocks = before.blocks_copied as nat;
        let event = match action {
            Action::Finish => {
                return (written, session.result(None));
            },
            Action::Abort(error) => {
                return (written, session.result(Some(error)));
            },
            Action::OpenInput | Action::OpenOutput { .. } => Event::Opened(1),
            Action::SeekOutput(_) | Action::Flush => Event::Completed,
            Action::SeekInput(offset) => {
                cursor = offset;
                Event::Completed
            },
            Action::Read(len) => {
                let n = read_block(input, cursor, &mut buffer, len);
                cursor = cursor + n as u64;
                Event::Read(n)
            },
            Action::Write(len) => {
                write_block(&mut written, &buffer, len);
                proof {
                    assert(written@ == input@.subrange(from, from + bytes + len));
                    lemma_blocks_for_next(blocks, len as nat, before.block_size as nat);
                    assert((blocks + 1) * before.block_size == blocks * before.block_size
                        + before.block_size) by (nonlinear_arith);
                }
                Event::Completed
            },
        };
        proof {
            if let Some(most) = before.limit {
                assert(blocks * before.block_size <= most * before.block_size) by (nonlinear_arith)
                    requires
                        blocks <= most,
                ;
                if blocks + 1 <= most {
                    assert((blocks + 1) * before.block_size <= most * before.block_size)
                        by (nonlinear_arith)
                        requires
                            blocks + 1 <= most,
                    ;
                }
            }
            lemma_blocks_for_next(blocks, before.block_size as nat, before.block_size as nat);
            assert(blocks == 0 ==> blocks * before.block_size == 0) by (nonlinear_arith);
            assert(before.limit == Some(0u64) ==> 0u64 * before.block_size == 0);
        }
        action = session.advance(event, buffer.as_slice());
    }
}

/// Runs the whole of `config` on one path over `input`: the copy that a
/// single-threaded run makes from a file with these bytes, as the bytes
/// that it writes from the output's start offset on.
pub fn copy_in_memory(config: &CopyConfig, input: &[u8]) -> (out: (Vec<u8>, JobResult))
    requires
        config.wf(),
        config.verification_algo is Some ==> input@.len() <= MAX_DIGEST_INPUT,
    ensures
        is_copy(out.0@, out.1, input@, single_path(*config), config.verification_algo),
{
    run_in_memory(CopyEngine::new(config), input, config.verification_algo)
}

} // verus!
