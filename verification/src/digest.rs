//! Digests of what was transferred: an accumulator that takes the bytes in
//! order, the lower-case hexadecimal form of a digest, and the comparison
//! with an expected digest.
//!
//! SHA-256 and BLAKE3 themselves are computed by the `sha2` and `blake3`
//! crates. This module states what it relies on: that a hasher's output is a
//! function of the bytes it was given, in the order in which it was given
//! them.

use crate::config::HashAlgorithm;
use crate::error::{Fault, RddError, RddResult};
use sha2::Digest;
use vstd::prelude::*;

verus! {

/// The most bytes that one digest covers. SHA-256 counts its input in bits,
/// in 64 bits.
pub const MAX_DIGEST_INPUT: u64 = 0x1fff_ffff_ffff_ffff;

/// A SHA-256 computation in progress: a `sha2::Sha256`, whose type is an
/// alias that cannot be declared as it is.
#[verifier::external_body]
pub struct Sha256State {
    inner: sha2::Sha256,
}

/// `blake3::Hasher`, a BLAKE3 computation in progress.
#[verifier::external_type_specification]
#[verifier::external_body]
pub struct ExBlake3Hasher(blake3::Hasher);

/// The bytes that a SHA-256 computation has been given so far, in order.
pub uninterp spec fn sha256_absorbed(state: Sha256State) -> Seq<u8>;

/// The SHA-256 digest of `data`.
pub uninterp spec fn sha256_digest(data: Seq<u8>) -> Seq<u8>;

/// The bytes that a BLAKE3 computation has been given so far, in order.
pub uninterp spec fn blake3_absorbed(hasher: blake3::Hasher) -> Seq<u8>;

/// Whether a BLAKE3 computation covers its input from the first byte on, as
/// every hasher does that `blake3::Hasher::new` made.
pub uninterp spec fn blake3_from_start(hasher: blake3::Hasher) -> bool;

/// The BLAKE3 digest of `data`.
pub uninterp spec fn blake3_digest(data: Seq<u8>) -> Seq<u8>;

/// `Sha256::new` of `sha2`: a computation that has been given nothing.
#[verifier::external_body]
fn sha256_start() -> (state: Sha256State)
    ensures
        sha256_absorbed(state) == Seq::<u8>::empty(),
{
    Sha256State { inner: sha2::Sha256::new() }
}

/// `Digest::update` of `sha2::Sha256`: the computation has been given
/// `data` after what it had. The bound keeps the hasher's count of blocks
/// within its 64 bits.
#[verifier::external_body]
fn sha256_update(state: &mut Sha256State, data: &[u8])
    requires
        sha256_absorbed(*old(state)).len() + data@.len() <= MAX_DIGEST_INPUT,
    ensures
        sha256_absorbed(*final(state)) == sha256_absorbed(*old(state)) + data@,
{
    state.inner.update(data);
}

/// `Digest::finalize` of `sha2::Sha256`: the digest of all that the
/// computation was given. The bound keeps the length in bits, which the
/// padding holds, within its 64 bits.
#[verifier::external_body]
fn sha256_finish(state: Sha256State) -> (digest: Vec<u8>)
    requires
        sha256_absorbed(state).len() <= MAX_DIGEST_INPUT,
    ensures
        digest@ == sha256_digest(sha256_absorbed(state)),
{
    state.inner.finalize().to_vec()
}

/// `blake3::Hasher::new`: a computation that has been given nothing and
/// covers its input from the first byte on.
#[verifier::external_body]
fn blake3_start() -> (hasher: blake3::Hasher)
    ensures
        blake3_absorbed(hasher) == Seq::<u8>::empty(),
        blake3_from_start(hasher),
{
    blake3::Hasher::new()
}

/// `blake3::Hasher::update`: the computation has been given `data` after
/// what it had. A hasher that was moved to a later offset accepts only so
/// much input and is left out; the bound keeps the count of chunks within
/// its 64 bits.
#[verifier::external_body]
fn blake3_update(hasher: &mut blake3::Hasher, data: &[u8])
    requires
        blake3_from_start(*old(hasher)),
        blake3_absorbed(*old(hasher)).len() + data@.len() <= MAX_DIGEST_INPUT,
    ensures
        blake3_absorbed(*final(hasher)) == blake3_absorbed(*old(hasher)) + data@,
        blake3_from_start(*final(hasher)),
{
    hasher.update(data);
}

/// `blake3::Hasher::finalize`, and `Hash::as_bytes` on its result: the
/// digest of all that the computation was given. A hasher that was moved to
/// a later offset has no digest of its own and is left out.
#[verifier::external_body]
fn blake3_finish(hasher: &blake3::Hasher) -> (digest: Vec<u8>)
    requires
        blake3_from_start(*hasher),
    ensures
        digest@ == blake3_digest(blake3_absorbed(*hasher)),
{
    hasher.finalize().as_bytes().to_vec()
}

/// The digest of `data` under `algorithm`.
pub open spec fn digest_of(algorithm: HashAlgorithm, data: Seq<u8>) -> Seq<u8> {
    match algorithm {
        HashAlgorithm::Sha256 => sha256_digest(data),
        HashAlgorithm::Blake3 => blake3_digest(data),
    }
}

/// The computation behind an accumulator, chosen once when it is made.
enum DigestState {
    Sha256(Sha256State),
    Blake3(blake3::Hasher),
}

/// Why an update was turned down.
pub enum UpdateFault {
    /// The bytes do not start where the last ones ended.
    OutOfOrder,
    /// The digest would cover more than [`MAX_DIGEST_INPUT`] bytes.
    TooLong,
}

impl UpdateFault {
    /// The text that reports this fault.
    pub open spec fn text(self) -> Seq<char> {
        match self {
            UpdateFault::OutOfOrder => "Digest update does not start where the last one ended."@,
            UpdateFault::TooLong => "Digests of more than 2305843009213693951 bytes"@,
        }
    }

    /// The error that reports this fault: a breakdown of coordination for
    /// bytes out of order, a missing feature for too many of them.
    pub open spec fn fault(self) -> Fault {
        match self {
            UpdateFault::OutOfOrder => Fault::Channel(self.text()),
            UpdateFault::TooLong => Fault::NotImplemented(self.text()),
        }
    }
}

/// The fault of an update of `len` bytes at `offset`, for an accumulator
/// that has taken `taken` bytes: the offset is checked first.
pub open spec fn update_fault(taken: nat, offset: u64, len: nat) -> Option<UpdateFault> {
    if offset != taken {
        Some(UpdateFault::OutOfOrder)
    } else if taken + len > MAX_DIGEST_INPUT {
        Some(UpdateFault::TooLong)
    } else {
        None
    }
}

/// Folds the bytes of one transfer into a digest.
///
/// The bytes are counted from the first byte that the transfer moves, not
/// from the start of either file. Every update names the offset of its
/// first byte, and only the update that goes on where the last one ended
/// is taken, so the digest is always that of a stream without gaps and in
/// order.
pub struct VerificationAccumulator {
    state: DigestState,
    next_offset: u64,
}

impl VerificationAccumulator {
    /// The digest that is being computed.
    pub closed spec fn algorithm(&self) -> HashAlgorithm {
        match self.state {
            DigestState::Sha256(_) => HashAlgorithm::Sha256,
            DigestState::Blake3(_) => HashAlgorithm::Blake3,
        }
    }

    /// The bytes taken so far, in order.
    pub closed spec fn absorbed(&self) -> Seq<u8> {
        match self.state {
            DigestState::Sha256(state) => sha256_absorbed(state),
            DigestState::Blake3(hasher) => blake3_absorbed(hasher),
        }
    }

    /// What holds of an accumulator at all times.
    pub closed spec fn wf(&self) -> bool {
        &&& self.next_offset == self.absorbed().len()
        &&& self.next_offset <= MAX_DIGEST_INPUT
        &&& self.state matches DigestState::Blake3(hasher) ==> blake3_from_start(hasher)
    }

    /// An accumulator that has taken nothing.
    pub fn new(algorithm: HashAlgorithm) -> (accumulator: VerificationAccumulator)
        ensures
            accumulator.wf(),
            accumulator.algorithm() == algorithm,
            accumulator.absorbed() == Seq::<u8>::empty(),
    {
        let state = match algorithm {
            HashAlgorithm::Sha256 => DigestState::Sha256(sha256_start()),
            HashAlgorithm::Blake3 => DigestState::Blake3(blake3_start()),
        };
        VerificationAccumulator { state, next_offset: 0 }
    }

    /// The offset that the next update has to name: the number of bytes
    /// taken so far.
    pub fn next_offset(&self) -> (offset: u64)
        requires
            self.wf(),
        ensures
            offset == self.absorbed().len(),
    {
        self.next_offset
    }

    /// Takes `data` as the bytes of the transfer from `offset` on.
    ///
    /// Bytes that do not go on where the last ones ended, or that would
    /// make the stream too long, are turned down and leave the accumulator
    /// as it was.
    pub fn update(&mut self, offset: u64, data: &[u8]) -> (r: RddResult<()>)
        requires
            old(self).wf(),
        ensures
            final(self).wf(),
            final(self).algorithm() == old(self).algorithm(),
            match update_fault(old(self).absorbed().len(), offset, data@.len()) {
                None => r is Ok && final(self).absorbed() == old(self).absorbed() + data@,
                Some(fault) => r is Err && r->Err_0@ == fault.fault() && final(self).absorbed()
                    == old(self).absorbed(),
            },
    {
        if offset != self.next_offset {
            return Err(
                RddError::Channel(
                    String::from_str("Digest update does not start where the last one ended."),
                ),
            );
        }
        if data.len() as u64 > MAX_DIGEST_INPUT - self.next_offset {
            return Err(
                RddError::NotImplemented(
                    String::from_str("Digests of more than 2305843009213693951 bytes"),
                ),
            );
        }
        match &mut self.state {
            DigestState::Sha256(state) => sha256_update(state, data),
            DigestState::Blake3(hasher) => blake3_update(hasher, data),
        }
        self.next_offset = self.next_offset + data.len() as u64;
        Ok(())
    }

    /// Ends the computation: the digest of all the bytes taken.
    pub fn finalize(self) -> (digest: Vec<u8>)
        requires
            self.wf(),
        ensures
            digest@ == digest_of(self.algorithm(), self.absorbed()),
    {
        match self.state {
            DigestState::Sha256(state) => sha256_finish(state),
            DigestState::Blake3(hasher) => blake3_finish(&hasher),
        }
    }
}

/// The digest of `data` under `algorithm`, computed in one go. `None` for
/// more bytes than a digest covers.
pub fn digest_bytes(algorithm: HashAlgorithm, data: &[u8]) -> (digest: Option<Vec<u8>>)
    ensures
        digest is Some <==> data@.len() <= MAX_DIGEST_INPUT,
        digest matches Some(bytes) ==> bytes@ == digest_of(algorithm, data@),
{
    let mut accumulator = VerificationAccumulator::new(algorithm);
    match accumulator.update(0, data) {
        Ok(()) => {
            assert(Seq::<u8>::empty() + data@ == data@);
            Some(accumulator.finalize())
        },
        Err(_) => None,
    }
}

/// The lower-case hexadecimal digit for a number below sixteen.
pub open spec fn hex_digit(nibble: nat) -> char {
    if nibble < 10 {
        ('0' as u32 + nibble) as char
    } else {
        ('a' as u32 + nibble - 10) as char
    }
}

/// `bytes` in lower-case hexadecimal: two digits for each byte, the high
/// half first.
pub open spec fn hex_of(bytes: Seq<u8>) -> Seq<char> {
    Seq::new(
        2 * bytes.len(),
        |i: int|
            if i % 2 == 0 {
                hex_digit(bytes[i / 2] as nat / 16)
            } else {
                hex_digit(bytes[i / 2] as nat % 16)
            },
    )
}

/// One hexadecimal digit as a string.
fn nibble_text(nibble: u8) -> (text: &'static str)
    requires
        nibble < 16,
    ensures
        text@ == seq![hex_digit(nibble as nat)],
{
    proof {
        reveal_strlit("0");
        reveal_strlit("1");
        reveal_strlit("2");
        reveal_strlit("3");
        reveal_strlit("4");
        reveal_strlit("5");
        reveal_strlit("6");
        reveal_strlit("7");
        reveal_strlit("8");
        reveal_strlit("9");
        reveal_strlit("a");
        reveal_strlit("b");
        reveal_strlit("c");
        reveal_strlit("d");
        reveal_strlit("e");
        reveal_strlit("f");
    }
    match nibble {
        0 => "0",
        1 => "1",
        2 => "2",
        3 => "3",
        4 => "4",
        5 => "5",
        6 => "6",
        7 => "7",
        8 => "8",
        9 => "9",
        10 => "a",
        11 => "b",
        12 => "c",
        13 => "d",
        14 => "e",
        _ => "f",
    }
}

/// Writes `bytes` in lower-case hexadecimal.
pub fn to_hex(bytes: &[u8]) -> (text: String)
    ensures
        text@ == hex_of(bytes@),
{
    let mut text = String::new();
    let mut i: usize = 0;
    while i < bytes.len()
        invariant
            i <= bytes@.len(),
            text@ == hex_of(bytes@.take(i as int)),
        decreases bytes@.len() - i,
    {
        let byte = bytes[i];
        let ghost before = text@;
        text.append(nibble_text(byte / 16));
        text.append(nibble_text(byte % 16));
        proof {
            let grown = hex_of(bytes@.take(i + 1));
            assert(text@.len() == grown.len());
            assert forall|k: int| 0 <= k < grown.len() implies text@[k] == grown[k] by {
                if k < 2 * i {
                    assert(before[k] == hex_of(bytes@.take(i as int))[k]);
                    assert(bytes@.take(i as int)[k / 2] == bytes@.take(i + 1)[k / 2]);
                } else {
                    assert(k / 2 == i);
                    assert(bytes@.take(i + 1)[k / 2] == byte);
                }
            }
            assert(text@ =~= grown);
        }
        i = i + 1;
    }
    assert(bytes@.take(i as int) == bytes@);
    text
}

/// Whether two runs of bytes are the same, byte for byte.
fn same_bytes(a: &[u8], b: &[u8]) -> (same: bool)
    ensures
        same == (a@ == b@),
{
    if a.len() != b.len() {
        return false;
    }
    let mut i: usize = 0;
    while i < a.len()
        invariant
            a@.len() == b@.len(),
            i <= a@.len(),
            a@.take(i as int) == b@.take(i as int),
        decreases a@.len() - i,
    {
        if a[i] != b[i] {
            return false;
        }
        assert(a@.take(i + 1) == a@.take(i as int).push(a@[i as int]));
        assert(b@.take(i + 1) == b@.take(i as int).push(b@[i as int]));
        i = i + 1;
    }
    assert(a@.take(i as int) == a@ && b@.take(i as int) == b@);
    true
}

/// Holds the digest of a transfer against the digest that was expected.
///
/// The two are compared as bytes. Where they differ, the failure shows both
/// in lower-case hexadecimal.
pub fn check_digest(expected: &[u8], actual: &[u8]) -> (r: RddResult<()>)
    ensures
        expected@ == actual@ ==> r is Ok,
        expected@ != actual@ ==> r is Err && r->Err_0@ == (Fault::VerificationFailure {
            expected: hex_of(expected@),
            actual: hex_of(actual@),
        }),
{
    if same_bytes(expected, actual) {
        Ok(())
    } else {
        Err(RddError::VerificationFailure { expected: to_hex(expected), actual: to_hex(actual) })
    }
}

} // verus!
