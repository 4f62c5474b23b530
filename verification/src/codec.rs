//! The bytes that a checkpoint carries: numbers in four bytes, most
//! significant byte first, and the generator as a seed with its length.

use vstd::prelude::*;
use crate::random::{be_u32, Random, RandomState, HASH_LEN, USIZE_BYTES};

verus! {

/// The four bytes that spell `value`, most significant byte first. A number
/// of more than 32 bits loses its upper bits.
#[verifier::opaque]
pub open spec fn be_bytes(value: nat) -> Seq<u8> {
    seq![
        (value / 0x100 / 0x100 / 0x100 % 0x100) as u8,
        (value / 0x100 / 0x100 % 0x100) as u8,
        (value / 0x100 % 0x100) as u8,
        (value % 0x100) as u8,
    ]
}

/// Four bytes spell the number that they were written for, up to 32 bits.
pub proof fn lemma_be_round_trip(value: nat)
    ensures
        be_bytes(value).len() == 4,
        be_u32(be_bytes(value)) == value % 0x1_0000_0000,
{
    reveal(be_bytes);
    reveal(be_u32);
    let q1 = value / 0x100;
    let q2 = q1 / 0x100;
    let q3 = q2 / 0x100;
    let q4 = q3 / 0x100;
    let b3 = value % 0x100;
    let b2 = q1 % 0x100;
    let b1 = q2 % 0x100;
    let b0 = q3 % 0x100;
    assert(value == q1 * 0x100 + b3);
    assert(q1 == q2 * 0x100 + b2);
    assert(q2 == q3 * 0x100 + b1);
    assert(q3 == q4 * 0x100 + b0);
    let low = b0 * 0x100_0000 + b1 * 0x1_0000 + b2 * 0x100 + b3;
    assert(value == q4 * 0x1_0000_0000 + low);
    assert(0 <= low < 0x1_0000_0000);
    assert(low == value % 0x1_0000_0000) by {
        vstd::arithmetic::div_mod::lemma_fundamental_div_mod_converse(
            value as int,
            0x1_0000_0000,
            q4 as int,
            low as int,
        );
    }
    let bytes = be_bytes(value);
    assert(bytes[0] == b0 as u8);
    assert(bytes[1] == b1 as u8);
    assert(bytes[2] == b2 as u8);
    assert(bytes[3] == b3 as u8);
}

/// Appends the four bytes that spell `value` to `dest`.
pub fn push_be_u32(dest: &mut Vec<u8>, value: usize)
    ensures
        final(dest)@ == old(dest)@ + be_bytes(value as nat),
{
    dest.push((value / 0x100 / 0x100 / 0x100 % 0x100) as u8);
    dest.push((value / 0x100 / 0x100 % 0x100) as u8);
    dest.push((value / 0x100 % 0x100) as u8);
    dest.push((value % 0x100) as u8);
    assert(dest@ == old(dest)@ + be_bytes(value as nat)) by {
        reveal(be_bytes);
    }
}

/// Reads the number that the four bytes at `offset` spell.
pub fn read_be_u32(bytes: &[u8], offset: usize) -> (value: usize)
    requires
        offset + USIZE_BYTES <= bytes@.len(),
    ensures
        value == be_u32(bytes@.subrange(offset as int, offset + USIZE_BYTES)),
{
    let b0 = bytes[offset] as usize;
    let b1 = bytes[offset + 1] as usize;
    let b2 = bytes[offset + 2] as usize;
    let b3 = bytes[offset + 3] as usize;
    proof {
        reveal(be_u32);
    }
    b0 * 0x100_0000 + b1 * 0x1_0000 + b2 * 0x100 + b3
}

/// A value that a checkpoint can carry as bytes: the encoding can be read
/// back, and reading gives back the value that was written.
pub trait CheckpointPayload: View + Sized {
    /// The bytes that stand for the value `v`.
    spec fn encoding(v: Self::V) -> Seq<u8>;

    /// The value that `bytes` stand for, where they stand for one.
    spec fn decoding(bytes: Seq<u8>) -> Option<Self::V>;

    /// Whether `v` is a value that its encoding gives back unchanged.
    spec fn encodable(v: Self::V) -> bool;

    /// Reading the encoding of an encodable value gives the value back.
    proof fn lemma_round_trip(v: Self::V)
        requires
            Self::encodable(v),
        ensures
            Self::decoding(Self::encoding(v)) == Some(v),
    ;

    /// Writes the value as bytes.
    fn encode(&self) -> (bytes: Vec<u8>)
        ensures
            bytes@ == Self::encoding(self@),
    ;

    /// Reads a value from bytes; `None` where the bytes stand for none.
    fn decode(bytes: &[u8]) -> (value: Option<Self>)
        ensures
            match value {
                Some(v) => Self::decoding(bytes@) == Some(v@),
                None => Self::decoding(bytes@) is None,
            },
    ;
}

/// The encoding of a generator: the length of the seed, the seed, and the
/// cursor, each number in four bytes.
pub open spec fn random_encoding(s: RandomState) -> Seq<u8> {
    be_bytes(s.seed.len()) + s.seed + be_bytes(s.index)
}

/// The length of the encoding of a generator.
pub const RANDOM_ENCODED_LEN: usize = 40;

/// The generator that the first 40 bytes of `bytes` stand for, where they
/// start with the length of a seed.
pub open spec fn random_decoding(bytes: Seq<u8>) -> Option<RandomState> {
    if bytes.len() >= RANDOM_ENCODED_LEN && be_u32(bytes.subrange(0, 4)) == HASH_LEN {
        Some(
            RandomState {
                seed: bytes.subrange(4, 36),
                index: be_u32(bytes.subrange(36, 40)),
            },
        )
    } else {
        None
    }
}

/// Appends the encoding of `rng` to `dest`.
pub fn push_random(dest: &mut Vec<u8>, rng: &Random)
    ensures
        final(dest)@ == old(dest)@ + random_encoding(rng@),
{
    push_be_u32(dest, HASH_LEN);
    let mut i: usize = 0;
    while i < HASH_LEN
        invariant
            i <= HASH_LEN,
            dest@ == old(dest)@ + be_bytes(HASH_LEN as nat) + rng.seed@.subrange(0, i as int),
        decreases HASH_LEN - i,
    {
        dest.push(rng.seed[i]);
        assert(rng.seed@.subrange(0, i + 1) == rng.seed@.subrange(0, i as int).push(rng.seed@[i as int]));
        i += 1;
    }
    assert(rng.seed@.subrange(0, HASH_LEN as int) == rng.seed@);
    push_be_u32(dest, rng.index);
}

/// Reads the generator that the 40 bytes at `offset` stand for.
pub fn read_random(bytes: &[u8], offset: usize) -> (rng: Option<Random>)
    requires
        offset + RANDOM_ENCODED_LEN <= bytes@.len(),
    ensures
        match rng {
            Some(rng) => random_decoding(bytes@.skip(offset as int)) == Some(rng@),
            None => random_decoding(bytes@.skip(offset as int)) is None,
        },
{
    let ghost tail = bytes@.skip(offset as int);
    let len = bytes.len();
    assert(tail.subrange(0, 4) == bytes@.subrange(offset as int, offset + 4));
    assert(tail.subrange(36, 40) == bytes@.subrange(offset + 36, offset + 40));
    let seed_len = read_be_u32(bytes, offset);
    if seed_len != HASH_LEN {
        return None;
    }
    let mut seed: crate::random::Hash = [0u8; HASH_LEN];
    let mut i: usize = 0;
    while i < HASH_LEN
        invariant
            i <= HASH_LEN,
            offset + RANDOM_ENCODED_LEN <= bytes@.len(),
            len == bytes@.len(),
            tail == bytes@.skip(offset as int),
            forall|j: int| 0 <= j < i ==> seed@[j] == tail[4 + j],
        decreases HASH_LEN - i,
    {
        seed[i] = bytes[offset + 4 + i];
        i += 1;
    }
    assert(seed@ == tail.subrange(4, 36));
    let index = read_be_u32(bytes, offset + 36);
    Some(Random { seed, index })
}

impl CheckpointPayload for Random {
    open spec fn encoding(v: RandomState) -> Seq<u8> {
        random_encoding(v)
    }

    open spec fn decoding(bytes: Seq<u8>) -> Option<RandomState> {
        if bytes.len() == RANDOM_ENCODED_LEN {
            random_decoding(bytes)
        } else {
            None
        }
    }

    open spec fn encodable(v: RandomState) -> bool {
        v.seed.len() == HASH_LEN && v.index < 0x1_0000_0000
    }

    proof fn lemma_round_trip(v: RandomState) {
        lemma_random_round_trip(v);
    }

    fn encode(&self) -> (bytes: Vec<u8>) {
        let mut bytes = Vec::new();
        push_random(&mut bytes, self);
        bytes
    }

    fn decode(bytes: &[u8]) -> (value: Option<Random>) {
        if bytes.len() != RANDOM_ENCODED_LEN {
            return None;
        }
        assert(bytes@.skip(0) == bytes@);
        read_random(bytes, 0)
    }
}

/// The encoding of a generator with a seed of 32 bytes and a cursor of at
/// most 32 bits reads back as that generator.
pub proof fn lemma_random_round_trip(s: RandomState)
    requires
        s.seed.len() == HASH_LEN,
        s.index < 0x1_0000_0000,
    ensures
        random_encoding(s).len() == RANDOM_ENCODED_LEN,
        random_decoding(random_encoding(s)) == Some(s),
{
    let bytes = random_encoding(s);
    lemma_be_round_trip(s.seed.len());
    lemma_be_round_trip(s.index);
    assert(bytes.subrange(0, 4) == be_bytes(s.seed.len()));
    assert(bytes.subrange(4, 36) == s.seed);
    assert(bytes.subrange(36, 40) == be_bytes(s.index));
}

} // verus!
