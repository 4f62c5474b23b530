//! The generator of the draws: a seed that is read four bytes at a time
//! and hashed when it runs out.

use vstd::prelude::*;
use vstd::slice::slice_subrange;
use dharitri_sc::codec::TopDecode;

verus! {

/// The number of seed bytes that one draw consumes.
pub const USIZE_BYTES: usize = 4;

/// The length of a seed, which is that of a SHA-256 digest.
pub const HASH_LEN: usize = 32;

/// A digest, as the seed of a generator.
pub type Hash = [u8; HASH_LEN];

/// A generator of draws that depend on nothing but its seed and its cursor.
///
/// Each draw reads four seed bytes at the cursor. When fewer than four are
/// left, the seed is replaced by its own digest and the cursor starts over.
#[derive(Clone, Copy, Debug, PartialEq, Eq)]
pub struct Random {
    pub seed: Hash,
    pub index: usize,
}

/// What a generator is made of: the seed bytes and the cursor.
pub struct RandomState {
    pub seed: Seq<u8>,
    pub index: nat,
}

/// The SHA-256 digest of `data`.
pub uninterp spec fn sha256_digest(data: Seq<u8>) -> [u8; 32];

/// The number that four bytes spell, most significant byte first.
#[verifier::opaque]
pub open spec fn be_u32(bytes: Seq<u8>) -> nat {
    (bytes[0] as nat) * 0x100_0000 + (bytes[1] as nat) * 0x1_0000 + (bytes[2] as nat) * 0x100
        + (bytes[3] as nat)
}

/// The state from which the next draw reads: `s` itself, or, where `s` has
/// fewer than four bytes left, the digest of its seed with the cursor at 0.
pub open spec fn refreshed(s: RandomState) -> RandomState {
    if s.index + USIZE_BYTES > HASH_LEN {
        RandomState { seed: sha256_digest(s.seed)@, index: 0 }
    } else {
        s
    }
}

/// The number that the next draw from `s` yields.
pub open spec fn next_value(s: RandomState) -> nat {
    let r = refreshed(s);
    be_u32(r.seed.subrange(r.index as int, r.index + USIZE_BYTES))
}

/// The state that the next draw from `s` leaves behind.
pub open spec fn advanced(s: RandomState) -> RandomState {
    let r = refreshed(s);
    RandomState { seed: r.seed, index: (r.index + USIZE_BYTES) as nat }
}

/// Brings a drawn number into `[min, max)`; `min` itself where the range is empty.
pub open spec fn reduce_to_range(rand: nat, min: nat, max: nat) -> nat {
    if min >= max {
        min
    } else {
        min + rand % ((max - min) as nat)
    }
}

impl RandomState {
    /// Whether the seed has the length of a digest and the cursor lies
    /// within it, as after any draw.
    pub open spec fn settled(self) -> bool {
        self.seed.len() == HASH_LEN && self.index <= HASH_LEN
    }
}

/// A draw leaves a seed of the length of a digest, and the cursor within it.
pub proof fn lemma_advanced_settled(s: RandomState)
    requires
        s.seed.len() == HASH_LEN,
    ensures
        advanced(s).settled(),
{
}

/// The values of successive ranged draws from `s`, one for each range of `ranges`.
pub open spec fn draws(s: RandomState, ranges: Seq<(nat, nat)>) -> Seq<nat>
    decreases ranges.len(),
{
    if ranges.len() == 0 {
        Seq::empty()
    } else {
        seq![reduce_to_range(next_value(s), ranges[0].0, ranges[0].1)] + draws(
            advanced(s),
            ranges.drop_first(),
        )
    }
}

/// The state that `count` successive draws from `s` leave behind.
pub open spec fn after_draws(s: RandomState, count: nat) -> RandomState
    decreases count,
{
    if count == 0 {
        s
    } else {
        after_draws(advanced(s), (count - 1) as nat)
    }
}

/// Draws depend on nothing but the seed, the cursor and the ranges asked
/// for: two generators with the same seed and cursor yield, for the same
/// ranges, the same values, and are left with the same seed and cursor.
pub proof fn lemma_draws_are_determined(a: Random, b: Random, ranges: Seq<(nat, nat)>)
    requires
        a.seed@ == b.seed@,
        a.index == b.index,
    ensures
        draws(a@, ranges) == draws(b@, ranges),
        after_draws(a@, ranges.len()) == after_draws(b@, ranges.len()),
{
    assert(a@ == b@);
}

/// The first of several draws is the draw that [`Random::next_usize_in_range`]
/// makes, and the others are those from the state that it leaves.
pub proof fn lemma_draws_unfold(s: RandomState, ranges: Seq<(nat, nat)>)
    requires
        ranges.len() > 0,
    ensures
        draws(s, ranges)[0] == reduce_to_range(next_value(s), ranges[0].0, ranges[0].1),
        draws(s, ranges).len() == ranges.len(),
        draws(s, ranges).skip(1) == draws(advanced(s), ranges.drop_first()),
    decreases ranges.len(),
{
    if ranges.len() > 1 {
        lemma_draws_unfold(advanced(s), ranges.drop_first());
    } else {
        assert(ranges.drop_first().len() == 0);
    }
    assert(draws(s, ranges).skip(1) == draws(advanced(s), ranges.drop_first()));
}

/// SHA-256 of a seed, by `dharitri_chain_vm::crypto_functions::sha256`. The
/// digest is taken on trust to be a function of the hashed bytes alone, which
/// is what `sha256_digest` names.
#[verifier::external_body]
fn sha256(data: &Hash) -> (digest: Hash)
    ensures
        digest == sha256_digest(data@),
{
    dharitri_chain_vm::crypto_functions::sha256(&data[..])
}

/// Top-level decoding of a `usize`, by `dharitri_sc::codec::TopDecode`. On
/// four bytes the codec reads an unsigned big-endian number, which always
/// fits, so that decoding cannot fail.
#[verifier::external_body]
fn top_decode_usize(bytes: &[u8]) -> (value: usize)
    requires
        bytes@.len() == USIZE_BYTES,
    ensures
        value == be_u32(bytes@),
{
    usize::top_decode(bytes).unwrap_or_default()
}

impl View for Random {
    type V = RandomState;

    open spec fn view(&self) -> RandomState {
        RandomState { seed: self.seed@, index: self.index as nat }
    }
}

impl Random {
    /// A generator that starts at byte `index` of `hash`.
    pub fn from_hash(hash: Hash, index: usize) -> (rng: Random)
        ensures
            rng@ == (RandomState { seed: hash@, index: index as nat }),
    {
        Random { seed: hash, index }
    }

    /// Draws the next number: four seed bytes at the cursor, read as a
    /// big-endian number.
    pub fn next_usize(&mut self) -> (rand: usize)
        ensures
            rand == next_value(old(self)@),
            final(self)@ == advanced(old(self)@),
    {
        if self.index > HASH_LEN - USIZE_BYTES {
            self.hash_seed();
        }
        let raw_buffer = slice_subrange(self.seed.as_slice(), self.index, self.index + USIZE_BYTES);
        let rand = top_decode_usize(raw_buffer);
        self.index += USIZE_BYTES;
        rand
    }

    /// Draws a number of `[min, max)`; where `min >= max` the result is `min`.
    /// A number is drawn, and the cursor moves, in either case.
    pub fn next_usize_in_range(&mut self, min: usize, max: usize) -> (rand: usize)
        ensures
            rand == reduce_to_range(next_value(old(self)@), min as nat, max as nat),
            final(self)@ == advanced(old(self)@),
            min < max ==> min <= rand < max,
            min >= max ==> rand == min,
    {
        let rand = self.next_usize();
        if min >= max {
            min
        } else {
            min + rand % (max - min)
        }
    }

    /// Replaces the seed by its digest and moves the cursor to the start.
    fn hash_seed(&mut self)
        ensures
            final(self)@ == (RandomState { seed: sha256_digest(old(self).seed@)@, index: 0 }),
    {
        self.seed = sha256(&self.seed);
        self.index = 0;
    }
}

} // verus!
