//! The arithmetic primitives of the hash: the five primes, bit rotation, and
//! the mixing steps built from them. All arithmetic is modulo 2^64.

use vstd::prelude::*;
use vstd::wrapping::u64_specs::{wrapping_add, wrapping_mul};

verus! {

pub const PRIME_1: u64 = 11_400_714_785_074_694_791;

pub const PRIME_2: u64 = 14_029_467_366_897_019_727;

pub const PRIME_3: u64 = 1_609_587_929_392_839_161;

pub const PRIME_4: u64 = 9_650_029_242_287_828_579;

pub const PRIME_5: u64 = 2_870_177_450_012_600_261;

/// `x` rotated left by `r` bit positions: the bits pushed out at the top
/// come back in at the bottom. Only `r` modulo 64 counts.
pub open spec fn rotl(x: u64, r: u32) -> u64 {
    let by = r % 64;
    if by == 0 {
        x
    } else {
        (x << by) | (x >> ((64 - by) as u32))
    }
}

/// One accumulator step: the lane `acc` after taking in the word `word`.
#[verifier::opaque]
pub open spec fn round(acc: u64, word: u64) -> u64 {
    wrapping_mul(rotl(wrapping_add(acc, wrapping_mul(word, PRIME_2)), 31), PRIME_1)
}

/// Folds the final value `lane` of one accumulator lane into the combined hash `h`.
#[verifier::opaque]
pub open spec fn merge_lane(h: u64, lane: u64) -> u64 {
    wrapping_add(wrapping_mul(h ^ round(0, lane), PRIME_1), PRIME_4)
}

/// Folds one trailing 8-byte word into the hash.
#[verifier::opaque]
pub open spec fn absorb_u64(h: u64, word: u64) -> u64 {
    wrapping_add(wrapping_mul(rotl(h ^ round(0, word), 27), PRIME_1), PRIME_4)
}

/// Folds one trailing 4-byte word into the hash.
#[verifier::opaque]
pub open spec fn absorb_u32(h: u64, word: u32) -> u64 {
    wrapping_add(
        wrapping_mul(rotl(h ^ wrapping_mul(word as u64, PRIME_1), 23), PRIME_2),
        PRIME_3,
    )
}

/// Folds one trailing byte into the hash.
#[verifier::opaque]
pub open spec fn absorb_u8(h: u64, byte: u8) -> u64 {
    wrapping_mul(rotl(h ^ wrapping_mul(byte as u64, PRIME_5), 11), PRIME_1)
}

/// The final avalanche, which spreads every input bit over the whole digest.
#[verifier::opaque]
pub open spec fn avalanche(h: u64) -> u64 {
    let a = h ^ (h >> 33);
    let b = wrapping_mul(a, PRIME_2);
    let c = b ^ (b >> 29);
    let d = wrapping_mul(c, PRIME_3);
    d ^ (d >> 32)
}

/// Rotates `x` left by `r` bit positions.
pub fn rotate_left(x: u64, r: u32) -> (out: u64)
    ensures
        out == rotl(x, r),
{
    let by: u32 = r % 64;
    if by == 0 {
        x
    } else {
        (x << by) | (x >> (64 - by))
    }
}

/// One accumulator step: the lane `acc` takes in `word`.
pub fn ingest_one_number(acc: u64, word: u64) -> (out: u64)
    ensures
        out == round(acc, word),
{
    proof {
        reveal(round);
    }
    let value: u64 = word.wrapping_mul(PRIME_2);
    let sum: u64 = acc.wrapping_add(value);
    rotate_left(sum, 31).wrapping_mul(PRIME_1)
}

/// Folds the final value of one accumulator lane into the combined hash.
pub fn mix_one(hash: u64, lane: u64) -> (out: u64)
    ensures
        out == merge_lane(hash, lane),
{
    let value: u64 = rotate_left(lane.wrapping_mul(PRIME_2), 31).wrapping_mul(PRIME_1);
    proof {
        reveal(round);
        reveal(merge_lane);
        assert(wrapping_add(0, wrapping_mul(lane, PRIME_2)) == wrapping_mul(lane, PRIME_2));
    }
    (hash ^ value).wrapping_mul(PRIME_1).wrapping_add(PRIME_4)
}

/// Folds one trailing 8-byte word into the hash.
pub fn fold_u64(hash: u64, word: u64) -> (out: u64)
    ensures
        out == absorb_u64(hash, word),
{
    let mut k1: u64 = word.wrapping_mul(PRIME_2);
    k1 = rotate_left(k1, 31);
    k1 = k1.wrapping_mul(PRIME_1);
    proof {
        reveal(round);
        reveal(absorb_u64);
        assert(wrapping_add(0, wrapping_mul(word, PRIME_2)) == wrapping_mul(word, PRIME_2));
    }
    let mut out: u64 = hash ^ k1;
    out = rotate_left(out, 27);
    out = out.wrapping_mul(PRIME_1);
    out.wrapping_add(PRIME_4)
}

/// Folds one trailing 4-byte word into the hash.
pub fn fold_u32(hash: u64, word: u32) -> (out: u64)
    ensures
        out == absorb_u32(hash, word),
{
    proof {
        reveal(absorb_u32);
    }
    let k1: u64 = (word as u64).wrapping_mul(PRIME_1);
    let mut out: u64 = hash ^ k1;
    out = rotate_left(out, 23);
    out = out.wrapping_mul(PRIME_2);
    out.wrapping_add(PRIME_3)
}

/// Folds one trailing byte into the hash.
pub fn fold_u8(hash: u64, byte: u8) -> (out: u64)
    ensures
        out == absorb_u8(hash, byte),
{
    proof {
        reveal(absorb_u8);
    }
    let k1: u64 = (byte as u64).wrapping_mul(PRIME_5);
    let mut out: u64 = hash ^ k1;
    out = rotate_left(out, 11);
    out.wrapping_mul(PRIME_1)
}

/// The final intermixing.
pub fn intermix(hash: u64) -> (out: u64)
    ensures
        out == avalanche(hash),
{
    proof {
        reveal(avalanche);
    }
    let mut out: u64 = hash ^ (hash >> 33);
    out = out.wrapping_mul(PRIME_2);
    out = out ^ (out >> 29);
    out = out.wrapping_mul(PRIME_3);
    out ^ (out >> 32)
}

} // verus!
