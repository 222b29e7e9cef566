//! What the digest of a byte sequence is.
//!
//! `xxh64` is the definition that every hashing function of this crate is
//! proved against. It reads the whole input at once: the chunks go through
//! the accumulator, what is left after the last whole chunk is folded in word
//! by word and byte by byte, and the avalanche finishes.

use crate::accumulator::XxCore;
use crate::mixing::{absorb_u32, absorb_u64, absorb_u8, avalanche, PRIME_5};
use crate::words::{u32_at, u64_at};
use vstd::prelude::*;
use vstd::wrapping::u64_specs::wrapping_add;

verus! {

/// `h` after the first `n` 64-bit words of `bytes` are folded in, in order.
pub open spec fn absorb_u64s(h: u64, bytes: Seq<u8>, n: nat) -> u64
    decreases n,
{
    if n == 0 {
        h
    } else {
        absorb_u64(absorb_u64s(h, bytes, (n - 1) as nat), u64_at(bytes, n - 1))
    }
}

/// `h` after the first `n` 32-bit words of `bytes` are folded in, in order.
pub open spec fn absorb_u32s(h: u64, bytes: Seq<u8>, n: nat) -> u64
    decreases n,
{
    if n == 0 {
        h
    } else {
        absorb_u32(absorb_u32s(h, bytes, (n - 1) as nat), u32_at(bytes, n - 1))
    }
}

/// `h` after the first `n` bytes of `bytes` are folded in, in order.
pub open spec fn absorb_u8s(h: u64, bytes: Seq<u8>, n: nat) -> u64
    decreases n,
{
    if n == 0 {
        h
    } else {
        absorb_u8(absorb_u8s(h, bytes, (n - 1) as nat), bytes[n - 1])
    }
}

/// `h` after `tail`, the input that follows the last whole chunk, is folded
/// in: first its whole 64-bit words, then the whole 32-bit words of what
/// remains, then the bytes left over.
pub open spec fn absorb_tail(h: u64, tail: Seq<u8>) -> u64 {
    let n = tail.len() as int;
    let u64s = tail.take(n - n % 8);
    let u32s = tail.subrange(n - n % 8, n - n % 4);
    let u8s = tail.skip(n - n % 4);
    let after_u64s = absorb_u64s(h, u64s, u64s.len() / 8);
    let after_u32s = absorb_u32s(after_u64s, u32s, u32s.len() / 4);
    absorb_u8s(after_u32s, u8s, u8s.len())
}

/// The value the tail is folded into: the merged lanes once a whole chunk
/// has been seen, a value made from the seed alone before that, and in both
/// cases the length of the input added.
pub open spec fn base(seed: u64, input: Seq<u8>) -> u64 {
    let n = input.len();
    let start = if n >= 32 {
        XxCore::seeded(seed).ingest(input, n / 32).merged()
    } else {
        wrapping_add(seed, PRIME_5)
    };
    wrapping_add(start, (n % 0x1_0000_0000_0000_0000) as u64)
}

/// The 64-bit xxHash of `input` under `seed`.
pub open spec fn xxh64(seed: u64, input: Seq<u8>) -> u64 {
    let n = input.len() as int;
    avalanche(absorb_tail(base(seed, input), input.skip(n - n % 32)))
}

} // verus!
