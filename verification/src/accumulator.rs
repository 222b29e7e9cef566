//! The accumulator: four independent 64-bit lanes that take in the input one
//! 32-byte chunk at a time, each lane reading its own word of the chunk.

use crate::mixing::{
    ingest_one_number, merge_lane, mix_one, rotate_left, rotl, round, PRIME_1, PRIME_2,
};
use crate::words::{read_u64, u64_at};
use vstd::prelude::*;
use vstd::wrapping::u64_specs::{wrapping_add, wrapping_sub};

verus! {

/// Bytes in one chunk.
pub const CHUNK_SIZE: usize = 32;

/// The four lanes. Every combination of lane values is a valid accumulator.
#[derive(Copy, Clone, Debug, PartialEq, Eq, Structural)]
pub struct XxCore {
    pub v1: u64,
    pub v2: u64,
    pub v3: u64,
    pub v4: u64,
}

impl XxCore {
    /// The lanes as the seed alone determines them, before any input.
    pub open spec fn seeded(seed: u64) -> XxCore {
        XxCore {
            v1: wrapping_add(wrapping_add(seed, PRIME_1), PRIME_2),
            v2: wrapping_add(seed, PRIME_2),
            v3: seed,
            v4: wrapping_sub(seed, PRIME_1),
        }
    }

    /// The lanes after one chunk: lane `k` takes in the `k`-th word of `chunk`.
    pub open spec fn step(self, chunk: Seq<u8>) -> XxCore {
        XxCore {
            v1: round(self.v1, u64_at(chunk, 0)),
            v2: round(self.v2, u64_at(chunk, 1)),
            v3: round(self.v3, u64_at(chunk, 2)),
            v4: round(self.v4, u64_at(chunk, 3)),
        }
    }

    /// The lanes after the first `n` chunks of `bytes`, taken in order.
    pub open spec fn ingest(self, bytes: Seq<u8>, n: nat) -> XxCore
        decreases n,
    {
        if n == 0 {
            self
        } else {
            self.ingest(bytes, (n - 1) as nat).step(bytes.subrange(32 * (n - 1), 32 * (n - 1) + 32))
        }
    }

    /// The four lanes combined into one value.
    pub open spec fn merged(self) -> u64 {
        let h = wrapping_add(
            wrapping_add(wrapping_add(rotl(self.v1, 1), rotl(self.v2, 7)), rotl(self.v3, 12)),
            rotl(self.v4, 18),
        );
        merge_lane(merge_lane(merge_lane(merge_lane(h, self.v1), self.v2), self.v3), self.v4)
    }

    /// The first `n` chunks are taken in alike from any two sequences that
    /// agree on their first `32 * n` bytes.
    pub proof fn lemma_ingest_prefix(self, a: Seq<u8>, b: Seq<u8>, n: nat)
        requires
            32 * n <= a.len(),
            32 * n <= b.len(),
            a.take(32 * n as int) == b.take(32 * n as int),
        ensures
            self.ingest(a, n) == self.ingest(b, n),
        decreases n,
    {
        if n > 0 {
            let hi = 32 * n as int;
            let lo = hi - 32;
            assert(a.take(lo) =~= a.take(hi).take(lo));
            assert(b.take(lo) =~= b.take(hi).take(lo));
            self.lemma_ingest_prefix(a, b, (n - 1) as nat);
            assert(a.subrange(lo, hi) =~= a.take(hi).subrange(lo, hi));
            assert(b.subrange(lo, hi) =~= b.take(hi).subrange(lo, hi));
        }
    }

    /// Taking in `n + m` chunks is taking in the first `n` and then the `m`
    /// that follow them.
    pub proof fn lemma_ingest_split(self, bytes: Seq<u8>, n: nat, m: nat)
        requires
            32 * (n + m) <= bytes.len(),
        ensures
            self.ingest(bytes, n + m) == self.ingest(bytes, n).ingest(
                bytes.skip(32 * n as int),
                m,
            ),
        decreases m,
    {
        if m == 0 {
            assert(n + m == n);
        } else {
            let k = (m - 1) as nat;
            let start = 32 * n as int;
            let lo = 32 * k as int;
            let rest = bytes.skip(start);
            let mid = self.ingest(bytes, n);
            self.lemma_ingest_split(bytes, n, k);
            assert((n + m - 1) as nat == n + k);
            assert(bytes.subrange(start + lo, start + lo + 32) =~= rest.subrange(lo, lo + 32));
            assert(self.ingest(bytes, n + m) == self.ingest(bytes, n + k).step(
                bytes.subrange(start + lo, start + lo + 32),
            ));
            assert(mid.ingest(rest, m) == mid.ingest(rest, k).step(rest.subrange(lo, lo + 32)));
        }
    }

    /// The lanes for `seed`, before any input.
    pub fn with_seed(seed: u64) -> (core: XxCore)
        ensures
            core == XxCore::seeded(seed),
    {
        XxCore {
            v1: seed.wrapping_add(PRIME_1).wrapping_add(PRIME_2),
            v2: seed.wrapping_add(PRIME_2),
            v3: seed,
            v4: seed.wrapping_sub(PRIME_1),
        }
    }

    /// Takes in `chunks`, a run of whole chunks, in order.
    pub fn ingest_chunks(&mut self, chunks: &[u8])
        requires
            chunks@.len() % 32 == 0,
        ensures
            *final(self) == old(self).ingest(chunks@, chunks@.len() / 32),
    {
        let mut v1: u64 = self.v1;
        let mut v2: u64 = self.v2;
        let mut v3: u64 = self.v3;
        let mut v4: u64 = self.v4;
        let count: usize = chunks.len() / CHUNK_SIZE;
        let mut i: usize = 0;
        while i < count
            invariant
                i <= count,
                count == chunks@.len() / 32,
                chunks@.len() % 32 == 0,
                chunks@.len() == chunks.len(),
                (XxCore { v1, v2, v3, v4 }) == old(self).ingest(chunks@, i as nat),
            decreases count - i,
        {
            let n1: u64 = read_u64(chunks, 4 * i);
            let n2: u64 = read_u64(chunks, 4 * i + 1);
            let n3: u64 = read_u64(chunks, 4 * i + 2);
            let n4: u64 = read_u64(chunks, 4 * i + 3);
            proof {
                let chunk = chunks@.subrange(32 * i, 32 * (i + 1));
                assert(chunk.subrange(0, 8) =~= chunks@.subrange(32 * i, 32 * i + 8));
                assert(chunk.subrange(8, 16) =~= chunks@.subrange(32 * i + 8, 32 * i + 16));
                assert(chunk.subrange(16, 24) =~= chunks@.subrange(32 * i + 16, 32 * i + 24));
                assert(chunk.subrange(24, 32) =~= chunks@.subrange(32 * i + 24, 32 * i + 32));
            }
            v1 = ingest_one_number(v1, n1);
            v2 = ingest_one_number(v2, n2);
            v3 = ingest_one_number(v3, n3);
            v4 = ingest_one_number(v4, n4);
            i = i + 1;
        }
        self.v1 = v1;
        self.v2 = v2;
        self.v3 = v3;
        self.v4 = v4;
    }

    /// Combines the four lanes into one value.
    pub fn finish(&self) -> (hash: u64)
        ensures
            hash == self.merged(),
    {
        let mut hash: u64 = rotate_left(self.v1, 1);
        hash = hash.wrapping_add(rotate_left(self.v2, 7));
        hash = hash.wrapping_add(rotate_left(self.v3, 12));
        hash = hash.wrapping_add(rotate_left(self.v4, 18));
        hash = mix_one(hash, self.v1);
        hash = mix_one(hash, self.v2);
        hash = mix_one(hash, self.v3);
        hash = mix_one(hash, self.v4);
        hash
    }
}

} // verus!
