//! The streaming engine: takes its input in pieces of any size and gives the
//! digest of everything written so far.

use crate::accumulator::XxCore;
use crate::buffer::Buffer;
use crate::digest::{absorb_tail, absorb_u32s, absorb_u64s, absorb_u8s, base, xxh64};
use crate::mixing::{fold_u32, fold_u64, fold_u8, intermix, PRIME_5};
use crate::words::{as_u64_arrays, read_u32, read_u64};
use vstd::prelude::*;

verus! {

/// Calculates the 64-bit hash.
///
/// The engine keeps the accumulator, the bytes that do not yet fill a chunk,
/// and the number of bytes written. Its view is the sequence of all bytes
/// written so far.
#[derive(Copy, Clone)]
pub struct XxHash64 {
    total_len: u64,
    seed: u64,
    core: XxCore,
    buffer: Buffer,
    written: Ghost<Seq<u8>>,
}

impl View for XxHash64 {
    type V = Seq<u8>;

    /// Every byte written so far, in order.
    closed spec fn view(&self) -> Seq<u8> {
        self.written@
    }
}

impl XxHash64 {
    /// The seed the engine was made with.
    pub closed spec fn seed(&self) -> u64 {
        self.seed
    }

    #[verifier::type_invariant]
    spec fn well_formed(self) -> bool {
        let n = self.written@.len() as int;
        &&& self.total_len == n
        &&& self.core == XxCore::seeded(self.seed).ingest(self.written@, (n / 32) as nat)
        &&& self.buffer@ == self.written@.skip(n - n % 32)
    }

    /// Constructs the hash with an initial seed
    pub fn with_seed(seed: u64) -> (hasher: XxHash64)
        ensures
            hasher@ == Seq::<u8>::empty(),
            hasher.seed() == seed,
    {
        let core = XxCore::with_seed(seed);
        let buffer = Buffer::default();
        assert(Seq::<u8>::empty().skip(0) =~= Seq::<u8>::empty());
        XxHash64 { total_len: 0, seed, core, buffer, written: Ghost(Seq::empty()) }
    }

    /// The number of bytes written so far.
    pub fn total_len(&self) -> (len: u64)
        ensures
            len == self@.len(),
    {
        proof {
            use_type_invariant(self);
        }
        self.total_len
    }

    /// Feeds `data` through the staging buffer: whenever the buffer fills,
    /// its chunk goes to the accumulator and the buffer starts afresh. In
    /// effect the staged bytes followed by `data` are regrouped into chunks.
    pub fn buffer_bytes(core: &mut XxCore, buffer: &mut Buffer, data: &[u8])
        requires
            old(buffer)@.len() < 32,
        ensures
            *final(core) == old(core).ingest(
                old(buffer)@ + data@,
                ((old(buffer)@.len() + data@.len()) / 32) as nat,
            ),
            final(buffer)@ == (old(buffer)@ + data@).skip(
                (old(buffer)@.len() + data@.len()) - (old(buffer)@.len() + data@.len()) % 32,
            ),
    {
        let ghost stream = old(buffer)@ + data@;
        let ghost staged = old(buffer)@.len() as int;
        let ghost mut flushed: int = 0;
        let mut rest: &[u8] = data;
        assert(buffer@ =~= stream.subrange(0, staged));
        assert(rest@ =~= data@.skip(0));
        while rest.len() > 0
            invariant
                stream == old(buffer)@ + data@,
                staged == old(buffer)@.len(),
                rest@.len() <= data@.len(),
                rest@ == data@.skip(data@.len() - rest@.len()),
                buffer@.len() < 32,
                32 * flushed + buffer@.len() + rest@.len() == stream.len(),
                buffer@ == stream.subrange(32 * flushed, stream.len() - rest@.len()),
                flushed >= 0,
                *core == old(core).ingest(stream, flushed as nat),
            decreases rest@.len(),
        {
            let ghost before = buffer@;
            let ghost incoming = rest@;
            rest = buffer.consume(rest);
            proof {
                let taken = Buffer::fitting(before.len(), incoming.len()) as int;
                assert(taken > 0);
                assert(rest@.len() == incoming.len() - taken);
                assert(rest@ =~= data@.skip(data@.len() - rest@.len()));
                assert(incoming.take(taken) =~= stream.subrange(
                    stream.len() - incoming.len(),
                    stream.len() - rest@.len(),
                ));
                assert(buffer@ =~= stream.subrange(
                    32 * flushed,
                    stream.len() - rest@.len(),
                ));
            }
            if buffer.is_full() {
                let chunk = buffer.as_u64_arrays();
                proof {
                    assert(chunk@.subrange(0, 32) =~= chunk@);
                    assert(core.ingest(chunk@, 0) == *core);
                    assert(core.ingest(chunk@, 1) == core.ingest(chunk@, 0).step(
                        chunk@.subrange(0, 32),
                    ));
                    assert(stream.subrange(32 * flushed, 32 * flushed + 32) == chunk@);
                    assert(old(core).ingest(stream, (flushed + 1) as nat) == old(core).ingest(
                        stream,
                        flushed as nat,
                    ).step(stream.subrange(32 * flushed, 32 * flushed + 32)));
                }
                core.ingest_chunks(chunk);
                buffer.clear();
                proof {
                    flushed = flushed + 1;
                    assert(buffer@ =~= stream.subrange(
                        32 * flushed,
                        stream.len() - rest@.len(),
                    ));
                }
            }
        }
        proof {
            let n = stream.len() as int;
            assert(n == 32 * flushed + buffer@.len());
            assert(n / 32 == flushed && n % 32 == buffer@.len());
            assert(buffer@ =~= stream.skip(n - n % 32));
        }
    }

    /// Takes in `bytes`, which follow everything written before.
    ///
    /// With nothing staged the whole chunks of `bytes` go straight to the
    /// accumulator and only what follows them is staged; otherwise all of
    /// `bytes` goes through the staging buffer.
    pub fn write(&mut self, bytes: &[u8])
        requires
            old(self)@.len() + bytes@.len() <= u64::MAX,
        ensures
            final(self)@ == old(self)@ + bytes@,
            final(self).seed() == old(self).seed(),
    {
        proof {
            use_type_invariant(&*self);
        }
        let mut core = self.core;
        let mut buffer = self.buffer;
        let ghost before = self.written@;
        let ghost after = before + bytes@;
        let ghost staged = buffer@;
        let ghost stream = staged + bytes@;
        // Words are decoded from the bytes themselves, so a chunk may start
        // at the first byte of `bytes`: the split is taken with no lead.
        let (unaligned_head, aligned, unaligned_tail) = as_u64_arrays(bytes, 0);

        if !buffer.is_empty() || unaligned_head.len() != 0 {
            Self::buffer_bytes(&mut core, &mut buffer, bytes);
        } else {
            core.ingest_chunks(aligned);
            Self::buffer_bytes(&mut core, &mut buffer, unaligned_tail);
            proof {
                let m = bytes@.len() as int;
                let whole = (m / 32) as nat;
                assert(stream =~= bytes@);
                assert(aligned@.len() == m - m % 32);
                assert(aligned@.take(32 * whole as int) =~= bytes@.take(32 * whole as int));
                self.core.lemma_ingest_prefix(aligned@, bytes@, whole);
                let lanes = self.core.ingest(aligned@, whole);
                assert(lanes.ingest(staged + unaligned_tail@, 0) == lanes);
                assert(staged + unaligned_tail@ =~= unaligned_tail@);
                assert(unaligned_tail@.skip(0) =~= unaligned_tail@);
                assert(buffer@ =~= stream.skip(m - m % 32));
            }
        }

        proof {
            let n = before.len() as int;
            let k = (n / 32) as nat;
            let len = stream.len() as int;
            let more = (len / 32) as nat;
            let start = XxCore::seeded(self.seed);
            assert(staged.len() == n % 32);
            assert(after.len() == 32 * k + len);
            assert((after.len() / 32) as nat == k + more && after.len() % 32 == len % 32);
            assert(after.take(32 * k as int) =~= before.take(32 * k as int));
            start.lemma_ingest_prefix(after, before, k);
            start.lemma_ingest_split(after, k, more);
            assert(after.skip(32 * k as int) =~= stream);
            assert(stream.skip(len - len % 32) =~= after.skip(after.len() - after.len() % 32));
        }
        let total_len: u64 = self.total_len + bytes.len() as u64;
        *self = XxHash64 { total_len, seed: self.seed, core, buffer, written: Ghost(after) };
    }

    /// The digest of everything written so far. The engine is left as it
    /// was, so that more can be written afterwards.
    pub fn finish(&self) -> (digest: u64)
        ensures
            digest == xxh64(self.seed(), self@),
    {
        proof {
            use_type_invariant(self);
        }
        let mut hash: u64 = if self.total_len >= 32 {
            // We have processed at least one full chunk
            self.core.finish()
        } else {
            self.seed.wrapping_add(PRIME_5)
        };

        hash = hash.wrapping_add(self.total_len);
        assert(hash == base(self.seed, self.written@));

        let (buffered_u64s, buffered_u32s, buffered_u8s) = self.buffer.as_u64s_and_u32s();
        let ghost start = hash;

        let u64_count: usize = buffered_u64s.len() / 8;
        let mut i: usize = 0;
        while i < u64_count
            invariant
                i <= u64_count,
                8 * u64_count <= buffered_u64s.len(),
                buffered_u64s@.len() <= 32,
                hash == absorb_u64s(start, buffered_u64s@, i as nat),
            decreases u64_count - i,
        {
            hash = fold_u64(hash, read_u64(buffered_u64s, i));
            i = i + 1;
        }
        let ghost after_u64s = hash;

        let u32_count: usize = buffered_u32s.len() / 4;
        let mut i: usize = 0;
        while i < u32_count
            invariant
                i <= u32_count,
                4 * u32_count <= buffered_u32s.len(),
                buffered_u32s@.len() <= 32,
                hash == absorb_u32s(after_u64s, buffered_u32s@, i as nat),
            decreases u32_count - i,
        {
            hash = fold_u32(hash, read_u32(buffered_u32s, i));
            i = i + 1;
        }
        let ghost after_u32s = hash;

        let mut i: usize = 0;
        while i < buffered_u8s.len()
            invariant
                i <= buffered_u8s.len(),
                buffered_u8s@.len() == buffered_u8s.len(),
                hash == absorb_u8s(after_u32s, buffered_u8s@, i as nat),
            decreases buffered_u8s.len() - i,
        {
            hash = fold_u8(hash, buffered_u8s[i]);
            i = i + 1;
        }
        assert(hash == absorb_tail(start, self.buffer@));

        intermix(hash)
    }
}

impl Default for XxHash64 {
    /// An engine with seed 0 and nothing written.
    fn default() -> (hasher: XxHash64)
        ensures
            hasher@ == Seq::<u8>::empty(),
            hasher.seed() == 0,
    {
        XxHash64::with_seed(0)
    }
}

/// Everything written once each of `pieces` has been written in turn to an
/// engine that already held `start`.
pub open spec fn written_in_turn(start: Seq<u8>, pieces: Seq<Seq<u8>>) -> Seq<u8>
    decreases pieces.len(),
{
    if pieces.len() == 0 {
        start
    } else {
        written_in_turn(start, pieces.drop_last()) + pieces.last()
    }
}

/// However the input is cut into pieces, writing the pieces one after
/// another gives the digest of writing them as one: the engine then holds
/// `start` followed by the concatenation of the pieces.
pub proof fn lemma_chunking_invariance(seed: u64, start: Seq<u8>, pieces: Seq<Seq<u8>>)
    ensures
        written_in_turn(start, pieces) == start + pieces.flatten(),
        xxh64(seed, written_in_turn(start, pieces)) == xxh64(seed, start + pieces.flatten()),
    decreases pieces.len(),
{
    pieces.lemma_flatten_and_flatten_alt_are_equivalent();
    if pieces.len() == 0 {
        assert(start + pieces.flatten_alt() =~= start);
    } else {
        let front = pieces.drop_last();
        lemma_chunking_invariance(seed, start, front);
        front.lemma_flatten_and_flatten_alt_are_equivalent();
        assert((start + front.flatten_alt()) + pieces.last() =~= start + (front.flatten_alt()
            + pieces.last()));
    }
}

} // verus!
