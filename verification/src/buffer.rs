//! The staging buffer: up to one chunk of input that has not yet been taken
//! in by the accumulator.

use crate::accumulator::CHUNK_SIZE;
use crate::words::{as_u32s, as_u64_arrays, as_u64s};
use vstd::prelude::*;
use vstd::slice::slice_subrange;

verus! {

/// A fixed store of 32 bytes, of which the first `len` are in use.
#[derive(Copy, Clone, Debug)]
pub struct Buffer {
    data: [u8; 32],
    len: usize,
}

impl View for Buffer {
    type V = Seq<u8>;

    /// The staged bytes, oldest first.
    closed spec fn view(&self) -> Seq<u8> {
        self.data@.take(self.len as int)
    }
}

impl Default for Buffer {
    /// An empty buffer.
    fn default() -> (buffer: Buffer)
        ensures
            buffer@ == Seq::<u8>::empty(),
    {
        let buffer = Buffer { data: [0u8; 32], len: 0 };
        assert(buffer@ =~= Seq::<u8>::empty());
        buffer
    }
}

impl Buffer {
    #[verifier::type_invariant]
    spec fn well_formed(self) -> bool {
        self.len <= 32
    }

    /// The staged bytes.
    pub fn data(&self) -> (staged: &[u8])
        ensures
            staged@ == self@,
            staged@.len() <= 32,
    {
        proof {
            use_type_invariant(self);
        }
        slice_subrange(self.data.as_slice(), 0, self.len)
    }

    /// The staged bytes when they make up a whole chunk, and nothing
    /// otherwise.
    pub fn as_u64_arrays(&self) -> (chunk: &[u8])
        ensures
            chunk@ == if self@.len() == 32 {
                self@
            } else {
                Seq::<u8>::empty()
            },
    {
        let (_, middle, _) = as_u64_arrays(self.data(), 0);
        assert(middle@ =~= if self@.len() == 32 {
            self@
        } else {
            Seq::<u8>::empty()
        });
        middle
    }

    /// The staged bytes in three runs: as many whole 64-bit words as they
    /// hold, then as many whole 32-bit words as the rest holds, then the
    /// bytes left over.
    pub fn as_u64s_and_u32s(&self) -> (runs: (&[u8], &[u8], &[u8]))
        ensures
            runs.0@ == self@.take(self@.len() - self@.len() % 8),
            runs.1@ == self@.subrange(
                self@.len() - self@.len() % 8,
                self@.len() - self@.len() % 4,
            ),
            runs.2@ == self@.skip(self@.len() - self@.len() % 4),
            runs.0@ + runs.1@ + runs.2@ == self@,
            self@.len() <= 32,
    {
        let staged = self.data();
        let (_, u64s, rest) = as_u64s(staged, 0);
        let (_, u32s, bytes) = as_u32s(rest, 0);
        proof {
            let n = self@.len() as int;
            assert(u64s@ =~= self@.take(n - n % 8));
            assert(rest@ =~= self@.skip(n - n % 8));
            assert(u32s@ =~= self@.subrange(n - n % 8, n - n % 4));
            assert(bytes@ =~= self@.skip(n - n % 4));
            assert(u64s@ + u32s@ + bytes@ =~= self@);
        }
        (u64s, u32s, bytes)
    }

    /// Stages as much of the front of `data` as there is room for, and
    /// returns the rest of `data`.
    pub fn consume<'a>(&mut self, data: &'a [u8]) -> (remaining: &'a [u8])
        ensures
            final(self)@ == old(self)@ + data@.take(
                Self::fitting(old(self)@.len(), data@.len()) as int,
            ),
            remaining@ == data@.skip(Self::fitting(old(self)@.len(), data@.len()) as int),
            final(self)@.len() <= 32,
    {
        proof {
            use_type_invariant(&*self);
        }
        let available: usize = self.available();
        let to_use: usize = if available < data.len() {
            available
        } else {
            data.len()
        };
        let start: usize = self.len;
        let mut i: usize = 0;
        while i < to_use
            invariant
                i <= to_use,
                to_use <= data@.len(),
                start + to_use <= 32,
                self.len == start,
                self.data@.take(start as int) == old(self)@,
                self.data@.subrange(start as int, start + i) == data@.take(i as int),
            decreases to_use - i,
        {
            self.data[start + i] = data[i];
            assert(self.data@.take(start as int) =~= old(self)@);
            assert(self.data@.subrange(start as int, start + i + 1) =~= data@.take(i + 1));
            i = i + 1;
        }
        self.len = start + to_use;
        assert(self@ =~= old(self)@ + data@.take(to_use as int));
        slice_subrange(data, to_use, data.len())
    }

    /// How many bytes of `incoming` a buffer that holds `staged` takes.
    pub open spec fn fitting(staged: nat, incoming: nat) -> nat {
        if staged + incoming <= 32 {
            incoming
        } else {
            (32 - staged) as nat
        }
    }

    /// Forgets the staged bytes.
    pub fn clear(&mut self)
        ensures
            final(self)@ == Seq::<u8>::empty(),
    {
        self.len = 0;
        assert(self@ =~= Seq::<u8>::empty());
    }

    /// The room that is left.
    pub fn available(&self) -> (room: usize)
        ensures
            room == 32 - self@.len(),
    {
        proof {
            use_type_invariant(self);
        }
        CHUNK_SIZE - self.len
    }

    /// Whether nothing is staged.
    pub fn is_empty(&self) -> (empty: bool)
        ensures
            empty == (self@.len() == 0),
    {
        proof {
            use_type_invariant(self);
        }
        self.len == 0
    }

    /// Whether a whole chunk is staged.
    pub fn is_full(&self) -> (full: bool)
        ensures
            full == (self@.len() == 32),
    {
        proof {
            use_type_invariant(self);
        }
        self.len == CHUNK_SIZE
    }
}

} // verus!
