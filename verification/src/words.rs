//! Reading runs of bytes as little-endian words.
//!
//! A byte sequence is cut into three parts: a head that precedes the first
//! element boundary, a middle that holds a whole number of elements, and a
//! tail too short to hold one. The parts are borrowed from the input; words
//! are decoded from the middle on demand and nothing is copied.

use vstd::bytes::{
    lemma_auto_spec_u32_to_from_le_bytes, lemma_auto_spec_u64_to_from_le_bytes,
    spec_u32_from_le_bytes, spec_u32_to_le_bytes, spec_u64_from_le_bytes, spec_u64_to_le_bytes,
    u32_from_le_bytes, u64_from_le_bytes,
};
use vstd::prelude::*;
use vstd::slice::slice_subrange;

verus! {

/// Bytes in one 32-bit word.
pub const U32_BYTES: usize = 4;

/// Bytes in one 64-bit word.
pub const U64_BYTES: usize = 8;

/// Bytes in one group of four 64-bit words.
pub const U64_ARRAY_BYTES: usize = 32;

/// Length of the head: the bytes before the first element boundary, where
/// boundaries lie `lead` bytes (modulo `width`) after the start of the input.
pub open spec fn head_len(len: nat, lead: nat, width: nat) -> nat {
    let offset = lead % width;
    if offset < len {
        offset
    } else {
        len
    }
}

/// Number of whole elements of `width` bytes that follow the head.
pub open spec fn middle_count(len: nat, lead: nat, width: nat) -> nat {
    ((len - head_len(len, lead, width)) / (width as int)) as nat
}

/// Length of the tail: what is left after the last whole element.
pub open spec fn tail_len(len: nat, lead: nat, width: nat) -> nat {
    ((len - head_len(len, lead, width)) % (width as int)) as nat
}

/// The head of `bytes`.
pub open spec fn head_of(bytes: Seq<u8>, lead: nat, width: nat) -> Seq<u8> {
    bytes.take(head_len(bytes.len(), lead, width) as int)
}

/// The middle of `bytes`: the longest run of whole elements after the head.
pub open spec fn middle_of(bytes: Seq<u8>, lead: nat, width: nat) -> Seq<u8> {
    bytes.subrange(
        head_len(bytes.len(), lead, width) as int,
        bytes.len() - tail_len(bytes.len(), lead, width),
    )
}

/// The tail of `bytes`.
pub open spec fn tail_of(bytes: Seq<u8>, lead: nat, width: nat) -> Seq<u8> {
    bytes.skip(bytes.len() - tail_len(bytes.len(), lead, width))
}

/// The `i`-th little-endian 64-bit word of `bytes`.
pub open spec fn u64_at(bytes: Seq<u8>, i: int) -> u64 {
    spec_u64_from_le_bytes(bytes.subrange(8 * i, 8 * i + 8))
}

/// The `i`-th little-endian 32-bit word of `bytes`.
pub open spec fn u32_at(bytes: Seq<u8>, i: int) -> u32 {
    spec_u32_from_le_bytes(bytes.subrange(4 * i, 4 * i + 4))
}

/// All whole 64-bit words of `bytes`, in order.
pub open spec fn u64s_of(bytes: Seq<u8>) -> Seq<u64> {
    Seq::new(bytes.len() / 8, |i: int| u64_at(bytes, i))
}

/// All whole 32-bit words of `bytes`, in order.
pub open spec fn u32s_of(bytes: Seq<u8>) -> Seq<u32> {
    Seq::new(bytes.len() / 4, |i: int| u32_at(bytes, i))
}

/// All whole groups of four 64-bit words of `bytes`, in order.
pub open spec fn u64_arrays_of(bytes: Seq<u8>) -> Seq<Seq<u64>> {
    Seq::new(bytes.len() / 32, |i: int| u64s_of(bytes.subrange(32 * i, 32 * i + 32)))
}

/// The bytes that hold `words`, each word little-endian.
pub open spec fn bytes_of_u64s(words: Seq<u64>) -> Seq<u8> {
    Seq::new(8 * words.len(), |j: int| spec_u64_to_le_bytes(words[j / 8])[j % 8])
}

/// The bytes that hold `words`, each word little-endian.
pub open spec fn bytes_of_u32s(words: Seq<u32>) -> Seq<u8> {
    Seq::new(4 * words.len(), |j: int| spec_u32_to_le_bytes(words[j / 4])[j % 4])
}

/// The bytes that hold `groups`, group after group.
pub open spec fn bytes_of_u64_arrays(groups: Seq<Seq<u64>>) -> Seq<u8> {
    Seq::new(32 * groups.len(), |j: int| bytes_of_u64s(groups[j / 32])[j % 32])
}

/// The three lengths add up to the input, and head and tail are each shorter
/// than one element.
pub proof fn lemma_split_lengths(len: nat, lead: nat, width: nat)
    requires
        width > 0,
    ensures
        head_len(len, lead, width) + middle_count(len, lead, width) * width + tail_len(
            len,
            lead,
            width,
        ) == len,
        head_len(len, lead, width) < width,
        head_len(len, lead, width) <= len,
        tail_len(len, lead, width) < width,
{
    let h = head_len(len, lead, width);
    let rest = len - h;
    let w = width as int;
    assert(lead % width < width) by (nonlinear_arith)
        requires
            width > 0,
    ;
    assert(0 <= rest % w < w && rest == (rest / w) * w + rest % w && rest / w >= 0)
        by (nonlinear_arith)
        requires
            rest >= 0,
            w > 0,
    ;
}

/// A run of whole 64-bit words, decoded and written back as bytes, is the run
/// itself.
pub proof fn lemma_u64s_round_trip(bytes: Seq<u8>)
    requires
        bytes.len() % 8 == 0,
    ensures
        bytes_of_u64s(u64s_of(bytes)) == bytes,
{
    lemma_auto_spec_u64_to_from_le_bytes();
    assert forall|j: int| 0 <= j < bytes.len() implies bytes_of_u64s(u64s_of(bytes))[j]
        == bytes[j] by {
        let i = j / 8;
        let word = bytes.subrange(8 * i, 8 * i + 8);
        assert(spec_u64_to_le_bytes(spec_u64_from_le_bytes(word)) == word);
        assert(word[j % 8] == bytes[j]);
    }
    assert(bytes_of_u64s(u64s_of(bytes)) =~= bytes);
}

/// A run of whole 32-bit words, decoded and written back as bytes, is the run
/// itself.
pub proof fn lemma_u32s_round_trip(bytes: Seq<u8>)
    requires
        bytes.len() % 4 == 0,
    ensures
        bytes_of_u32s(u32s_of(bytes)) == bytes,
{
    lemma_auto_spec_u32_to_from_le_bytes();
    assert forall|j: int| 0 <= j < bytes.len() implies bytes_of_u32s(u32s_of(bytes))[j]
        == bytes[j] by {
        let i = j / 4;
        let word = bytes.subrange(4 * i, 4 * i + 4);
        assert(spec_u32_to_le_bytes(spec_u32_from_le_bytes(word)) == word);
        assert(word[j % 4] == bytes[j]);
    }
    assert(bytes_of_u32s(u32s_of(bytes)) =~= bytes);
}

/// A run of whole four-word groups, decoded and written back as bytes, is the
/// run itself.
pub proof fn lemma_u64_arrays_round_trip(bytes: Seq<u8>)
    requires
        bytes.len() % 32 == 0,
    ensures
        bytes_of_u64_arrays(u64_arrays_of(bytes)) == bytes,
{
    assert forall|j: int| 0 <= j < bytes.len() implies bytes_of_u64_arrays(
        u64_arrays_of(bytes),
    )[j] == bytes[j] by {
        let i = j / 32;
        let group = bytes.subrange(32 * i, 32 * i + 32);
        lemma_u64s_round_trip(group);
        assert(group[j % 32] == bytes[j]);
    }
    assert(bytes_of_u64_arrays(u64_arrays_of(bytes)) =~= bytes);
}

/// Head, middle and tail, put together, are the input, and the middle holds
/// a whole number of elements.
pub proof fn lemma_split_covers(bytes: Seq<u8>, lead: nat, width: nat)
    requires
        width > 0,
    ensures
        head_of(bytes, lead, width) + middle_of(bytes, lead, width) + tail_of(bytes, lead, width)
            == bytes,
        middle_of(bytes, lead, width).len() == middle_count(bytes.len(), lead, width) * width,
{
    lemma_split_lengths(bytes.len(), lead, width);
    assert(head_of(bytes, lead, width) + middle_of(bytes, lead, width) + tail_of(
        bytes,
        lead,
        width,
    ) =~= bytes);
}

/// Whatever the length of `bytes` and wherever the element boundaries lie,
/// the head, the middle's elements written back as bytes, and the tail make
/// up `bytes` again: for 32-bit words, for 64-bit words, and for groups of
/// four 64-bit words.
pub proof fn lemma_split_reassembles(bytes: Seq<u8>, lead: nat)
    ensures
        head_of(bytes, lead, 4) + bytes_of_u32s(u32s_of(middle_of(bytes, lead, 4))) + tail_of(
            bytes,
            lead,
            4,
        ) == bytes,
        head_of(bytes, lead, 8) + bytes_of_u64s(u64s_of(middle_of(bytes, lead, 8))) + tail_of(
            bytes,
            lead,
            8,
        ) == bytes,
        head_of(bytes, lead, 32) + bytes_of_u64_arrays(
            u64_arrays_of(middle_of(bytes, lead, 32)),
        ) + tail_of(bytes, lead, 32) == bytes,
{
    assert(bytes_of_u32s(u32s_of(middle_of(bytes, lead, 4))) == middle_of(bytes, lead, 4)) by {
        lemma_split_covers(bytes, lead, 4);
        lemma_u32s_round_trip(middle_of(bytes, lead, 4));
    }
    assert(bytes_of_u64s(u64s_of(middle_of(bytes, lead, 8))) == middle_of(bytes, lead, 8)) by {
        lemma_split_covers(bytes, lead, 8);
        lemma_u64s_round_trip(middle_of(bytes, lead, 8));
    }
    assert(bytes_of_u64_arrays(u64_arrays_of(middle_of(bytes, lead, 32))) == middle_of(
        bytes,
        lead,
        32,
    )) by {
        lemma_split_covers(bytes, lead, 32);
        lemma_u64_arrays_round_trip(middle_of(bytes, lead, 32));
    }
    lemma_split_covers(bytes, lead, 4);
    lemma_split_covers(bytes, lead, 8);
    lemma_split_covers(bytes, lead, 32);
}

/// Cuts `bytes` into head, middle and tail for elements of `width` bytes whose
/// boundaries lie `lead` bytes (modulo `width`) after the start of `bytes`.
pub fn split<'a>(bytes: &'a [u8], lead: usize, width: usize) -> (parts: (
    &'a [u8],
    &'a [u8],
    &'a [u8],
))
    requires
        width > 0,
    ensures
        parts.0@ == head_of(bytes@, lead as nat, width as nat),
        parts.1@ == middle_of(bytes@, lead as nat, width as nat),
        parts.2@ == tail_of(bytes@, lead as nat, width as nat),
        parts.0@ + parts.1@ + parts.2@ == bytes@,
        parts.0@.len() < width,
        parts.2@.len() < width,
        parts.1@.len() == middle_count(bytes@.len(), lead as nat, width as nat) * width,
{
    let len: usize = bytes.len();
    let offset: usize = lead % width;
    let head: usize = if offset < len {
        offset
    } else {
        len
    };
    let tail: usize = (len - head) % width;
    proof {
        lemma_split_lengths(len as nat, lead as nat, width as nat);
    }
    let parts = (
        slice_subrange(bytes, 0, head),
        slice_subrange(bytes, head, len - tail),
        slice_subrange(bytes, len - tail, len),
    );
    assert(parts.0@ + parts.1@ + parts.2@ =~= bytes@);
    parts
}

/// Splits `bytes` for reading as groups of four 64-bit words.
pub fn as_u64_arrays<'a>(bytes: &'a [u8], lead: usize) -> (parts: (&'a [u8], &'a [u8], &'a [u8]))
    ensures
        parts.0@ == head_of(bytes@, lead as nat, 32),
        parts.1@ == middle_of(bytes@, lead as nat, 32),
        parts.2@ == tail_of(bytes@, lead as nat, 32),
        parts.0@ + parts.1@ + parts.2@ == bytes@,
        parts.0@.len() < 32,
        parts.2@.len() < 32,
        parts.1@.len() % 32 == 0,
{
    split(bytes, lead, U64_ARRAY_BYTES)
}

/// Splits `bytes` for reading as 64-bit words.
pub fn as_u64s<'a>(bytes: &'a [u8], lead: usize) -> (parts: (&'a [u8], &'a [u8], &'a [u8]))
    ensures
        parts.0@ == head_of(bytes@, lead as nat, 8),
        parts.1@ == middle_of(bytes@, lead as nat, 8),
        parts.2@ == tail_of(bytes@, lead as nat, 8),
        parts.0@ + parts.1@ + parts.2@ == bytes@,
        parts.0@.len() < 8,
        parts.2@.len() < 8,
        parts.1@.len() % 8 == 0,
{
    split(bytes, lead, U64_BYTES)
}

/// Splits `bytes` for reading as 32-bit words.
pub fn as_u32s<'a>(bytes: &'a [u8], lead: usize) -> (parts: (&'a [u8], &'a [u8], &'a [u8]))
    ensures
        parts.0@ == head_of(bytes@, lead as nat, 4),
        parts.1@ == middle_of(bytes@, lead as nat, 4),
        parts.2@ == tail_of(bytes@, lead as nat, 4),
        parts.0@ + parts.1@ + parts.2@ == bytes@,
        parts.0@.len() < 4,
        parts.2@.len() < 4,
        parts.1@.len() % 4 == 0,
{
    split(bytes, lead, U32_BYTES)
}

/// Decodes the `i`-th little-endian 64-bit word of `bytes`.
pub fn read_u64(bytes: &[u8], i: usize) -> (word: u64)
    requires
        8 * (i + 1) <= bytes.len(),
    ensures
        word == u64_at(bytes@, i as int),
{
    u64_from_le_bytes(slice_subrange(bytes, 8 * i, 8 * i + 8))
}

/// Decodes the `i`-th little-endian 32-bit word of `bytes`.
pub fn read_u32(bytes: &[u8], i: usize) -> (word: u32)
    requires
        4 * (i + 1) <= bytes.len(),
    ensures
        word == u32_at(bytes@, i as int),
{
    u32_from_le_bytes(slice_subrange(bytes, 4 * i, 4 * i + 4))
}

} // verus!
