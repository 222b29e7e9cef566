//! One-shot hashing of data held in memory.

use crate::digest::xxh64;
use crate::sixty_four::XxHash64;
use vstd::prelude::*;

verus! {

/// The xxHash64 of a byte vector, with seed 0.
/// * `inp` - Vector to be hashed
pub fn hash_byte_vec(inp: Vec<u8>) -> (digest: u64)
    ensures
        digest == xxh64(0, inp@),
{
    let mut hasher = XxHash64::with_seed(0);
    let bytes: &[u8] = inp.as_slice();
    assert(bytes.len() <= usize::MAX);
    hasher.write(bytes);
    assert(Seq::<u8>::empty() + inp@ =~= inp@);
    hasher.finish()
}

} // verus!
