//! Random values, drawn from the `rand` crate.
use rand::RngCore;
use vstd::prelude::*;

verus! {

/// Fills `buf` by `rand::RngCore::fill_bytes` on the thread's generator.
/// Claimed: the length stays. The bytes themselves are random, so nothing is said of them.
#[verifier::external_body]
pub(crate) fn fill_random(buf: &mut Vec<u8>)
    ensures
        final(buf)@.len() == old(buf)@.len(),
{
    rand::thread_rng().fill_bytes(buf)
}

/// One draw of `rand::RngCore::next_u32` from the thread's generator: any `u32`.
#[verifier::external_body]
pub(crate) fn random_u32() -> u32 {
    rand::thread_rng().next_u32()
}

/// One draw of `rand::random::<u64>`: any `u64`.
#[verifier::external_body]
pub(crate) fn random_u64() -> u64 {
    rand::random::<u64>()
}

/// `len` random bytes.
pub fn random_bytes(len: usize) -> (bytes: Vec<u8>)
    ensures
        bytes@.len() == len,
{
    let mut bytes: Vec<u8> = vec![0u8; len];
    fill_random(&mut bytes);
    bytes
}

} // verus!
