//! Random values. Nothing is known of them but their size and range.
use rand::{Rng, RngCore};
use vstd::prelude::*;

verus! {

/// `fill_bytes` of `rand`'s thread-local generator, on a buffer of `n` bytes.
#[verifier::external_body]
pub(crate) fn random_bytes(n: usize) -> (r: Vec<u8>)
    requires
        n <= 64,
    ensures
        r@.len() == n,
{
    let mut b = vec![0u8; n];
    rand::thread_rng().fill_bytes(&mut b);
    b
}

/// `gen_range` of `rand`'s thread-local generator, over the numbers below `n`.
#[verifier::external_body]
pub(crate) fn random_below(n: usize) -> (r: usize)
    requires
        n > 0,
    ensures
        r < n,
{
    rand::thread_rng().gen_range(0..n)
}

/// `rand::random`, for a 64-bit number.
#[verifier::external_body]
pub(crate) fn random_u64() -> (r: u64) {
    rand::random()
}

/// `fill_bytes` of the operating system's generator, on a 32-byte buffer.
#[verifier::external_body]
pub(crate) fn os_random_key() -> (r: [u8; 32]) {
    let mut b = [0u8; 32];
    rand::rngs::OsRng.fill_bytes(&mut b);
    b
}

/// Twelve bytes, as an array.
pub fn twelve_of(b: &[u8]) -> (r: [u8; 12])
    requires
        b@.len() == 12,
    ensures
        r@ == b@,
{
    let r: [u8; 12] = [
        b[0],
        b[1],
        b[2],
        b[3],
        b[4],
        b[5],
        b[6],
        b[7],
        b[8],
        b[9],
        b[10],
        b[11],
    ];
    assert(r@ =~= b@);
    r
}

/// Twelve random bytes, just as the generator gives them. Every value can come, so
/// nothing is said of it here.
pub fn random_12() -> (r: [u8; 12]) {
    let b = random_bytes(12);
    twelve_of(b.as_slice())
}

} // verus!
