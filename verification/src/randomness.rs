//! The random numbers that the library draws.

use rand::Rng;
use vstd::prelude::*;

verus! {

/// `rand::random::<u8>()`: a byte from the generator of the thread. Any byte
/// can come back, so nothing is claimed of it.
#[verifier::external_body]
pub(crate) fn random_byte() -> (b: u8) {
    rand::random::<u8>()
}

/// `rand::Rng::gen_range` on `rand::thread_rng()`: a number from `min` up to,
/// but not including, `max`. The call panics unless `min` is below `max`.
#[verifier::external_body]
pub(crate) fn random_in_range(min: i128, max: i128) -> (r: i128)
    requires
        min < max,
    ensures
        min <= r < max,
{
    rand::thread_rng().gen_range(min, max)
}

/// `l` random bytes.
pub fn get_random_bytes(l: usize) -> (out: Vec<u8>)
    ensures
        out@.len() == l,
{
    let mut out: Vec<u8> = Vec::new();
    while out.len() < l
        invariant
            out@.len() <= l,
        decreases l - out.len(),
    {
        out.push(random_byte());
    }
    out
}

} // verus!
