use vstd::prelude::*;
use rand::rngs::SmallRng;
use rand::RngCore;
use rand::SeedableRng;

verus! {

#[verifier::external_type_specification]
#[verifier::external_body]
pub struct ExSmallRng(SmallRng);

/// Relies on rand's SeedableRng::from_rng over OsRng: a generator seeded by
/// the operating system, or `None` where that source fails.
#[verifier::external_body]
pub(crate) fn rng_from_os() -> (r: Option<SmallRng>) {
    SmallRng::from_rng(rand::rngs::OsRng).ok()
}

/// Relies on rand's SeedableRng::seed_from_u64: a generator fixed by `seed`.
#[verifier::external_body]
pub(crate) fn rng_from_seed(seed: u64) -> (r: SmallRng) {
    SmallRng::seed_from_u64(seed)
}

/// Relies on rand's RngCore::fill_bytes for SmallRng: overwrites every byte
/// of the buffer, whose length stays as it was.
#[verifier::external_body]
pub(crate) fn fill_random(rng: &mut SmallRng, buf: &mut Vec<u8>)
    ensures
        final(buf)@.len() == old(buf)@.len(),
{
    rng.fill_bytes(buf.as_mut_slice());
}

} // verus!
