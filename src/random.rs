//! The source of random draws: rand's `StdRng`, which a caller seeds for
//! reproducible runs or from the operating system for live ones.
use rand::Rng;
use vstd::prelude::*;

verus! {

#[verifier::external_type_specification]
#[verifier::external_body]
pub struct ExStdRng(rand::rngs::StdRng);

/// Relies on rand's `Rng::gen_range` on a half-open `u64` range: it panics
/// only on an empty range, and otherwise returns a value in `[lo, hi)`.
#[verifier::external_body]
pub(crate) fn gen_range(rng: &mut rand::rngs::StdRng, lo: u64, hi: u64) -> (r: u64)
    requires
        lo < hi,
    ensures
        lo <= r < hi,
{
    rng.gen_range(lo..hi)
}

} // verus!
