use rand::Rng;
use vstd::prelude::*;

verus! {

/// Relies on rand::Rng::gen_range over an inclusive range of i32, with the
/// generator of rand::thread_rng: the value lies in `[lo, hi]`. gen_range
/// panics only when the range is empty, which `requires` leaves out.
#[verifier::external_body]
fn uniform_i32(lo: i32, hi: i32) -> (r: i32)
    requires
        lo <= hi,
    ensures
        lo <= r <= hi,
{
    rand::thread_rng().gen_range(lo..=hi)
}

/// A uniformly drawn integer in the closed range `[min, max]`.
pub fn random_i32(min: i32, max: i32) -> (r: i32)
    requires
        min <= max,
    ensures
        min <= r <= max,
{
    uniform_i32(min, max)
}

} // verus!
