//! Uniform draws from an explicitly passed random source.
use crate::utils::fixed::Fixed;
use rand::rngs::StdRng;
use rand::Rng;
use vstd::prelude::*;

verus! {

/// The random number generator `rand::rngs::StdRng`, carried through and never inspected.
#[verifier::external_type_specification]
#[verifier::external_body]
pub struct ExStdRng(rand::rngs::StdRng);

/// Calls `rand::Rng::gen_range` on the half-open range `low..high` of `i64`.
/// rand panics on an empty range, which `requires` leaves out, and returns a
/// member of the range; which member depends on the generator's state, of
/// which nothing is claimed.
#[verifier::external_body]
fn gen_range_i64(rng: &mut StdRng, low: i64, high: i64) -> (r: i64)
    requires
        low < high,
    ensures
        low <= r < high,
{
    rng.gen_range(low..high)
}

/// Draws a value uniformly from `low` up to, but not including, `high`.
pub(crate) fn draw(rng: &mut StdRng, low: Fixed, high: Fixed) -> (r: Fixed)
    requires
        low@ < high@,
    ensures
        low@ <= r@ < high@,
{
    let drawn: i64 = gen_range_i64(rng, low.raw(), high.raw());
    Fixed::from_raw(drawn)
}

/// Draws a value uniformly from `low` up to, but not including, `high`;
/// `None`, with nothing drawn, where that range is empty.
pub fn uniform(rng: &mut StdRng, low: Fixed, high: Fixed) -> (r: Option<Fixed>)
    ensures
        r is Some <==> low@ < high@,
        r matches Some(value) ==> low@ <= value@ < high@,
        r is None ==> *final(rng) == *old(rng),
{
    if low.raw() < high.raw() {
        Some(draw(rng, low, high))
    } else {
        None
    }
}

} // verus!
