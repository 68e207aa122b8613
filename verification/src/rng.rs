//! The die source backed by the `rand` crate's thread-local generator.

use vstd::prelude::*;

use crate::eval::DieSource;

verus! {

#[verifier::external_type_specification]
#[verifier::external_body]
pub struct ExThreadRng(rand::rngs::ThreadRng);

/// Relies on rand::rng: a handle to the thread-local random generator.
/// Nothing is promised of it; every face drawn through it is constrained by
/// `draw_uniform` below.
#[verifier::external_body]
fn fresh_thread_rng() -> rand::rngs::ThreadRng {
    rand::rng()
}

/// Relies on rand::RngExt::random_range: a value sampled from the inclusive
/// range handed to it, which `1..=die` makes nonempty since `die >= 1`.
/// Which value comes back is chance; that it lies in the range is all that
/// is claimed.
#[verifier::external_body]
fn draw_uniform(rng: &mut rand::rngs::ThreadRng, die: u32) -> (v: u32)
    requires
        die >= 1,
    ensures
        1 <= v <= die,
{
    rand::RngExt::random_range(rng, 1..=die)
}

/// A die source that draws every face uniformly from the thread-local
/// random generator.
pub struct ThreadSource {
    rng: rand::rngs::ThreadRng,
}

impl ThreadSource {
    pub fn new() -> ThreadSource {
        ThreadSource { rng: fresh_thread_rng() }
    }
}

impl DieSource for ThreadSource {
    fn draw(&mut self, die: u32) -> (v: u32) {
        draw_uniform(&mut self.rng, die)
    }
}

} // verus!
