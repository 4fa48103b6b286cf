//! The random capability the engine consumes, and sources backed by the
//! `rand` generators.
//!
//! The engine never owns or reseeds a generator: it draws values one at a
//! time, die by die, term by term, left to right, so an evaluation is
//! reproducible exactly when the caller supplies a deterministic source.

use vstd::prelude::*;

verus! {

/// A sequential source of uniform values. The engine is agnostic to the
/// algorithm behind it; all it relies on is that each draw lies in the
/// requested inclusive range.
pub trait RandomSource {
    /// Draw one value in `lo..=hi`.
    fn sample(&mut self, lo: i64, hi: i64) -> (r: i64)
        requires
            lo <= hi,
        ensures
            lo <= r <= hi,
    ;
}

#[verifier::external_type_specification]
#[verifier::external_body]
pub struct ExChaCha20Rng(rand_chacha::ChaCha20Rng);

#[verifier::external_type_specification]
#[verifier::external_body]
pub struct ExThreadRng(rand::rngs::ThreadRng);

/// Relies on rand's `Rng::gen_range`: on a non-empty inclusive range it
/// returns a uniform value inside that range and does not panic.
#[verifier::external_body]
fn chacha_range(rng: &mut rand_chacha::ChaCha20Rng, lo: i64, hi: i64) -> (r: i64)
    requires
        lo <= hi,
    ensures
        lo <= r <= hi,
{
    rand::Rng::gen_range(rng, lo..=hi)
}

/// Relies on rand's `Rng::gen_range`: on a non-empty inclusive range it
/// returns a uniform value inside that range and does not panic.
#[verifier::external_body]
fn thread_range(rng: &mut rand::rngs::ThreadRng, lo: i64, hi: i64) -> (r: i64)
    requires
        lo <= hi,
    ensures
        lo <= r <= hi,
{
    rand::Rng::gen_range(rng, lo..=hi)
}

/// Relies on `rand::thread_rng`: returns a handle to the lazily seeded
/// process-local generator.
#[verifier::external_body]
fn fresh_thread_rng() -> rand::rngs::ThreadRng {
    rand::thread_rng()
}

/// A source backed by a caller-seeded ChaCha20 generator; with a fixed seed
/// its draws are reproducible across runs.
pub struct ChaChaSource {
    rng: rand_chacha::ChaCha20Rng,
}

impl ChaChaSource {
    /// Wrap a caller-constructed generator.
    pub fn new(rng: rand_chacha::ChaCha20Rng) -> ChaChaSource {
        ChaChaSource { rng }
    }
}

impl RandomSource for ChaChaSource {
    fn sample(&mut self, lo: i64, hi: i64) -> (r: i64) {
        chacha_range(&mut self.rng, lo, hi)
    }
}

/// A source backed by the thread-local generator, for callers that need no
/// reproducibility.
pub struct ThreadSource {
    rng: rand::rngs::ThreadRng,
}

impl ThreadSource {
    /// A fresh handle to the thread-local generator.
    pub fn new() -> ThreadSource {
        ThreadSource { rng: fresh_thread_rng() }
    }
}

impl RandomSource for ThreadSource {
    fn sample(&mut self, lo: i64, hi: i64) -> (r: i64) {
        thread_range(&mut self.rng, lo, hi)
    }
}

} // verus!
