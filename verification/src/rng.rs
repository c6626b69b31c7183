//! Random and seeded randomness from the `rand` crates. Operating-system draws are
//! stated only by their range; a draw from a `StdRng` seeded from a `u64` is named
//! as a function of the seed and the draws made before it.
use vstd::prelude::*;
use rand::{Rng, RngCore, SeedableRng};
use rand::rngs::StdRng;
use rand_core::OsRng;

verus! {

#[verifier::external_type_specification]
#[verifier::external_body]
pub struct ExStdRng(StdRng);

#[verifier::external_type_specification]
#[verifier::external_body]
pub struct ExOsRng(OsRng);

/// A source of random bytes (a seeded generator or the operating system): one
/// byte, or 32 bytes in one fill.
pub trait ByteSource {
    fn next_byte(&mut self) -> u8;

    fn next_32(&mut self) -> [u8; 32];
}

/// Calls `RngCore::fill_bytes` of `StdRng` on a one-byte buffer. No claim on the value.
#[verifier::external_body]
fn std_rng_byte(rng: &mut StdRng) -> u8 {
    let mut b = [0u8; 1];
    rng.fill_bytes(&mut b);
    b[0]
}

/// Calls `RngCore::fill_bytes` of `OsRng` on a one-byte buffer. No claim on the value.
#[verifier::external_body]
fn os_rng_byte(rng: &mut OsRng) -> u8 {
    let mut b = [0u8; 1];
    rng.fill_bytes(&mut b);
    b[0]
}

/// Calls `RngCore::fill_bytes` of `StdRng` on a 32-byte buffer. No claim on the value.
#[verifier::external_body]
fn std_rng_fill_32(rng: &mut StdRng) -> [u8; 32] {
    let mut b = [0u8; 32];
    rng.fill_bytes(&mut b);
    b
}

/// Calls `RngCore::fill_bytes` of `OsRng` on a 32-byte buffer. No claim on the value.
#[verifier::external_body]
fn os_rng_fill_32(rng: &mut OsRng) -> [u8; 32] {
    let mut b = [0u8; 32];
    rng.fill_bytes(&mut b);
    b
}

impl ByteSource for StdRng {
    fn next_byte(&mut self) -> u8 {
        std_rng_byte(self)
    }

    fn next_32(&mut self) -> [u8; 32] {
        std_rng_fill_32(self)
    }
}

impl ByteSource for OsRng {
    fn next_byte(&mut self) -> u8 {
        os_rng_byte(self)
    }

    fn next_32(&mut self) -> [u8; 32] {
        os_rng_fill_32(self)
    }
}

/// What `Rng::gen_range` returns on a `StdRng` made by
/// `SeedableRng::seed_from_u64(seed)` that has already answered the draws `past`
/// (each `(inclusive, lo, hi)`, in order), when asked for `lo..=hi` (`inclusive`)
/// or `lo..hi`. With the `rand` version fixed this is a function of these values.
pub uninterp spec fn std_rng_draw(seed: u64, past: Seq<(bool, usize, usize)>, inclusive: bool, lo: usize, hi: usize) -> usize;

/// A `StdRng` seeded from a `u64`, with the seed and the draws made so far.
pub struct SeededRng {
    rng: StdRng,
    seed: Ghost<u64>,
    past: Ghost<Seq<(bool, usize, usize)>>,
}

impl SeededRng {
    /// The seed the generator was made from.
    pub closed spec fn seed(&self) -> u64 {
        self.seed@
    }

    /// The draws answered so far, in order.
    pub closed spec fn past(&self) -> Seq<(bool, usize, usize)> {
        self.past@
    }
}

/// Calls `SeedableRng::seed_from_u64` of `StdRng`. The generator's state is opaque;
/// what it draws is named by `std_rng_draw`.
#[verifier::external_body]
fn std_rng_from_seed(seed: u64) -> StdRng {
    StdRng::seed_from_u64(seed)
}

/// A generator seeded from `seed` that has drawn nothing yet.
pub(crate) fn seeded_rng(seed: u64) -> (r: SeededRng)
    ensures
        r.seed() == seed,
        r.past() == Seq::<(bool, usize, usize)>::empty(),
{
    SeededRng { rng: std_rng_from_seed(seed), seed: Ghost(seed), past: Ghost(Seq::empty()) }
}

/// Calls `Rng::gen_range(0..=hi)` on the generator. Claims that the draw lies in
/// `0..=hi` and is the named draw `std_rng_draw` after the generator's earlier
/// draws, which it then joins.
#[verifier::external_body]
pub(crate) fn seeded_index_upto(g: &mut SeededRng, hi: usize) -> (r: usize)
    ensures
        r <= hi,
        r == std_rng_draw(old(g).seed(), old(g).past(), true, 0, hi),
        final(g).seed() == old(g).seed(),
        final(g).past() == old(g).past().push((true, 0usize, hi)),
{
    g.rng.gen_range(0..=hi)
}

/// Calls `Rng::gen_range(lo..hi)` on the generator (which panics on an empty range).
/// Claims that the draw lies in `lo..hi` and is the named draw `std_rng_draw` after
/// the generator's earlier draws, which it then joins.
#[verifier::external_body]
pub(crate) fn seeded_index_in(g: &mut SeededRng, lo: usize, hi: usize) -> (r: usize)
    requires
        lo < hi,
    ensures
        lo <= r < hi,
        r == std_rng_draw(old(g).seed(), old(g).past(), false, lo, hi),
        final(g).seed() == old(g).seed(),
        final(g).past() == old(g).past().push((false, lo, hi)),
{
    g.rng.gen_range(lo..hi)
}

/// Calls `Rng::gen_range(0..n)` on `OsRng` (fresh operating-system randomness; it
/// panics on an empty range). Claims only that the draw lies in `0..n`.
#[verifier::external_body]
pub(crate) fn os_index_below(n: usize) -> (r: usize)
    requires
        n > 0,
    ensures
        r < n,
{
    OsRng.gen_range(0..n)
}

/// Calls `RngCore::fill_bytes` of `OsRng` on 32 bytes. No claim on the value.
#[verifier::external_body]
pub(crate) fn os_random_32() -> [u8; 32] {
    let mut b = [0u8; 32];
    OsRng.fill_bytes(&mut b);
    b
}

} // verus!
