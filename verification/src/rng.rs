//! The random draws the library makes through `rand`. Their contracts are
//! taken on trust, not proved.
//!
//! Chunk generation draws from a seeded `StdRng`, whose algorithm rand
//! documents as deterministic: from one seed, the same sequence of calls
//! gives the same values. A `SeededRng` carries, beside the generator, its
//! seed and the calls made on it so far (ghost), and each draw is named as a
//! function of the seed, those earlier calls and its own arguments. Nothing
//! more is said of the values than their ranges: which value comes out is
//! rand's algorithm, which is not restated here.
//!
//! The thread-local draws (`thread_*`) depend on the machine's entropy and
//! state only what holds of every outcome.

use vstd::prelude::*;
use rand::rngs::StdRng;
use rand::{Rng, RngCore, SeedableRng};

verus! {

/// `rand::rngs::StdRng`, carried as an opaque value.
#[verifier::external_type_specification]
#[verifier::external_body]
pub struct ExStdRng(StdRng);

/// One call made on a seeded generator, with its arguments.
pub enum Draw {
    /// `gen_range(lo..hi)` on `i32`.
    RangeI32(i32, i32),
    /// `gen_range(lo..hi)` on `u64`.
    RangeU64(u64, u64),
    /// `gen_ratio(num, den)`.
    Chance(u32, u32),
    /// `next_u32()`.
    NextU32,
}

/// The value `gen_range(lo..hi)` on `i32` gives on a `StdRng` seeded with
/// `seed` after the calls `hist`.
pub uninterp spec fn seeded_i32(seed: u64, hist: Seq<Draw>, lo: i32, hi: i32) -> i32;

/// The value `gen_range(lo..hi)` on `u64` gives on a `StdRng` seeded with
/// `seed` after the calls `hist`.
pub uninterp spec fn seeded_u64(seed: u64, hist: Seq<Draw>, lo: u64, hi: u64) -> u64;

/// The value `gen_ratio(num, den)` gives on a `StdRng` seeded with `seed`
/// after the calls `hist`.
pub uninterp spec fn seeded_chance(seed: u64, hist: Seq<Draw>, num: u32, den: u32) -> bool;

/// The value `next_u32()` gives on a `StdRng` seeded with `seed` after the
/// calls `hist`.
pub uninterp spec fn seeded_next_u32(seed: u64, hist: Seq<Draw>) -> u32;

/// A `StdRng` together with its seed and the calls made on it so far.
pub struct SeededRng {
    rng: StdRng,
    seed: Ghost<u64>,
    hist: Ghost<Seq<Draw>>,
}

impl SeededRng {
    /// The seed the generator was made from.
    pub closed spec fn seed(&self) -> u64 {
        self.seed@
    }

    /// The calls made on the generator since it was seeded, oldest first.
    pub closed spec fn hist(&self) -> Seq<Draw> {
        self.hist@
    }

    /// A generator seeded with `seed`, with no calls made yet.
    pub fn from_seed(seed: u64) -> (r: SeededRng)
        ensures
            r.seed() == seed,
            r.hist() == Seq::<Draw>::empty(),
    {
        SeededRng { rng: seeded_rng(seed), seed: Ghost(seed), hist: Ghost(Seq::empty()) }
    }
}

/// `StdRng::seed_from_u64`: a generator seeded from `seed`. Its state is
/// opaque; what it draws is stated through `SeededRng`, which records `seed`.
#[verifier::external_body]
fn seeded_rng(seed: u64) -> StdRng {
    StdRng::seed_from_u64(seed)
}

/// `Rng::gen_range(lo..hi)` on `i32`: the value named `seeded_i32` for this
/// generator's seed and calls, which lies in `lo..hi` (rand panics on an empty
/// range, which `requires` leaves out). The call is recorded.
#[verifier::external_body]
pub(crate) fn range_i32(r: &mut SeededRng, lo: i32, hi: i32) -> (v: i32)
    requires
        lo < hi,
    ensures
        v == seeded_i32(old(r).seed(), old(r).hist(), lo, hi),
        lo <= v < hi,
        final(r).seed() == old(r).seed(),
        final(r).hist() == old(r).hist().push(Draw::RangeI32(lo, hi)),
{
    r.rng.gen_range(lo..hi)
}

/// `Rng::gen_range(lo..hi)` on `u64`: the value named `seeded_u64` for this
/// generator's seed and calls, which lies in `lo..hi`. The call is recorded.
#[verifier::external_body]
pub(crate) fn range_u64(r: &mut SeededRng, lo: u64, hi: u64) -> (v: u64)
    requires
        lo < hi,
    ensures
        v == seeded_u64(old(r).seed(), old(r).hist(), lo, hi),
        lo <= v < hi,
        final(r).seed() == old(r).seed(),
        final(r).hist() == old(r).hist().push(Draw::RangeU64(lo, hi)),
{
    r.rng.gen_range(lo..hi)
}

/// `Rng::gen_ratio(num, den)`: the value named `seeded_chance` for this
/// generator's seed and calls, true with chance num/den. rand's source returns
/// `true` without a draw when `num == den`, and a 0-in-`den` chance is never
/// true; it panics when `den == 0` or `num > den`. The call is recorded.
#[verifier::external_body]
pub(crate) fn chance(r: &mut SeededRng, num: u32, den: u32) -> (b: bool)
    requires
        0 < den,
        num <= den,
    ensures
        b == seeded_chance(old(r).seed(), old(r).hist(), num, den),
        num == 0 ==> !b,
        num == den ==> b,
        final(r).seed() == old(r).seed(),
        final(r).hist() == old(r).hist().push(Draw::Chance(num, den)),
{
    r.rng.gen_ratio(num, den)
}

/// `RngCore::next_u32`: the value named `seeded_next_u32` for this
/// generator's seed and calls. The call is recorded.
#[verifier::external_body]
pub(crate) fn next_u32(r: &mut SeededRng) -> (v: u32)
    ensures
        v == seeded_next_u32(old(r).seed(), old(r).hist()),
        final(r).seed() == old(r).seed(),
        final(r).hist() == old(r).hist().push(Draw::NextU32),
{
    r.rng.next_u32()
}

/// `rand::thread_rng().gen_range(lo..hi)` on `usize`: a value in `lo..hi`.
#[verifier::external_body]
pub(crate) fn thread_range_usize(lo: usize, hi: usize) -> (r: usize)
    requires
        lo < hi,
    ensures
        lo <= r < hi,
{
    rand::thread_rng().gen_range(lo..hi)
}

/// `rand::thread_rng().gen_range(lo..hi)` on `i8`: a value in `lo..hi`.
#[verifier::external_body]
pub(crate) fn thread_range_i8(lo: i8, hi: i8) -> (r: i8)
    requires
        lo < hi,
    ensures
        lo <= r < hi,
{
    rand::thread_rng().gen_range(lo..hi)
}

/// `rand::thread_rng().gen_ratio(num, den)`: true with chance num/den; as for
/// `chance`, never true for 0 and always true for `num == den`.
#[verifier::external_body]
pub(crate) fn thread_chance(num: u32, den: u32) -> (b: bool)
    requires
        0 < den,
        num <= den,
    ensures
        num == 0 ==> !b,
        num == den ==> b,
{
    rand::thread_rng().gen_ratio(num, den)
}

/// `rand::thread_rng().gen::<u64>()`: any 64-bit value.
#[verifier::external_body]
pub(crate) fn thread_u64() -> u64 {
    rand::thread_rng().gen()
}

} // verus!
