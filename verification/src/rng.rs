//! The single source of randomness.
//!
//! Everything random flows through one seeded ChaCha8 generator, chosen for
//! an algorithm that is stable across releases: a persisted seed means the
//! same thing tomorrow as today. Decisions draw from streams of their own,
//! seeded from the master generator in a fixed order before any decision
//! runs, so the order in which decisions complete cannot leak into them.
//!
//! A generator's state is fixed by the seed it was made from, the calls
//! made on it since and the width of the machine's `usize` (a draw over
//! `usize` reads 32 or 64 bits accordingly), so that is how it is modelled:
//! its view is the seed, the calls, oldest first, and the width in bits.
//! What a call returns is named as a function of that view and the call,
//! and stated to lie in its range; same seed, same calls and same machine
//! width, same draws.

use rand::{Rng, SeedableRng};
use rand_chacha::ChaCha8Rng;
use vstd::prelude::*;

verus! {

#[verifier::external_type_specification]
#[verifier::external_body]
pub struct ExChaCha8Rng(rand_chacha::ChaCha8Rng);

/// One call made on a generator, with its arguments.
#[derive(Debug, Clone, Copy, PartialEq, Eq, Structural)]
pub enum Draw {
    /// `gen::<u64>()`.
    Word,
    /// `gen_range(low..high)` over `u32`.
    RangeU32 { low: u32, high: u32 },
    /// `gen_range(low..high)` over `usize`.
    RangeUsize { low: usize, high: usize },
    /// `gen_ratio(numerator, denominator)`.
    Ratio { numerator: u32, denominator: u32 },
}

/// A generator's state as what determines it: the seed, the calls made
/// since, oldest first, and the width of `usize` in bits on the machine it
/// runs on.
pub type StreamState = (u64, Seq<Draw>, u32);

/// A fresh generator's state for `seed` on this machine.
pub open spec fn fresh(seed: u64) -> StreamState {
    (seed, Seq::<Draw>::empty(), usize::BITS)
}

/// `state` after one more call `call`.
pub open spec fn after(state: StreamState, call: Draw) -> StreamState {
    (state.0, state.1.push(call), state.2)
}

/// `state` after the calls `calls`, in order.
pub open spec fn after_all(state: StreamState, calls: Seq<Draw>) -> StreamState {
    (state.0, state.1 + calls, state.2)
}

/// `n` raw 64-bit draws.
pub open spec fn words(n: nat) -> Seq<Draw> {
    Seq::new(n, |i: int| Draw::Word)
}

/// The call `call`, `n` times over.
pub open spec fn repeated(call: Draw, n: nat) -> Seq<Draw> {
    Seq::new(n, |i: int| call)
}

/// What `Rng::gen::<u64>()` returns from a ChaCha8 generator in `state`.
pub uninterp spec fn chacha_word(state: StreamState) -> u64;

/// What `Rng::gen_range` returns from a ChaCha8 generator in `state` for
/// the call `call` (its integer type and bounds).
pub uninterp spec fn chacha_in_range(state: StreamState, call: Draw) -> int;

/// What `Rng::gen_ratio` returns from a ChaCha8 generator in `state` for a
/// chance of `numerator` in `denominator`.
pub uninterp spec fn chacha_ratio(state: StreamState, numerator: u32, denominator: u32) -> bool;

/// A ChaCha8 generator with the seed it was made from and the calls made on
/// it since.
struct Stream {
    inner: ChaCha8Rng,
    seed: Ghost<u64>,
    calls: Ghost<Seq<Draw>>,
}

impl Stream {
    closed spec fn state(&self) -> StreamState {
        (self.seed@, self.calls@, usize::BITS)
    }
}

/// `SeedableRng::seed_from_u64` on ChaCha8: a fresh generator for `seed`,
/// with no call made on it yet, on this machine.
#[verifier::external_body]
fn chacha_seeded(seed: u64) -> (s: Stream)
    ensures
        s.state() == fresh(seed),
{
    Stream { inner: ChaCha8Rng::seed_from_u64(seed), seed: Ghost(seed), calls: Ghost(Seq::empty()) }
}

/// `Rng::gen_range` over `low..high` of `u32`: a draw in `[low, high)`
/// fixed by the generator's state and the call, which the state then
/// records. rand panics on an empty range, which `requires` leaves out.
#[verifier::external_body]
fn chacha_range_u32(s: &mut Stream, low: u32, high: u32) -> (r: u32)
    requires
        low < high,
    ensures
        low <= r < high,
        r == chacha_in_range(old(s).state(), Draw::RangeU32 { low, high }),
        final(s).state() == after(old(s).state(), Draw::RangeU32 { low, high }),
{
    let r = s.inner.gen_range(low..high);
    s.calls = Ghost(s.calls@.push(Draw::RangeU32 { low, high }));
    r
}

/// `Rng::gen_range` over `low..high` of `usize`: a draw in `[low, high)`
/// fixed by the generator's state and the call, which the state then
/// records. rand panics on an empty range, which `requires` leaves out.
#[verifier::external_body]
fn chacha_range_usize(s: &mut Stream, low: usize, high: usize) -> (r: usize)
    requires
        low < high,
    ensures
        low <= r < high,
        r == chacha_in_range(old(s).state(), Draw::RangeUsize { low, high }),
        final(s).state() == after(old(s).state(), Draw::RangeUsize { low, high }),
{
    let r = s.inner.gen_range(low..high);
    s.calls = Ghost(s.calls@.push(Draw::RangeUsize { low, high }));
    r
}

/// `Rng::gen_ratio`: `true` with a chance of `numerator` in
/// `denominator`, fixed by the generator's state and the call, which the
/// state then records. A certain chance is always `true` and a zero chance
/// always `false`. rand panics when the numerator exceeds the denominator
/// or the denominator is zero, which `requires` leaves out.
#[verifier::external_body]
fn chacha_gen_ratio(s: &mut Stream, numerator: u32, denominator: u32) -> (r: bool)
    requires
        0 < denominator,
        numerator <= denominator,
    ensures
        r == chacha_ratio(old(s).state(), numerator, denominator),
        numerator == denominator ==> r,
        numerator == 0 ==> !r,
        final(s).state() == after(old(s).state(), Draw::Ratio { numerator, denominator }),
{
    let r = s.inner.gen_ratio(numerator, denominator);
    s.calls = Ghost(s.calls@.push(Draw::Ratio { numerator, denominator }));
    r
}

/// `Rng::gen::<u64>()`: the next raw draw, fixed by the generator's state,
/// which then records the call.
#[verifier::external_body]
fn chacha_u64(s: &mut Stream) -> (r: u64)
    ensures
        r == chacha_word(old(s).state()),
        final(s).state() == after(old(s).state(), Draw::Word),
{
    let r = s.inner.gen::<u64>();
    s.calls = Ghost(s.calls@.push(Draw::Word));
    r
}

/// The world's master generator.
pub struct SimRng {
    inner: Stream,
}

impl View for SimRng {
    type V = StreamState;

    closed spec fn view(&self) -> StreamState {
        self.inner.state()
    }
}

impl SimRng {
    /// A fresh generator for `seed`.
    pub fn from_seed(seed: u64) -> (r: SimRng)
        ensures
            r@ == fresh(seed),
    {
        SimRng { inner: chacha_seeded(seed) }
    }

    /// A draw in `[low, high)`; an empty range yields `low` and draws
    /// nothing.
    pub fn gen_range_u32(&mut self, low: u32, high: u32) -> (r: u32)
        ensures
            low >= high ==> r == low && final(self)@ == old(self)@,
            low < high ==> low <= r < high && r == chacha_in_range(
                old(self)@,
                Draw::RangeU32 { low, high },
            ) && final(self)@ == after(old(self)@, Draw::RangeU32 { low, high }),
    {
        if low >= high {
            return low;
        }
        chacha_range_u32(&mut self.inner, low, high)
    }

    /// One of `items`, or `None` for an empty slice.
    pub fn choose_one<'a, T>(&mut self, items: &'a [T]) -> (r: Option<&'a T>)
        ensures
            r is None <==> items@.len() == 0,
            r matches Some(x) ==> exists|i: int| 0 <= i < items@.len() && items@[i] == *x,
            items@.len() == 0 ==> final(self)@ == old(self)@,
            items@.len() > 0 ==> {
                let call = Draw::RangeUsize { low: 0, high: items@.len() as usize };
                &&& r matches Some(x) && *x == items@[chacha_in_range(old(self)@, call)]
                &&& final(self)@ == after(old(self)@, call)
            },
    {
        if items.len() == 0 {
            return None;
        }
        let idx = chacha_range_usize(&mut self.inner, 0, items.len());
        Some(&items[idx])
    }

    /// `true` with a chance of `numerator` in `denominator`.
    pub fn gen_ratio(&mut self, numerator: u32, denominator: u32) -> (r: bool)
        requires
            0 < denominator,
            numerator <= denominator,
        ensures
            r == chacha_ratio(old(self)@, numerator, denominator),
            numerator == denominator ==> r,
            numerator == 0 ==> !r,
            final(self)@ == after(old(self)@, Draw::Ratio { numerator, denominator }),
    {
        chacha_gen_ratio(&mut self.inner, numerator, denominator)
    }

    /// The next raw 64-bit draw.
    pub fn next_u64(&mut self) -> (r: u64)
        ensures
            r == chacha_word(old(self)@),
            final(self)@ == after(old(self)@, Draw::Word),
    {
        chacha_u64(&mut self.inner)
    }

    /// An independent stream for one kitty's decision this tick, seeded by
    /// one draw of this generator.
    pub fn derive_decision_rng(&mut self) -> (r: DecisionRng)
        ensures
            r@ == fresh(chacha_word(old(self)@)),
            final(self)@ == after(old(self)@, Draw::Word),
    {
        let seed = self.next_u64();
        DecisionRng::from_seed(seed)
    }
}

/// A per-kitty, per-tick generator handed to a decision.
pub struct DecisionRng {
    inner: Stream,
}

impl View for DecisionRng {
    type V = StreamState;

    closed spec fn view(&self) -> StreamState {
        self.inner.state()
    }
}

impl DecisionRng {
    /// A fresh stream for `seed`.
    pub fn from_seed(seed: u64) -> (r: DecisionRng)
        ensures
            r@ == fresh(seed),
    {
        DecisionRng { inner: chacha_seeded(seed) }
    }

    /// Restarts this stream from `seed`, as a fresh stream from that seed.
    pub fn reseed(&mut self, seed: u64)
        ensures
            final(self)@ == fresh(seed),
    {
        self.inner = chacha_seeded(seed);
    }

    /// A draw in `[low, high)`; an empty range yields `low` and draws
    /// nothing.
    pub fn gen_range_usize(&mut self, low: usize, high: usize) -> (r: usize)
        ensures
            low >= high ==> r == low && final(self)@ == old(self)@,
            low < high ==> low <= r < high && r == chacha_in_range(
                old(self)@,
                Draw::RangeUsize { low, high },
            ) && final(self)@ == after(old(self)@, Draw::RangeUsize { low, high }),
    {
        if low >= high {
            return low;
        }
        chacha_range_usize(&mut self.inner, low, high)
    }

    /// One of `items`, or `None` for an empty slice.
    pub fn choose_one<'a, T>(&mut self, items: &'a [T]) -> (r: Option<&'a T>)
        ensures
            r is None <==> items@.len() == 0,
            r matches Some(x) ==> exists|i: int| 0 <= i < items@.len() && items@[i] == *x,
            items@.len() == 0 ==> final(self)@ == old(self)@,
            items@.len() > 0 ==> {
                let call = Draw::RangeUsize { low: 0, high: items@.len() as usize };
                &&& r matches Some(x) && *x == items@[chacha_in_range(old(self)@, call)]
                &&& final(self)@ == after(old(self)@, call)
            },
    {
        if items.len() == 0 {
            return None;
        }
        let idx = chacha_range_usize(&mut self.inner, 0, items.len());
        Some(&items[idx])
    }
}

} // verus!
