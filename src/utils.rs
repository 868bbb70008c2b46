//! Small helpers shared by the channel flavors: a padded cell for values that
//! are hit from both ends of a channel, and the back-off used at retry sites.
use vstd::prelude::*;

verus! {

/// Number of steps after which spinning is considered exhausted.
pub const SPIN_LIMIT: u32 = 6;

/// A value that is kept apart from its neighbours (the head and the tail of a
/// channel), so that writers and readers do not share one cache line.
#[derive(Default, Hash, PartialEq, Eq, Debug)]
pub struct CachePadded<T> {
    value: T,
}

impl<T> CachePadded<T> {
    /// The wrapped value.
    pub closed spec fn view(&self) -> T {
        self.value
    }

    /// Wraps a value.
    pub fn new(value: T) -> (r: CachePadded<T>)
        ensures
            r@ == value,
        opens_invariants none
        no_unwind
    {
        CachePadded { value }
    }

    /// A shared borrow of the wrapped value.
    pub fn get(&self) -> (r: &T)
        ensures
            *r == self@,
        opens_invariants none
        no_unwind
    {
        &self.value
    }

    /// Replaces the wrapped value.
    pub fn set(&mut self, value: T)
        ensures
            final(self)@ == value,
        opens_invariants none
        no_unwind
    {
        self.value = value;
    }

    /// Unwraps the value.
    pub fn into_inner(self) -> (r: T)
        ensures
            r == self@,
    {
        self.value
    }
}

/// Relies on std::hint::spin_loop: a processor hint, with no effect on any value.
#[verifier::external_body]
fn spin_hint()
    opens_invariants none
    no_unwind
{
    std::hint::spin_loop()
}

/// How many processor hints a spin at `step` performs: `2^min(step, SPIN_LIMIT)`.
pub open spec fn spins_at(step: nat) -> nat
    decreases step,
{
    if step == 0 {
        1
    } else if step > SPIN_LIMIT {
        spins_at(SPIN_LIMIT as nat)
    } else {
        2 * spins_at((step - 1) as nat)
    }
}

/// Progressive back-off for retry loops: each call advances one step; after
/// `SPIN_LIMIT` steps spinning is considered exhausted.
pub struct Backoff {
    step: u32,
}

impl Backoff {
    /// The number of calls made so far.
    pub closed spec fn view(&self) -> nat {
        self.step as nat
    }

    /// A back-off at step zero.
    pub fn new() -> (r: Backoff)
        ensures
            r@ == 0,
    {
        Backoff { step: 0 }
    }

    /// The number of steps taken so far.
    pub fn step(&self) -> (r: u32)
        ensures
            r as nat == self@,
    {
        self.step
    }

    /// Spins `2^min(step, SPIN_LIMIT)` times, then advances one step.
    pub fn spin_light(&mut self) -> (spins: u32)
        ensures
            spins as nat == spins_at(old(self)@),
            final(self)@ == if old(self)@ < u32::MAX { old(self)@ + 1 } else { old(self)@ },
    {
        let limit: u32 = if self.step < SPIN_LIMIT { self.step } else { SPIN_LIMIT };
        let spins = Self::spin(limit);
        proof {
            lemma_spins_capped(self.step);
        }
        self.advance();
        spins
    }

    /// Like `spin_light` up to the limit; past it, one more bout at the
    /// largest size, since this library does not hand the processor to the
    /// scheduler.
    pub fn spin_heavy(&mut self) -> (spins: u32)
        ensures
            spins as nat == spins_at(old(self)@),
            final(self)@ == if old(self)@ < u32::MAX { old(self)@ + 1 } else { old(self)@ },
    {
        self.spin_light()
    }

    /// Whether spinning is exhausted, so that the caller should block instead.
    pub fn is_completed(&self) -> (r: bool)
        ensures
            r == (self@ > SPIN_LIMIT),
    {
        self.step > SPIN_LIMIT
    }

    fn advance(&mut self)
        ensures
            final(self)@ == if old(self)@ < u32::MAX { old(self)@ + 1 } else { old(self)@ },
    {
        if self.step < u32::MAX {
            self.step = self.step + 1;
        }
    }

    /// Performs `2^k` processor hints.
    fn spin(k: u32) -> (r: u32)
        requires
            k <= SPIN_LIMIT,
        ensures
            r as nat == spins_at(k as nat),
    {
        let mut n: u32 = 1;
        let mut i: u32 = 0;
        while i < k
            invariant
                i <= k <= SPIN_LIMIT,
                n as nat == spins_at(i as nat),
                n <= 64,
            decreases k - i,
        {
            proof {
                reveal_with_fuel(spins_at, 2);
                lemma_spins_small(i);
            }
            n = n * 2;
            i = i + 1;
        }
        let mut j: u32 = 0;
        while j < n
            invariant
                j <= n,
            decreases n - j,
        {
            spin_hint();
            j = j + 1;
        }
        n
    }
}

proof fn lemma_spins_small(i: u32)
    requires
        i < SPIN_LIMIT,
    ensures
        spins_at(i as nat) <= 32,
        spins_at((i + 1) as nat) == 2 * spins_at(i as nat),
{
    reveal_with_fuel(spins_at, 7);
}

proof fn lemma_spins_capped(step: u32)
    ensures
        spins_at(step as nat) == spins_at(if step < SPIN_LIMIT { step as nat } else { SPIN_LIMIT as nat }),
{
}

} // verus!
