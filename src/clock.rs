use vstd::prelude::*;

verus! {

/// The value a clock at `v` takes on a tick.
pub open spec fn ticked(v: u128) -> int {
    v + 1
}

/// The value a clock at `v` takes on observing a remote timestamp.
pub open spec fn observed(v: u128, remote: u128) -> int {
    if remote >= v {
        remote + 1
    } else {
        v as int
    }
}

/// A Lamport logical clock: a counter that only moves forward.
#[derive(Debug, Clone, Copy, PartialEq, Eq, Structural)]
pub struct LamportClock {
    pub value: u128,
}

impl LamportClock {
    /// A clock at zero.
    pub fn new() -> (r: LamportClock)
        ensures
            r.value == 0,
    {
        LamportClock { value: 0 }
    }

    /// The current value, without moving the clock.
    pub fn now(&self) -> (r: u128)
        ensures
            r == self.value,
    {
        self.value
    }

    /// Advances the clock by one and returns the new value; used to stamp
    /// each outgoing request.
    pub fn tick(&mut self) -> (r: u128)
        requires
            old(self).value < u128::MAX,
        ensures
            final(self).value == ticked(old(self).value),
            r == final(self).value,
    {
        self.value = self.value + 1;
        self.value
    }

    /// Takes a remote timestamp into account: when it is not behind the
    /// local value, the clock moves just past it.
    pub fn observe(&mut self, remote: u128)
        requires
            remote < u128::MAX,
        ensures
            final(self).value == observed(old(self).value, remote),
    {
        if remote >= self.value {
            self.value = remote + 1;
        }
    }
}

/// After observing a remote timestamp the clock is past it and not behind
/// where it was; two ticks in a row give strictly increasing values.
pub proof fn lemma_clock_monotonic(v: u128, remote: u128)
    requires
        remote < u128::MAX,
        v < u128::MAX - 1,
    ensures
        observed(v, remote) >= remote + 1,
        observed(v, remote) >= v,
        ticked(v) > v,
        ticked(ticked(v) as u128) > ticked(v),
{
}

} // verus!
