use vstd::prelude::*;

verus! {

/// A point of virtual time, in nanoseconds.
#[derive(Debug, Clone, Copy, PartialEq, Eq, Structural)]
pub struct Instant(pub u64);

/// A monotonically adjustable nanosecond counter that stands in for the
/// wall clock, so that runs are reproducible.
#[derive(Debug)]
pub struct VirtualClock {
    pub nanos: u64,
}

impl View for VirtualClock {
    type V = u64;

    open spec fn view(&self) -> u64 {
        self.nanos
    }
}

impl VirtualClock {
    pub fn new() -> (r: Self)
        ensures
            r@ == 0u64,
    {
        VirtualClock { nanos: 0 }
    }

    pub fn now(&self) -> (r: Instant)
        ensures
            r.0 == self@,
    {
        Instant(self.nanos)
    }

    /// Nanoseconds from the given instant to now, never negative.
    pub fn elapsed_since(&self, instant: Instant) -> (r: u64)
        ensures
            r == if self@ >= instant.0 {
                (self@ - instant.0) as u64
            } else {
                0u64
            },
    {
        if self.nanos >= instant.0 {
            self.nanos - instant.0
        } else {
            0
        }
    }

    /// Move time forward; the counter wraps on overflow.
    pub fn advance(&mut self, nanos: u64)
        ensures
            final(self)@ == ((old(self)@ + nanos) % 0x1_0000_0000_0000_0000) as u64,
    {
        self.nanos = self.nanos.wrapping_add(nanos);
    }

    pub fn set(&mut self, nanos: u64)
        ensures
            final(self)@ == nanos,
    {
        self.nanos = nanos;
    }

    pub fn reset(&mut self)
        ensures
            final(self)@ == 0u64,
    {
        self.nanos = 0;
    }

    pub fn current(&self) -> (r: u64)
        ensures
            r == self@,
    {
        self.nanos
    }
}

impl Default for VirtualClock {
    fn default() -> (r: Self)
        ensures
            r@ == 0u64,
    {
        VirtualClock::new()
    }
}

} // verus!
