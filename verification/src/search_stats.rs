use vstd::prelude::*;
use crate::clock::{instant_now, instant_elapsed, duration_as_millis};

verus! {

/// Counters of a running search: iterations, summed and largest depth, and the time
/// passed in milliseconds as last read from the clock.
pub struct SearchStats {
    timer: std::time::Instant,
    time_passed: u64,
    total_depth: u32,
    max_depth: u32,
    iters: u32,
}

impl SearchStats {
    pub closed spec fn spec_total_depth(&self) -> u32 {
        self.total_depth
    }

    pub closed spec fn spec_max_depth(&self) -> u32 {
        self.max_depth
    }

    pub closed spec fn spec_iters(&self) -> u32 {
        self.iters
    }

    pub closed spec fn spec_time_passed(&self) -> u64 {
        self.time_passed
    }

    /// Counters at zero; the timer starts now.
    pub fn new() -> (r: SearchStats)
        ensures
            r.spec_total_depth() == 0,
            r.spec_max_depth() == 0,
            r.spec_iters() == 0,
            r.spec_time_passed() == 0,
    {
        SearchStats { timer: instant_now(), time_passed: 0, total_depth: 0, max_depth: 0, iters: 0 }
    }

    /// Milliseconds since the search started, read from the clock.
    pub fn time_elapsed_milis(&self) -> u128 {
        duration_as_millis(&instant_elapsed(&self.timer))
    }

    /// Reads the clock and remembers the milliseconds passed (the low 64 bits), through
    /// `set_time_passed`.
    pub fn update_time_passed(&mut self)
        ensures
            final(self).spec_total_depth() == old(self).spec_total_depth(),
            final(self).spec_max_depth() == old(self).spec_max_depth(),
            final(self).spec_iters() == old(self).spec_iters(),
    {
        let millis = self.time_elapsed_milis();
        self.set_time_passed(millis);
    }

    /// Remembers a reading of `millis` milliseconds passed, keeping its low 64 bits.
    pub fn set_time_passed(&mut self, millis: u128)
        ensures
            final(self).spec_time_passed() == millis as u64,
            final(self).spec_total_depth() == old(self).spec_total_depth(),
            final(self).spec_max_depth() == old(self).spec_max_depth(),
            final(self).spec_iters() == old(self).spec_iters(),
    {
        self.time_passed = millis as u64;
    }

    /// Milliseconds passed at the last reading of the clock.
    pub fn time_passed(&self) -> (r: u64)
        ensures
            r == self.spec_time_passed(),
    {
        self.time_passed
    }

    /// Mean depth of the iterations (rounded down).
    pub fn avg_depth(&self) -> (r: u32)
        requires
            self.spec_iters() > 0,
        ensures
            r == self.spec_total_depth() / self.spec_iters(),
    {
        self.total_depth / self.iters
    }

    pub fn max_depth(&self) -> (r: u32)
        ensures
            r == self.spec_max_depth(),
    {
        self.max_depth
    }

    pub fn iters(&self) -> (r: u32)
        ensures
            r == self.spec_iters(),
    {
        self.iters
    }

    /// Counts an iteration that reached `depth`: iterations and summed depth go up
    /// (wrapping), the largest depth follows.
    pub fn add_iteration(&mut self, depth: u32)
        ensures
            final(self).spec_iters() == (old(self).spec_iters() + 1) % 0x1_0000_0000,
            final(self).spec_total_depth() == (old(self).spec_total_depth() + depth) % 0x1_0000_0000,
            final(self).spec_max_depth() == if depth > old(self).spec_max_depth() { depth } else { old(self).spec_max_depth() },
            final(self).spec_time_passed() == old(self).spec_time_passed(),
    {
        self.iters = self.iters.wrapping_add(1);
        self.total_depth = self.total_depth.wrapping_add(depth);
        self.max_depth = if depth > self.max_depth { depth } else { self.max_depth };
    }
}

} // verus!
