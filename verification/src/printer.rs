use vstd::prelude::*;
use crate::clock::{instant_now, instant_elapsed, duration_as_millis};

verus! {

/// Progress counters of data generation: positions saved in all, positions since the
/// last report, the target, the number of worker threads and a timer.
pub struct Printer {
    positions: u64,
    positions_since_last_raport: u64,
    full_timer: std::time::Instant,
    target: u64,
    threads: u8,
}

impl Printer {
    pub closed spec fn spec_positions(&self) -> u64 {
        self.positions
    }

    pub closed spec fn spec_since_report(&self) -> u64 {
        self.positions_since_last_raport
    }

    pub closed spec fn spec_target(&self) -> u64 {
        self.target
    }

    pub closed spec fn spec_threads(&self) -> u8 {
        self.threads
    }

    /// Counters starting at `position_count` saved positions; the timer starts now.
    pub fn new(position_count: u64, target: u64, threads: u8) -> (r: Printer)
        ensures
            r.spec_positions() == position_count,
            r.spec_since_report() == 0,
            r.spec_target() == target,
            r.spec_threads() == threads,
    {
        Printer { positions: position_count, positions_since_last_raport: 0, full_timer: instant_now(), target, threads }
    }

    pub fn positions(&self) -> (r: u64)
        ensures
            r == self.spec_positions(),
    {
        self.positions
    }

    /// Counts `amount` more saved positions, in all and since the last report (wrapping).
    pub fn add_position(&mut self, amount: u64)
        ensures
            final(self).spec_positions() == (old(self).spec_positions() + amount) % 0x1_0000_0000_0000_0000,
            final(self).spec_since_report() == (old(self).spec_since_report() + amount) % 0x1_0000_0000_0000_0000,
            final(self).spec_target() == old(self).spec_target(),
            final(self).spec_threads() == old(self).spec_threads(),
    {
        self.positions = self.positions.wrapping_add(amount);
        self.positions_since_last_raport = self.positions_since_last_raport.wrapping_add(amount);
    }

    pub fn positions_since_last_raport(&self) -> (r: u64)
        ensures
            r == self.spec_since_report(),
    {
        self.positions_since_last_raport
    }

    /// Starts a new report period.
    pub fn reset_report_counter(&mut self)
        ensures
            final(self).spec_since_report() == 0,
            final(self).spec_positions() == old(self).spec_positions(),
            final(self).spec_target() == old(self).spec_target(),
            final(self).spec_threads() == old(self).spec_threads(),
    {
        self.positions_since_last_raport = 0;
    }

    pub fn target(&self) -> (r: u64)
        ensures
            r == self.spec_target(),
    {
        self.target
    }

    pub fn threads(&self) -> (r: u8)
        ensures
            r == self.spec_threads(),
    {
        self.threads
    }

    /// Milliseconds since the counters were made, read from the clock.
    pub fn elapsed_millis(&self) -> u128 {
        duration_as_millis(&instant_elapsed(&self.full_timer))
    }
}

} // verus!
