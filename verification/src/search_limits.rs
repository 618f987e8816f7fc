use vstd::prelude::*;
use crate::search_stats::SearchStats;

verus! {

/// Limits of a search as the `go` command gives them, and the soft and hard time limits
/// derived from the clock.
pub struct SearchLimits {
    time_remaining: Option<u64>,
    increment: Option<u64>,
    moves_to_go: Option<u32>,
    move_time: Option<u64>,
    max_depth: Option<u32>,
    max_iters: Option<u32>,
    infinite: bool,
    game_ply: u32,
    soft_limit: Option<u64>,
    hard_limit: Option<u64>,
}

impl SearchLimits {
    pub closed spec fn spec_time_remaining(&self) -> Option<u64> {
        self.time_remaining
    }

    pub closed spec fn spec_increment(&self) -> Option<u64> {
        self.increment
    }

    pub closed spec fn spec_moves_to_go(&self) -> Option<u32> {
        self.moves_to_go
    }

    pub closed spec fn spec_move_time(&self) -> Option<u64> {
        self.move_time
    }

    pub closed spec fn spec_max_depth(&self) -> Option<u32> {
        self.max_depth
    }

    pub closed spec fn spec_max_iters(&self) -> Option<u32> {
        self.max_iters
    }

    pub closed spec fn spec_infinite(&self) -> bool {
        self.infinite
    }

    pub closed spec fn spec_game_ply(&self) -> u32 {
        self.game_ply
    }

    pub closed spec fn spec_soft_limit(&self) -> Option<u64> {
        self.soft_limit
    }

    pub closed spec fn spec_hard_limit(&self) -> Option<u64> {
        self.hard_limit
    }

    /// All of the limits but `other`'s field named by `changed` are equal.
    pub open spec fn same_except(&self, other: &SearchLimits, changed: int) -> bool {
        &&& (changed != 0 ==> other.spec_time_remaining() == self.spec_time_remaining())
        &&& (changed != 1 ==> other.spec_increment() == self.spec_increment())
        &&& (changed != 2 ==> other.spec_moves_to_go() == self.spec_moves_to_go())
        &&& (changed != 3 ==> other.spec_move_time() == self.spec_move_time())
        &&& (changed != 4 ==> other.spec_max_depth() == self.spec_max_depth())
        &&& (changed != 5 ==> other.spec_max_iters() == self.spec_max_iters())
        &&& (changed != 6 ==> other.spec_infinite() == self.spec_infinite())
        &&& other.spec_game_ply() == self.spec_game_ply()
        &&& (changed != 7 ==> other.spec_soft_limit() == self.spec_soft_limit() && other.spec_hard_limit()
            == self.spec_hard_limit())
    }

    /// Whether a search with these counters has to stop: never when infinite, else once
    /// the mean depth, the iterations or the move time reach their limit.
    pub open spec fn limit_reached(&self, stats: &SearchStats) -> bool {
        if self.spec_infinite() {
            false
        } else {
            ||| (self.spec_max_depth() matches Some(d) && stats.spec_total_depth() / stats.spec_iters() >= d)
            ||| (self.spec_max_iters() matches Some(n) && stats.spec_iters() >= n)
            ||| (self.spec_move_time() matches Some(t) && stats.spec_time_passed() >= t)
        }
    }

    /// The depth limit goes by the mean depth of the iterations: with only a depth limit
    /// `d` set, the search stops exactly when the summed depth reaches `d` times the number
    /// of iterations, however deep the deepest iteration went.
    pub proof fn lemma_depth_limit_is_mean(&self, stats: &SearchStats, d: u32)
        requires
            !self.spec_infinite(),
            self.spec_max_depth() == Some(d),
            self.spec_max_iters() is None,
            self.spec_move_time() is None,
            stats.spec_iters() > 0,
        ensures
            self.limit_reached(stats) <==> stats.spec_total_depth() >= d * stats.spec_iters(),
    {
        let t = stats.spec_total_depth() as int;
        let n = stats.spec_iters() as int;
        let dd = d as int;
        assert(t / n >= dd <==> t >= dd * n) by (nonlinear_arith)
            requires
                n > 0,
                t >= 0,
                dd >= 0,
        {
            vstd::arithmetic::div_mod::lemma_fundamental_div_mod(t, n);
            if t / n >= dd {
                vstd::arithmetic::mul::lemma_mul_inequality(dd, t / n, n);
            } else {
                vstd::arithmetic::mul::lemma_mul_inequality(t / n + 1, dd, n);
            }
        }
    }

    /// No limit set, for a game at ply `game_ply`.
    pub fn new(game_ply: u32) -> (r: SearchLimits)
        ensures
            r.spec_time_remaining() is None,
            r.spec_increment() is None,
            r.spec_moves_to_go() is None,
            r.spec_move_time() is None,
            r.spec_max_depth() is None,
            r.spec_max_iters() is None,
            !r.spec_infinite(),
            r.spec_game_ply() == game_ply,
            r.spec_soft_limit() is None,
            r.spec_hard_limit() is None,
    {
        SearchLimits {
            time_remaining: None,
            increment: None,
            moves_to_go: None,
            move_time: None,
            max_depth: None,
            max_iters: None,
            infinite: false,
            game_ply,
            soft_limit: None,
            hard_limit: None,
        }
    }

    pub fn add_time_remaining(&mut self, time_remaining: u64)
        ensures
            final(self).spec_time_remaining() == Some(time_remaining),
            old(self).same_except(&*final(self), 0),
    {
        self.time_remaining = Some(time_remaining);
    }

    pub fn add_increment(&mut self, increment: u64)
        ensures
            final(self).spec_increment() == Some(increment),
            old(self).same_except(&*final(self), 1),
    {
        self.increment = Some(increment);
    }

    pub fn add_moves_to_go(&mut self, moves_to_go: u32)
        ensures
            final(self).spec_moves_to_go() == Some(moves_to_go),
            old(self).same_except(&*final(self), 2),
    {
        self.moves_to_go = Some(moves_to_go);
    }

    pub fn add_move_time(&mut self, move_time: u64)
        ensures
            final(self).spec_move_time() == Some(move_time),
            old(self).same_except(&*final(self), 3),
    {
        self.move_time = Some(move_time);
    }

    pub fn add_depth(&mut self, depth: u32)
        ensures
            final(self).spec_max_depth() == Some(depth),
            old(self).same_except(&*final(self), 4),
    {
        self.max_depth = Some(depth);
    }

    pub fn add_iters(&mut self, iters: u32)
        ensures
            final(self).spec_max_iters() == Some(iters),
            old(self).same_except(&*final(self), 5),
    {
        self.max_iters = Some(iters);
    }

    pub fn go_infinite(&mut self)
        ensures
            final(self).spec_infinite(),
            old(self).same_except(&*final(self), 6),
    {
        self.infinite = true;
    }

    pub fn time_remaining(&self) -> (r: Option<u64>)
        ensures
            r == self.spec_time_remaining(),
    {
        self.time_remaining
    }

    pub fn increment(&self) -> (r: Option<u64>)
        ensures
            r == self.spec_increment(),
    {
        self.increment
    }

    pub fn moves_to_go(&self) -> (r: Option<u32>)
        ensures
            r == self.spec_moves_to_go(),
    {
        self.moves_to_go
    }

    pub fn game_ply(&self) -> (r: u32)
        ensures
            r == self.spec_game_ply(),
    {
        self.game_ply
    }

    pub fn soft_limit(&self) -> (r: Option<u64>)
        ensures
            r == self.spec_soft_limit(),
    {
        self.soft_limit
    }

    pub fn hard_limit(&self) -> (r: Option<u64>)
        ensures
            r == self.spec_hard_limit(),
    {
        self.hard_limit
    }

    /// Sets the soft and hard time limits where the remaining time is known. `split` is
    /// the (soft, hard) pair that the time manager derives from the remaining time, the
    /// increment, the moves to go and the game ply.
    pub fn calculate_time_limits(&mut self, split: (u64, u64))
        ensures
            old(self).spec_time_remaining() is Some ==> final(self).spec_soft_limit() == Some(split.0)
                && final(self).spec_hard_limit() == Some(split.1),
            old(self).spec_time_remaining() is None ==> final(self).spec_soft_limit() == old(self).spec_soft_limit()
                && final(self).spec_hard_limit() == old(self).spec_hard_limit(),
            old(self).same_except(&*final(self), 7),
    {
        if self.time_remaining.is_some() {
            self.soft_limit = Some(split.0);
            self.hard_limit = Some(split.1);
        }
    }

    /// Whether the search has reached its depth, iteration or move-time limit.
    pub fn is_limit_reached(&self, search_stats: &SearchStats) -> (r: bool)
        requires
            self.spec_max_depth() is Some && !self.spec_infinite() ==> search_stats.spec_iters() > 0,
        ensures
            r == self.limit_reached(search_stats),
    {
        if self.infinite {
            return false;
        }
        if let Some(max_depth) = self.max_depth {
            if search_stats.avg_depth() >= max_depth {
                return true;
            }
        }
        if let Some(max_iters) = self.max_iters {
            if search_stats.iters() >= max_iters {
                return true;
            }
        }
        if let Some(time) = self.move_time {
            if search_stats.time_passed() >= time {
                return true;
            }
        }
        false
    }

    /// Whether the time passed plus the move overhead has reached the hard time limit.
    pub fn is_hard_time_limit_reached(&self, search_stats: &SearchStats, move_overhead: u64) -> (r: bool)
        requires
            self.spec_hard_limit() is Some ==> search_stats.spec_time_passed() + move_overhead <= u64::MAX,
        ensures
            r == (self.spec_hard_limit() matches Some(h) && search_stats.spec_time_passed() + move_overhead >= h),
    {
        if let Some(hard_limit) = self.hard_limit {
            let time_passed = search_stats.time_passed() + move_overhead;
            if time_passed >= hard_limit {
                return true;
            }
        }
        false
    }
}

} // verus!
