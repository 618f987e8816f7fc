use vstd::prelude::*;

verus! {

/// A win/draw/loss evaluation held as two 32-bit fixed-point fractions: `u32::MAX` stands
/// for probability one. The loss chance is what the other two leave.
#[derive(Clone, Copy, PartialEq, Eq, Structural, Debug)]
pub struct AtomicScore(pub u32, pub u32);

impl AtomicScore {
    pub open spec fn win(self) -> u32 {
        self.0
    }

    pub open spec fn draw(self) -> u32 {
        self.1
    }

    pub fn new(win_bits: u32, draw_bits: u32) -> (r: AtomicScore)
        ensures
            r.win() == win_bits,
            r.draw() == draw_bits,
    {
        AtomicScore(win_bits, draw_bits)
    }

    pub fn win_bits(&self) -> (r: u32)
        ensures
            r == self.win(),
    {
        self.0
    }

    pub fn draw_bits(&self) -> (r: u32)
        ensures
            r == self.draw(),
    {
        self.1
    }
}

impl Default for AtomicScore {
    /// The default score: no win and no draw chance.
    fn default() -> (r: AtomicScore)
        ensures
            r.win() == 0 && r.draw() == 0,
    {
        AtomicScore(0, 0)
    }
}

} // verus!
