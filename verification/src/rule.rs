use vstd::prelude::*;
use crate::cell::Color;

verus! {

/// A set of neighbor counts, used both as the survival range and as the
/// birth range of the transition rule. Counts over a 26-cell Moore
/// neighborhood lie in `[0, 26]`; a member above 26 can simply never match.
#[derive(Debug)]
pub struct NeighborRule {
    pub counts: Vec<u8>,
}

impl NeighborRule {
    /// Whether neighbor count `n` belongs to the set.
    pub open spec fn contains(self, n: int) -> bool {
        exists|i: int| 0 <= i < self.counts@.len() && self.counts@[i] as int == n
    }

    /// Builds the set holding exactly the given counts.
    pub fn from_counts(counts: Vec<u8>) -> (r: NeighborRule)
        ensures
            r.counts@ == counts@,
    {
        NeighborRule { counts }
    }

    /// Whether the count `n` satisfies the rule.
    pub fn admits(&self, n: u32) -> (r: bool)
        ensures
            r == self.contains(n as int),
    {
        let mut i: usize = 0;
        let mut found = false;
        while i < self.counts.len()
            invariant
                0 <= i <= self.counts@.len(),
                found == exists|k: int| 0 <= k < i && self.counts@[k] as int == n as int,
            decreases self.counts@.len() - i,
        {
            if self.counts[i] as u32 == n {
                found = true;
            }
            i = i + 1;
        }
        found
    }
}

/// The probability that a cell is seeded alive, as the rational
/// `numer / denom`. The host maps its configured probability in `[0, 1]`
/// to such a ratio.
#[derive(Clone, Copy, Debug, PartialEq, Eq, Structural)]
pub struct BirthChance {
    pub numer: u64,
    pub denom: u64,
}

impl BirthChance {
    /// A well-formed chance has a positive denominator and lies in `[0, 1]`.
    pub open spec fn wf(self) -> bool {
        0 < self.denom && self.numer <= self.denom
    }
}

/// The cosmetic coloring rule: a deterministic function of the alive-state.
#[derive(Clone, Copy, Debug, PartialEq, Eq, Structural)]
pub struct ColorRule {
    pub alive_color: Color,
    pub dead_color: Color,
}

impl ColorRule {
    /// The color the rule assigns to the given alive-state.
    pub open spec fn spec_color_for(self, alive: bool) -> Color {
        if alive {
            self.alive_color
        } else {
            self.dead_color
        }
    }

    /// Picks the color for the given alive-state.
    pub fn color_for(&self, alive: bool) -> (c: Color)
        ensures
            c == self.spec_color_for(alive),
    {
        if alive {
            self.alive_color
        } else {
            self.dead_color
        }
    }
}

} // verus!
