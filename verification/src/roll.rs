//! The data model: a roll specification, the keep selector, and the record
//! of a single die's result.

use vstd::prelude::*;

verus! {

/// Which dice of an ascending-sorted pool count towards the total: the
/// highest `n` or the lowest `n`.
#[derive(Clone, Copy, Debug, PartialEq, Eq)]
pub enum Keep {
    High(usize),
    Low(usize),
}

/// The result of one die: either rolled once, or rerolled, with the original
/// and the replacement both recorded.
#[derive(Clone, Copy, Debug, PartialEq, Eq)]
pub enum DieRoll {
    Kept(u32),
    Rerolled(u32, u32),
}

impl DieRoll {
    /// The value that counts towards a total: the replacement of a rerolled
    /// die, the single value otherwise.
    pub open spec fn spec_value(self) -> u32 {
        match self {
            DieRoll::Kept(n) => n,
            DieRoll::Rerolled(_, n) => n,
        }
    }

    pub fn value(&self) -> (v: u32)
        ensures
            v == self.spec_value(),
    {
        match self {
            DieRoll::Kept(n) => *n,
            DieRoll::Rerolled(_, n) => *n,
        }
    }
}

/// A fully parsed dice expression: `num` dice of `die` sides, an optional
/// reroll threshold, an optional keep selector, and an optional modifier
/// added to the total.
#[derive(Clone, Copy, Debug, PartialEq, Eq)]
pub struct Roll {
    pub num: u32,
    pub die: u32,
    pub reroll: Option<u32>,
    pub keep: Option<Keep>,
    pub modifier: Option<i32>,
}

impl Roll {
    pub fn new(num: u32, die: u32, reroll: Option<u32>, keep: Option<Keep>, modifier: Option<i32>) -> (r: Roll)
        ensures
            r == (Roll { num, die, reroll, keep, modifier }),
    {
        Roll { num, die, reroll, keep, modifier }
    }

    /// The modifier as a plain number: zero where none was given.
    pub open spec fn spec_modifier_or_zero(self) -> int {
        match self.modifier {
            Some(m) => m as int,
            None => 0,
        }
    }
}

impl Default for Roll {
    /// One die with everything else absent. The die size starts at zero: a
    /// token must provide it, and the parser refuses one that does not.
    fn default() -> (r: Roll)
        ensures
            r == (Roll { num: 1, die: 0, reroll: None, keep: None, modifier: None }),
    {
        Roll { num: 1, die: 0, reroll: None, keep: None, modifier: None }
    }
}

} // verus!
