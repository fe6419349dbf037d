//! Character classes: sets of characters given by ranges.

use vstd::prelude::*;

verus! {

/// A character class: the characters of its ranges, or, where it is negated,
/// all the others. A range is kept as the code points of its two ends.
#[derive(Debug)]
pub struct Ccl {
    pub ranges: Vec<(u32, u32)>,
    pub negated: bool,
}

/// Whether `ch` lies in one of the ranges; both ends of a range belong to it.
pub open spec fn in_ranges(ranges: Seq<(u32, u32)>, ch: char) -> bool {
    exists|i: int|
        0 <= i < ranges.len() && (#[trigger] ranges[i]).0 as int <= ch as int <= ranges[i].1 as int
}

impl Ccl {
    /// Whether the class holds `ch`.
    pub open spec fn accepts(&self, ch: char) -> bool {
        in_ranges(self.ranges@, ch) != self.negated
    }

    /// The class of no character.
    pub fn new() -> (ccl: Ccl)
        ensures
            forall|ch: char| !ccl.accepts(ch),
    {
        Ccl { ranges: Vec::new(), negated: false }
    }

    /// The class of the characters from `first` to `last`.
    pub fn from_range(first: char, last: char) -> (ccl: Ccl)
        ensures
            forall|ch: char| ccl.accepts(ch) == (first as int <= ch as int <= last as int),
    {
        let mut ranges: Vec<(u32, u32)> = Vec::new();
        ranges.push((first as u32, last as u32));
        let ccl = Ccl { ranges, negated: false };
        assert forall|ch: char| ccl.accepts(ch) == (first as int <= ch as int <= last as int) by {
            if first as int <= ch as int <= last as int {
                assert(ccl.ranges@[0].0 as int <= ch as int <= ccl.ranges@[0].1 as int);
            }
        }
        ccl
    }

    /// Adds the characters from `first` to `last`; in a negated class, takes them out.
    pub fn add(&mut self, first: char, last: char)
        ensures
            final(self).negated == old(self).negated,
            forall|ch: char|
                in_ranges(final(self).ranges@, ch) == (in_ranges(old(self).ranges@, ch) || first as int
                    <= ch as int <= last as int),
    {
        self.ranges.push((first as u32, last as u32));
        assert forall|ch: char|
            in_ranges(self.ranges@, ch) == (in_ranges(old(self).ranges@, ch) || first as int
                <= ch as int <= last as int) by {
            let n = old(self).ranges@.len() as int;
            if in_ranges(old(self).ranges@, ch) {
                let i = choose|i: int|
                    0 <= i < old(self).ranges@.len() && (#[trigger] old(self).ranges@[i]).0 as int
                        <= ch as int <= old(self).ranges@[i].1 as int;
                assert(self.ranges@[i].0 as int <= ch as int <= self.ranges@[i].1 as int);
            }
            if first as int <= ch as int <= last as int {
                assert(self.ranges@[n].0 as int <= ch as int <= self.ranges@[n].1 as int);
            }
            if in_ranges(self.ranges@, ch) {
                let i = choose|i: int|
                    0 <= i < self.ranges@.len() && (#[trigger] self.ranges@[i]).0 as int <= ch as int
                        <= self.ranges@[i].1 as int;
                if i < n {
                    assert(old(self).ranges@[i].0 as int <= ch as int <= old(self).ranges@[i].1 as int);
                }
            }
        }
    }

    /// Turns the class into the class of all the other characters.
    pub fn negate(&mut self)
        ensures
            forall|ch: char| final(self).accepts(ch) == !old(self).accepts(ch),
    {
        self.negated = !self.negated;
    }

    /// Whether the class holds `ch`.
    pub fn test(&self, ch: char) -> (held: bool)
        ensures
            held == self.accepts(ch),
    {
        let mut i: usize = 0;
        while i < self.ranges.len()
            invariant
                i <= self.ranges.len(),
                forall|k: int|
                    0 <= k < i ==> !((#[trigger] self.ranges@[k]).0 as int <= ch as int
                        <= self.ranges@[k].1 as int),
            decreases self.ranges.len() - i,
        {
            let range = self.ranges[i];
            if range.0 <= ch as u32 && ch as u32 <= range.1 {
                return !self.negated;
            }
            i = i + 1;
        }
        self.negated
    }
}

} // verus!
