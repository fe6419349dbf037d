//! The memo table: for a block and the position it was tried at, where the
//! match ended and what it gave.

use vstd::prelude::*;

use crate::capture::{clone_result, outcome_of, Accept, Outcome, Reject};

verus! {

/// One record of the memo table.
pub struct MemoEntry {
    pub start: usize,
    pub block: usize,
    pub end: usize,
    pub result: Result<Accept, Reject>,
}

/// The memo table. A later record of a key stands for the earlier ones.
pub struct Memo {
    pub entries: Vec<MemoEntry>,
}

/// The table as a map from (start, block) to (end, outcome).
pub type MemoModel = Map<(usize, usize), (usize, Outcome)>;

/// The map that the first `n` records make.
pub open spec fn memo_of(entries: Seq<MemoEntry>, n: int) -> MemoModel
    decreases n,
{
    if n <= 0 || n > entries.len() {
        Map::empty()
    } else {
        memo_of(entries, n - 1).insert(
            (entries[n - 1].start, entries[n - 1].block),
            (entries[n - 1].end, outcome_of(entries[n - 1].result)),
        )
    }
}

impl View for Memo {
    type V = MemoModel;

    open spec fn view(&self) -> MemoModel {
        memo_of(self.entries@, self.entries@.len() as int)
    }
}

proof fn lemma_memo_prefix(entries: Seq<MemoEntry>, longer: Seq<MemoEntry>, n: int)
    requires
        0 <= n <= entries.len() <= longer.len(),
        forall|i: int| 0 <= i < entries.len() ==> entries[i] == longer[i],
    ensures
        memo_of(entries, n) == memo_of(longer, n),
    decreases n,
{
    if n > 0 {
        lemma_memo_prefix(entries, longer, n - 1);
    }
}

impl Memo {
    /// The empty table.
    pub fn new() -> (memo: Memo)
        ensures
            memo@ == Map::<(usize, usize), (usize, Outcome)>::empty(),
    {
        Memo { entries: Vec::new() }
    }

    /// The number of records kept.
    pub fn len(&self) -> (n: usize)
        ensures
            n == self.entries@.len(),
    {
        self.entries.len()
    }

    /// The record of `block` at `start`: the end of the match and a copy of its outcome.
    pub fn get(&self, start: usize, block: usize) -> (found: Option<(usize, Result<Accept, Reject>)>)
        ensures
            match found {
                Some((end, result)) => self@.contains_key((start, block)) && self@[(start, block)]
                    == (end, outcome_of(result)),
                None => !self@.contains_key((start, block)),
            },
    {
        let mut i: usize = self.entries.len();
        while i > 0
            invariant
                i <= self.entries.len(),
                self@.contains_key((start, block)) == memo_of(self.entries@, i as int).contains_key(
                    (start, block),
                ),
                self@.contains_key((start, block)) ==> self@[(start, block)] == memo_of(
                    self.entries@,
                    i as int,
                )[(start, block)],
            decreases i,
        {
            i = i - 1;
            let entry = &self.entries[i];
            if entry.start == start && entry.block == block {
                return Some((entry.end, clone_result(&entry.result)));
            }
        }
        None
    }

    /// Records for `block` at `start` where its match ended and what it gave.
    pub fn insert(&mut self, start: usize, block: usize, end: usize, result: Result<Accept, Reject>)
        ensures
            final(self)@ == old(self)@.insert((start, block), (end, outcome_of(result))),
    {
        let ghost before = self.entries@;
        self.entries.push(MemoEntry { start, block, end, result });
        proof {
            lemma_memo_prefix(before, self.entries@, before.len() as int);
        }
    }
}

} // verus!
