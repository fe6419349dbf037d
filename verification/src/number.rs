//! The identities of blocks: every block of a program gets a number of its
//! own, by which the memo table tells the blocks apart.

use vstd::prelude::*;

use crate::op::{Block, Op, Repeat, Sequence};

verus! {

/// The number of blocks in an operation.
pub open spec fn blocks_in(op: &Op) -> nat
    decreases op, 0nat,
{
    match op {
        Op::Peek(inner) | Op::Not(inner) | Op::Expect(inner) => blocks_in(inner),
        Op::Repeat(repeat) => blocks_in(&repeat.parser),
        Op::Sequence(sequence) => item_blocks(sequence, sequence.items.len() as int),
        Op::Block(block) => 1 + alternative_blocks(block, block.items.len() as int),
        _ => 0,
    }
}

/// The number of blocks in the first `n` items of a sequence.
pub open spec fn item_blocks(sequence: &Sequence, n: int) -> nat
    decreases sequence, n,
{
    if n <= 0 || n > sequence.items.len() {
        0
    } else {
        item_blocks(sequence, n - 1) + blocks_in(&sequence.items[n - 1].0)
    }
}

/// The number of blocks in the first `n` alternatives of a block.
pub open spec fn alternative_blocks(block: &Block, n: int) -> nat
    decreases block, n,
{
    if n <= 0 || n > block.items.len() {
        0
    } else {
        alternative_blocks(block, n - 1) + blocks_in(&block.items[n - 1].0)
    }
}

/// Whether `after` is `before` with its blocks numbered from `first` on, in
/// reading order: a block before the blocks it holds, and those of an
/// earlier item before those of a later one. Nothing else is changed.
pub open spec fn numbered_from(before: &Op, after: &Op, first: int) -> bool
    decreases before,
{
    match before {
        Op::Peek(inner) => after matches Op::Peek(done) && numbered_from(inner, done, first),
        Op::Not(inner) => after matches Op::Not(done) && numbered_from(inner, done, first),
        Op::Expect(inner) => after matches Op::Expect(done) && numbered_from(inner, done, first),
        Op::Repeat(repeat) => after matches Op::Repeat(done) && done.min == repeat.min && done.max
            == repeat.max && done.silent == repeat.silent && numbered_from(
            &repeat.parser,
            &done.parser,
            first,
        ),
        Op::Sequence(sequence) => after matches Op::Sequence(done) && done.leftrec
            == sequence.leftrec && done.nullable == sequence.nullable && done.items@.len()
            == sequence.items@.len() && forall|i: int|
            0 <= i < sequence.items@.len() ==> (#[trigger] done.items@[i]).1 == sequence.items@[i].1
                && numbered_from(
                &sequence.items@[i].0,
                &done.items@[i].0,
                first + item_blocks(sequence, i),
            ),
        Op::Block(block) => after matches Op::Block(done) && done.id == first && done.leftrec
            == block.leftrec && done.all_leftrec == block.all_leftrec && done.items@.len()
            == block.items@.len() && forall|i: int|
            0 <= i < block.items@.len() ==> (#[trigger] done.items@[i]).1 == block.items@[i].1
                && numbered_from(
                &block.items@[i].0,
                &done.items@[i].0,
                first + 1 + alternative_blocks(block, i),
            ),
        _ => *after == *before,
    }
}

/// The number after `next` blocks more, as far as numbers go.
pub open spec fn counted(next: usize, blocks: nat) -> usize {
    if next + blocks <= usize::MAX {
        (next + blocks) as usize
    } else {
        usize::MAX
    }
}

impl Op {
    /// Numbers the blocks of the operation from `next` on. The result is
    /// the operation with its blocks numbered, and the next free number.
    /// Where the numbers run out, the last one is used again.
    pub fn number(self, next: usize) -> (done: (Op, usize))
        ensures
            done.1 == counted(next, blocks_in(&self)),
            next + blocks_in(&self) <= usize::MAX ==> numbered_from(&self, &done.0, next as int),
        decreases self, 0nat,
    {
        match self {
            Op::Peek(inner) => {
                let op: Op = *inner;
                let done = op.number(next);
                (Op::Peek(Box::new(done.0)), done.1)
            },
            Op::Not(inner) => {
                let op: Op = *inner;
                let done = op.number(next);
                (Op::Not(Box::new(done.0)), done.1)
            },
            Op::Expect(inner) => {
                let op: Op = *inner;
                let done = op.number(next);
                (Op::Expect(Box::new(done.0)), done.1)
            },
            Op::Repeat(repeat) => {
                let Repeat { parser, min, max, silent } = *repeat;
                let done = parser.number(next);
                (Op::Repeat(Box::new(Repeat { parser: done.0, min, max, silent })), done.1)
            },
            Op::Sequence(sequence) => {
                let done = sequence.number(next);
                (Op::Sequence(done.0), done.1)
            },
            Op::Block(block) => {
                let done = block.number(next);
                (Op::Block(done.0), done.1)
            },
            other => (other, next),
        }
    }
}

impl Sequence {
    /// Numbers the blocks in the items of the sequence from `next` on.
    #[verifier::loop_isolation(false)]
    pub fn number(self, next: usize) -> (done: (Sequence, usize))
        ensures
            done.1 == counted(next, blocks_in(&Op::Sequence(self))),
            next + blocks_in(&Op::Sequence(self)) <= usize::MAX ==> numbered_from(
                &Op::Sequence(self),
                &Op::Sequence(done.0),
                next as int,
            ),
        decreases self, 0nat,
    {
        let ghost given = self.items@;
        let ghost whole = self.items;
        let ghost total = blocks_in(&Op::Sequence(self));
        let Sequence { leftrec, nullable, items } = self;
        let mut rest = items;
        let mut done: Vec<(Op, Option<String>)> = Vec::new();
        let mut free = next;
        while rest.len() > 0
            invariant
                done.len() + rest.len() == given.len(),
                forall|k: int| 0 <= k < rest.len() ==> rest@[k] == #[trigger] given[done.len() + k],
                free == counted(next, item_blocks(&self, done.len() as int)),
                item_blocks(&self, done.len() as int) <= total,
                next + total <= usize::MAX ==> forall|k: int|
                    0 <= k < done.len() ==> (#[trigger] done@[k]).1 == given[k].1
                        && numbered_from(
                        &given[k].0,
                        &done@[k].0,
                        next + item_blocks(&self, k),
                    ),
            decreases rest.len(),
        {
            let ghost at = done.len() as int;
            let item = rest.remove(0);
            assert(item == given[at + 0]);
            assert(decreases_to!(whole => whole[at]));
            proof {
                lemma_item_blocks_grow(&self, at + 1, given.len() as int);
            }
            let numbered = item.0.number(free);
            free = numbered.1;
            done.push((numbered.0, item.1));
            assert forall|k: int| 0 <= k < rest.len() implies rest@[k] == #[trigger] given[done.len()
                + k] by {
                assert(given[at + (k + 1)] == given[done.len() + k]);
            }
        }
        let result = Sequence { leftrec, nullable, items: done };
        proof {
            reveal_with_fuel(numbered_from, 2);
            if next + total <= usize::MAX {
                assert forall|i: int| 0 <= i < given.len() implies (
                #[trigger] result.items@[i]).1 == given[i].1 && numbered_from(
                    &given[i].0,
                    &result.items@[i].0,
                    next + item_blocks(&self, i),
                ) by {
                    assert(result.items@[i] == done@[i]);
                }
            }
        }
        (result, free)
    }
}

impl Block {
    /// Gives the block the number `next` and numbers the blocks in its
    /// alternatives from the number after it on.
    #[verifier::loop_isolation(false)]
    pub fn number(self, next: usize) -> (done: (Block, usize))
        ensures
            done.1 == counted(next, blocks_in(&Op::Block(self))),
            next + blocks_in(&Op::Block(self)) <= usize::MAX ==> numbered_from(
                &Op::Block(self),
                &Op::Block(done.0),
                next as int,
            ),
        decreases self, 0nat,
    {
        let ghost given = self.items@;
        let ghost whole = self.items;
        let ghost total = blocks_in(&Op::Block(self));
        let Block { id: _, leftrec, all_leftrec, items } = self;
        let mut rest = items;
        let mut done: Vec<(Op, bool)> = Vec::new();
        let mut free = if next < usize::MAX {
            next + 1
        } else {
            next
        };
        while rest.len() > 0
            invariant
                done.len() + rest.len() == given.len(),
                forall|k: int| 0 <= k < rest.len() ==> rest@[k] == #[trigger] given[done.len() + k],
                free == counted(next, 1 + alternative_blocks(&self, done.len() as int)),
                1 + alternative_blocks(&self, done.len() as int) <= total,
                next + total <= usize::MAX ==> forall|k: int|
                    0 <= k < done.len() ==> (#[trigger] done@[k]).1 == given[k].1
                        && numbered_from(
                        &given[k].0,
                        &done@[k].0,
                        next + 1 + alternative_blocks(&self, k),
                    ),
            decreases rest.len(),
        {
            let ghost at = done.len() as int;
            let item = rest.remove(0);
            assert(item == given[at + 0]);
            assert(decreases_to!(whole => whole[at]));
            proof {
                lemma_alternative_blocks_grow(&self, at + 1, given.len() as int);
            }
            let numbered = item.0.number(free);
            free = numbered.1;
            done.push((numbered.0, item.1));
            assert forall|k: int| 0 <= k < rest.len() implies rest@[k] == #[trigger] given[done.len()
                + k] by {
                assert(given[at + (k + 1)] == given[done.len() + k]);
            }
        }
        let result = Block { id: next, leftrec, all_leftrec, items: done };
        proof {
            reveal_with_fuel(numbered_from, 2);
            if next + total <= usize::MAX {
                assert forall|i: int| 0 <= i < given.len() implies (
                #[trigger] result.items@[i]).1 == given[i].1 && numbered_from(
                    &given[i].0,
                    &result.items@[i].0,
                    next + 1 + alternative_blocks(&self, i),
                ) by {
                    assert(result.items@[i] == done@[i]);
                }
            }
        }
        (result, free)
    }
}

/// More items hold no fewer blocks.
pub proof fn lemma_item_blocks_grow(sequence: &Sequence, k: int, n: int)
    requires
        0 <= k <= n <= sequence.items.len(),
    ensures
        item_blocks(sequence, k) <= item_blocks(sequence, n),
    decreases n - k,
{
    if k < n {
        lemma_item_blocks_grow(sequence, k, n - 1);
    }
}

/// More alternatives hold no fewer blocks.
pub proof fn lemma_alternative_blocks_grow(block: &Block, k: int, n: int)
    requires
        0 <= k <= n <= block.items.len(),
    ensures
        alternative_blocks(block, k) <= alternative_blocks(block, n),
    decreases n - k,
{
    if k < n {
        lemma_alternative_blocks_grow(block, k, n - 1);
    }
}

/// The identities of the blocks of an operation, in reading order.
pub open spec fn ids_of(op: &Op) -> Seq<usize>
    decreases op, 0nat,
{
    match op {
        Op::Peek(inner) | Op::Not(inner) | Op::Expect(inner) => ids_of(inner),
        Op::Repeat(repeat) => ids_of(&repeat.parser),
        Op::Sequence(sequence) => item_ids(sequence, sequence.items.len() as int),
        Op::Block(block) => seq![block.id] + alternative_ids(block, block.items.len() as int),
        _ => Seq::empty(),
    }
}

/// The identities of the blocks in the first `n` items of a sequence.
pub open spec fn item_ids(sequence: &Sequence, n: int) -> Seq<usize>
    decreases sequence, n,
{
    if n <= 0 || n > sequence.items.len() {
        Seq::empty()
    } else {
        item_ids(sequence, n - 1) + ids_of(&sequence.items[n - 1].0)
    }
}

/// The identities of the blocks in the first `n` alternatives of a block.
pub open spec fn alternative_ids(block: &Block, n: int) -> Seq<usize>
    decreases block, n,
{
    if n <= 0 || n > block.items.len() {
        Seq::empty()
    } else {
        alternative_ids(block, n - 1) + ids_of(&block.items[n - 1].0)
    }
}

/// The `n` numbers from `first` on.
pub open spec fn counting(first: int, n: nat) -> Seq<usize> {
    Seq::new(n, |k: int| (first + k) as usize)
}

/// Numbers counted on after numbers counted are numbers counted.
pub proof fn lemma_counting_joins(first: int, a: nat, b: nat)
    ensures
        counting(first, a) + counting(first + a, b) == counting(first, a + b),
{
    assert(counting(first, a) + counting(first + a, b) =~= counting(first, a + b));
}

/// The blocks of a numbered operation have the numbers from `first` on, in
/// reading order, each once.
pub proof fn lemma_numbered_ids(before: &Op, after: &Op, first: int)
    requires
        numbered_from(before, after, first),
        0 <= first,
        first + blocks_in(before) <= usize::MAX,
    ensures
        ids_of(after) == counting(first, blocks_in(before)),
    decreases before, 0nat,
{
    match before {
        Op::Peek(inner) => {
            lemma_numbered_ids(inner, &*after->Peek_0, first);
        },
        Op::Not(inner) => {
            lemma_numbered_ids(inner, &*after->Not_0, first);
        },
        Op::Expect(inner) => {
            lemma_numbered_ids(inner, &*after->Expect_0, first);
        },
        Op::Repeat(repeat) => {
            lemma_numbered_ids(&repeat.parser, &after->Repeat_0.parser, first);
        },
        Op::Sequence(sequence) => {
            lemma_item_ids(sequence, &after->Sequence_0, first, sequence.items.len() as int);
        },
        Op::Block(block) => {
            let done = after->Block_0;
            lemma_alternative_ids(block, &done, first, block.items.len() as int);
            lemma_counting_joins(first, 1, alternative_blocks(block, block.items.len() as int));
            assert(seq![done.id] =~= counting(first, 1));
        },
        _ => {
            assert(ids_of(after) =~= counting(first, 0));
        },
    }
}

proof fn lemma_item_ids(before: &Sequence, after: &Sequence, first: int, n: int)
    requires
        numbered_from(&Op::Sequence(*before), &Op::Sequence(*after), first),
        0 <= first,
        0 <= n <= before.items.len(),
        first + item_blocks(before, before.items.len() as int) <= usize::MAX,
    ensures
        item_ids(after, n) == counting(first, item_blocks(before, n)),
    decreases before, n,
{
    reveal_with_fuel(numbered_from, 2);
    if n > 0 {
        lemma_item_blocks_grow(before, n, before.items.len() as int);
        lemma_item_blocks_grow(before, n - 1, n);
        lemma_item_ids(before, after, first, n - 1);
        let op = Op::Sequence(*before);
        assert(op->Sequence_0.items@[n - 1] == before.items@[n - 1]);
        assert(after.items@[n - 1].1 == before.items@[n - 1].1);
        lemma_numbered_ids(
            &before.items[n - 1].0,
            &after.items[n - 1].0,
            first + item_blocks(before, n - 1),
        );
        lemma_counting_joins(first, item_blocks(before, n - 1), blocks_in(&before.items[n - 1].0));
    } else {
        assert(item_ids(after, n) =~= counting(first, 0));
    }
}

proof fn lemma_alternative_ids(before: &Block, after: &Block, first: int, n: int)
    requires
        numbered_from(&Op::Block(*before), &Op::Block(*after), first),
        0 <= first,
        0 <= n <= before.items.len(),
        first + 1 + alternative_blocks(before, before.items.len() as int) <= usize::MAX,
    ensures
        alternative_ids(after, n) == counting(first + 1, alternative_blocks(before, n)),
    decreases before, n,
{
    reveal_with_fuel(numbered_from, 2);
    if n > 0 {
        lemma_alternative_blocks_grow(before, n, before.items.len() as int);
        lemma_alternative_blocks_grow(before, n - 1, n);
        lemma_alternative_ids(before, after, first, n - 1);
        let op = Op::Block(*before);
        assert(op->Block_0.items@[n - 1] == before.items@[n - 1]);
        assert(after.items@[n - 1].1 == before.items@[n - 1].1);
        lemma_numbered_ids(
            &before.items[n - 1].0,
            &after.items[n - 1].0,
            first + 1 + alternative_blocks(before, n - 1),
        );
        lemma_counting_joins(
            first + 1,
            alternative_blocks(before, n - 1),
            blocks_in(&before.items[n - 1].0),
        );
    } else {
        assert(alternative_ids(after, n) =~= counting(first + 1, 0));
    }
}

/// No two of the numbers counted are the same.
pub proof fn lemma_counting_distinct(first: int, n: nat, i: int, j: int)
    requires
        0 <= first,
        first + n <= usize::MAX + 1,
        0 <= i < j < n,
    ensures
        counting(first, n)[i] != counting(first, n)[j],
{
}

} // verus!
