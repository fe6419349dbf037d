//! Finalization: which parselets are left-recursive and which are nullable.
//!
//! The flags are found by walking the bodies of the parselets again and
//! again until a walk changes nothing. A flag moves in one direction only:
//! `leftrec` from false to true, `nullable` from true to false.

use vstd::prelude::*;

use crate::op::{Block, Op, Repeat, Sequence};
use crate::parselet::Parselet;
use crate::program::Static;
use crate::value::Value;

verus! {

/// An operation without the flags that finalization sets: what the walk reads.
pub enum Shape {
    /// An operation that holds no other operation.
    Leaf(Op),
    Peek(Box<Shape>),
    Not(Box<Shape>),
    Expect(Box<Shape>),
    Repeat(Box<Shape>, usize, usize, bool),
    Sequence(Seq<(Shape, Option<String>)>),
    Block(usize, Seq<Shape>),
}

/// The shape of an operation.
pub open spec fn shape_of(op: &Op) -> Shape
    decreases op,
{
    match op {
        Op::Peek(inner) => Shape::Peek(Box::new(shape_of(inner))),
        Op::Not(inner) => Shape::Not(Box::new(shape_of(inner))),
        Op::Expect(inner) => Shape::Expect(Box::new(shape_of(inner))),
        Op::Repeat(repeat) => Shape::Repeat(
            Box::new(shape_of(&repeat.parser)),
            repeat.min,
            repeat.max,
            repeat.silent,
        ),
        Op::Sequence(sequence) => Shape::Sequence(item_shapes(sequence.items@)),
        Op::Block(block) => Shape::Block(block.id, alternative_shapes(block.items@)),
        _ => Shape::Leaf(*op),
    }
}

/// The shapes of the items of a sequence, each with its alias.
pub open spec fn item_shapes(items: Seq<(Op, Option<String>)>) -> Seq<(Shape, Option<String>)>
    decreases items,
{
    Seq::new(
        items.len(),
        |k: int|
            if 0 <= k < items.len() {
                (shape_of(&items[k].0), items[k].1)
            } else {
                (Shape::Leaf(Op::Nop), None)
            },
    )
}

/// The shapes of the alternatives of a block.
pub open spec fn alternative_shapes(items: Seq<(Op, bool)>) -> Seq<Shape>
    decreases items,
{
    Seq::new(
        items.len(),
        |k: int|
            if 0 <= k < items.len() {
                shape_of(&items[k].0)
            } else {
                Shape::Leaf(Op::Nop)
            },
    )
}

/// The flags of the parselets of a table, left-recursive first, nullable second.
pub type Table = Seq<(bool, bool)>;

/// The flags of an operation: whether it is left-recursive, and whether it is nullable.
pub type Flags = (bool, bool);

/// The shapes of the bodies of the parselets of a table; an entry that is no
/// parselet has none.
pub open spec fn bodies_of(statics: Seq<Static>) -> Seq<Option<Shape>> {
    Seq::new(
        statics.len(),
        |j: int|
            match statics[j] {
                Static::Parselet(parselet) => Some(shape_of(&parselet.body)),
                _ => None,
            },
    )
}

/// The call of the static at `addr`.
///
/// A parselet that is being walked further up makes the caller
/// left-recursive. Any other parselet is walked itself, its flags in the
/// table move to what the walk gives, and the caller is nullable where the
/// parselet then is. A walk that would nest deeper than the budget counts as
/// one further up.
pub open spec fn call_analysed(
    addr: usize,
    bodies: Seq<Option<Shape>>,
    table: Table,
    active: Seq<bool>,
    budget: nat,
) -> (Table, Flags)
    decreases budget, 0nat,
{
    if addr < active.len() && active[addr as int] {
        (table, (true, true))
    } else if addr < bodies.len() && addr < table.len() && addr < active.len()
        && bodies[addr as int] is Some {
        if budget == 0 {
            (table, (true, true))
        } else {
            let walk = analysed(
                bodies[addr as int]->0,
                bodies,
                table,
                active.update(addr as int, true),
                (budget - 1) as nat,
            );
            let moved = merged(walk.0, addr as int, walk.1);
            (moved, (false, moved[addr as int].1))
        }
    } else {
        (table, (false, true))
    }
}

/// The table with the flags at `i` moved to what a walk gave: left-recursive
/// where it was or the walk found it so, nullable where it was and the walk
/// found it so.
pub open spec fn merged(table: Table, i: int, found: Flags) -> Table {
    if 0 <= i < table.len() {
        table.update(i, (table[i].0 || found.0, table[i].1 && found.1))
    } else {
        table
    }
}

/// The walk of an operation: the table after it, and the flags of the operation.
///
/// A character parser and a match are not nullable. A peek and a not are
/// what they hold. A repetition is left-recursive where its parser is and
/// nullable where its minimum is 0. A sequence is left-recursive where one
/// of the items walked is, and nullable where all its items are; its items
/// are walked as long as all items before are nullable. A block is
/// left-recursive where one alternative is, and nullable where one is. A
/// call is handled by `call_analysed`. Anything else, an expectation too, is
/// nullable and not left-recursive.
pub open spec fn analysed(
    shape: Shape,
    bodies: Seq<Option<Shape>>,
    table: Table,
    active: Seq<bool>,
    budget: nat,
) -> (Table, Flags)
    decreases budget, 1nat, shape, 0nat,
{
    match shape {
        Shape::Leaf(op) => match op {
            Op::Char(_) | Op::Match(_) => (table, (false, false)),
            Op::CallStatic(addr) | Op::CallStaticArg(addr, _) | Op::CallStaticArgNamed(addr, _) => {
                call_analysed(addr, bodies, table, active, budget)
            },
            _ => (table, (false, true)),
        },
        Shape::Peek(inner) | Shape::Not(inner) => analysed(*inner, bodies, table, active, budget),
        Shape::Expect(_) => (table, (false, true)),
        Shape::Repeat(inner, min, _, _) => {
            let walk = analysed(*inner, bodies, table, active, budget);
            (walk.0, (walk.1.0, min == 0))
        },
        Shape::Sequence(items) => sequence_walk(
            items,
            items.len() as int,
            bodies,
            table,
            active,
            budget,
        ),
        Shape::Block(_, items) => {
            let walk = block_walk(items, items.len() as int, bodies, table, active, budget);
            (walk.0, (walk.1.0, walk.1.1))
        },
    }
}

/// The table and the flags of a sequence after its first `n` items: an item
/// is walked only where all items before it are nullable.
pub open spec fn sequence_walk(
    items: Seq<(Shape, Option<String>)>,
    n: int,
    bodies: Seq<Option<Shape>>,
    table: Table,
    active: Seq<bool>,
    budget: nat,
) -> (Table, Flags)
    decreases budget, 1nat, items, n,
{
    if n <= 0 || n > items.len() {
        (table, (false, true))
    } else {
        let before = sequence_walk(items, n - 1, bodies, table, active, budget);
        if !before.1.1 {
            before
        } else {
            let walk = analysed(items[n - 1].0, bodies, before.0, active, budget);
            (walk.0, (before.1.0 || walk.1.0, walk.1.1))
        }
    }
}

/// The table and the flags of a block after its first `n` alternatives:
/// one alternative is left-recursive; one is nullable; all are left-recursive.
pub open spec fn block_walk(
    items: Seq<Shape>,
    n: int,
    bodies: Seq<Option<Shape>>,
    table: Table,
    active: Seq<bool>,
    budget: nat,
) -> (Table, (bool, bool, bool))
    decreases budget, 1nat, items, n,
{
    if n <= 0 || n > items.len() {
        (table, (false, false, true))
    } else {
        let before = block_walk(items, n - 1, bodies, table, active, budget);
        let walk = analysed(items[n - 1], bodies, before.0, active, budget);
        (walk.0, (before.1.0 || walk.1.0, before.1.1 || walk.1.1, before.1.2 && walk.1.0))
    }
}

/// Whether the flags inside an operation are those that its walk gives.
///
/// A sequence holds its own flags, and the items that the walk reaches are
/// annotated. A block holds for each alternative whether it is
/// left-recursive, and whether one and whether all of them are. What the
/// walk does not reach, the items of a sequence after one that is not
/// nullable and what an expectation holds, is not asked about.
pub open spec fn annotated(
    op: &Op,
    bodies: Seq<Option<Shape>>,
    table: Table,
    active: Seq<bool>,
    budget: nat,
) -> bool
    decreases op,
{
    match op {
        Op::Peek(inner) | Op::Not(inner) => annotated(inner, bodies, table, active, budget),
        Op::Repeat(repeat) => annotated(&repeat.parser, bodies, table, active, budget),
        Op::Sequence(sequence) => {
            let shapes = item_shapes(sequence.items@);
            &&& (sequence.leftrec, sequence.nullable) == sequence_walk(
                shapes,
                shapes.len() as int,
                bodies,
                table,
                active,
                budget,
            ).1
            &&& forall|i: int|
                0 <= i < sequence.items.len() && sequence_walk(
                    shapes,
                    i,
                    bodies,
                    table,
                    active,
                    budget,
                ).1.1 ==> annotated(
                    &(#[trigger] sequence.items[i]).0,
                    bodies,
                    sequence_walk(shapes, i, bodies, table, active, budget).0,
                    active,
                    budget,
                )
        },
        Op::Block(block) => {
            let shapes = alternative_shapes(block.items@);
            let walk = block_walk(shapes, shapes.len() as int, bodies, table, active, budget);
            &&& block.leftrec == walk.1.0
            &&& block.all_leftrec == walk.1.2
            &&& forall|i: int|
                0 <= i < block.items.len() ==> annotated(
                    &(#[trigger] block.items[i]).0,
                    bodies,
                    block_walk(shapes, i, bodies, table, active, budget).0,
                    active,
                    budget,
                ) && block.items[i].1 == analysed(
                    shapes[i],
                    bodies,
                    block_walk(shapes, i, bodies, table, active, budget).0,
                    active,
                    budget,
                ).1.0
        },
        _ => true,
    }
}

/// Once an item of a sequence is not nullable, the walk stands still.
pub proof fn lemma_sequence_stuck(
    items: Seq<(Shape, Option<String>)>,
    k: int,
    n: int,
    bodies: Seq<Option<Shape>>,
    table: Table,
    active: Seq<bool>,
    budget: nat,
)
    requires
        0 <= k <= n <= items.len(),
        !sequence_walk(items, k, bodies, table, active, budget).1.1,
    ensures
        sequence_walk(items, n, bodies, table, active, budget) == sequence_walk(
            items,
            k,
            bodies,
            table,
            active,
            budget,
        ),
    decreases n - k,
{
    if k < n {
        lemma_sequence_stuck(items, k, n - 1, bodies, table, active, budget);
    }
}

/// The flags of `after` have only moved in their direction from those of
/// `before`: what was left-recursive still is, and what is nullable was.
pub open spec fn moved_on(before: Table, after: Table) -> bool {
    &&& after.len() == before.len()
    &&& forall|k: int|
        0 <= k < before.len() ==> ((#[trigger] before[k]).0 ==> after[k].0) && (after[k].1
            ==> before[k].1)
}

/// What every walk keeps: the table and the marks keep their length, the
/// marks are as they were, and the flags have only moved in their direction.
pub open spec fn walk_kept(
    before: Table,
    after: Table,
    marks_before: Seq<bool>,
    marks_after: Seq<bool>,
) -> bool {
    &&& marks_after == marks_before
    &&& moved_on(before, after)
}

/// Walks the call of the static at `addr`.
pub fn analyse_call(
    addr: usize,
    statics: &Vec<Static>,
    table: &mut Vec<(bool, bool)>,
    active: &mut Vec<bool>,
    budget: usize,
) -> (flags: (bool, bool))
    requires
        old(table).len() == statics.len(),
        old(active).len() == statics.len(),
    ensures
        (final(table)@, flags) == call_analysed(
            addr,
            bodies_of(statics@),
            old(table)@,
            old(active)@,
            budget as nat,
        ),
        walk_kept(old(table)@, final(table)@, old(active)@, final(active)@),
    decreases budget, 0nat,
{
    if addr < active.len() && active[addr] {
        return (true, true);
    }
    if addr >= statics.len() {
        return (false, true);
    }
    match &statics[addr] {
        Static::Parselet(parselet) => {
            if budget == 0 {
                return (true, true);
            }
            active.set(addr, true);
            let found = parselet.body.analyse(statics, table, active, budget - 1);
            active.set(addr, false);
            assert(active@ =~= old(active)@);
            let current = table[addr];
            let merged = (current.0 || found.0, current.1 && found.1);
            table.set(addr, merged);
            (false, merged.1)
        },
        _ => (false, true),
    }
}

impl Op {
    /// Walks the operation: finds its flags, and moves the flags of the
    /// parselets that it calls.
    #[verifier::loop_isolation(false)]
    pub fn analyse(
        &self,
        statics: &Vec<Static>,
        table: &mut Vec<(bool, bool)>,
        active: &mut Vec<bool>,
        budget: usize,
    ) -> (flags: (bool, bool))
        requires
            old(table).len() == statics.len(),
            old(active).len() == statics.len(),
        ensures
            (final(table)@, flags) == analysed(
                shape_of(self),
                bodies_of(statics@),
                old(table)@,
                old(active)@,
                budget as nat,
            ),
            walk_kept(old(table)@, final(table)@, old(active)@, final(active)@),
        decreases budget, 1nat, self, 0nat,
    {
        let ghost bodies = bodies_of(statics@);
        match self {
            Op::Char(_) => (false, false),
            Op::Match(_) => (false, false),
            Op::CallStatic(addr) => analyse_call(*addr, statics, table, active, budget),
            Op::CallStaticArg(addr, _) => analyse_call(*addr, statics, table, active, budget),
            Op::CallStaticArgNamed(addr, _) => analyse_call(*addr, statics, table, active, budget),
            Op::Peek(inner) => inner.analyse(statics, table, active, budget),
            Op::Not(inner) => inner.analyse(statics, table, active, budget),
            Op::Expect(_) => (false, true),
            Op::Repeat(repeat) => {
                let found = repeat.parser.analyse(statics, table, active, budget);
                (found.0, repeat.min == 0)
            },
            Op::Sequence(sequence) => {
                let ghost shapes = item_shapes(sequence.items@);
                let mut state = (false, true);
                let mut i: usize = 0;
                while i < sequence.items.len() && state.1
                    invariant
                        i <= sequence.items.len(),
                        table.len() == statics.len(),
                        active.len() == statics.len(),
                        (table@, state) == sequence_walk(
                            shapes,
                            i as int,
                            bodies,
                            old(table)@,
                            old(active)@,
                            budget as nat,
                        ),
                        walk_kept(old(table)@, table@, old(active)@, active@),
                    decreases sequence.items.len() - i,
                {
                    let item = &sequence.items[i];
                    assert(decreases_to!(sequence.items => *item));
                    let found = item.0.analyse(statics, table, active, budget);
                    state = (state.0 || found.0, found.1);
                    i = i + 1;
                }
                proof {
                    if i < sequence.items.len() {
                        lemma_sequence_stuck(
                            shapes,
                            i as int,
                            shapes.len() as int,
                            bodies,
                            old(table)@,
                            old(active)@,
                            budget as nat,
                        );
                    }
                }
                state
            },
            Op::Block(block) => {
                let ghost shapes = alternative_shapes(block.items@);
                let mut state = (false, false, true);
                let mut i: usize = 0;
                while i < block.items.len()
                    invariant
                        i <= block.items.len(),
                        table.len() == statics.len(),
                        active.len() == statics.len(),
                        (table@, state) == block_walk(
                            shapes,
                            i as int,
                            bodies,
                            old(table)@,
                            old(active)@,
                            budget as nat,
                        ),
                        walk_kept(old(table)@, table@, old(active)@, active@),
                    decreases block.items.len() - i,
                {
                    let item = &block.items[i];
                    assert(decreases_to!(block.items => *item));
                    let found = item.0.analyse(statics, table, active, budget);
                    state = (state.0 || found.0, state.1 || found.1, state.2 && found.0);
                    i = i + 1;
                }
                (state.0, state.1)
            },
            _ => (false, true),
        }
    }

    /// Walks the operation and sets the flags inside it. The result is the
    /// operation with its flags set, and its own two flags.
    pub fn finalize(
        self,
        statics: &Vec<Static>,
        table: &mut Vec<(bool, bool)>,
        active: &mut Vec<bool>,
        budget: usize,
    ) -> (done: (Op, bool, bool))
        requires
            old(table).len() == statics.len(),
            old(active).len() == statics.len(),
        ensures
            shape_of(&done.0) == shape_of(&self),
            (final(table)@, (done.1, done.2)) == analysed(
                shape_of(&self),
                bodies_of(statics@),
                old(table)@,
                old(active)@,
                budget as nat,
            ),
            annotated(&done.0, bodies_of(statics@), old(table)@, old(active)@, budget as nat),
            walk_kept(old(table)@, final(table)@, old(active)@, final(active)@),
        decreases budget, 1nat, self, 0nat,
    {
        match self {
            Op::Char(parser) => (Op::Char(parser), false, false),
            Op::Match(parser) => (Op::Match(parser), false, false),
            Op::CallStatic(addr) => {
                let found = analyse_call(addr, statics, table, active, budget);
                (Op::CallStatic(addr), found.0, found.1)
            },
            Op::CallStaticArg(addr, argc) => {
                let found = analyse_call(addr, statics, table, active, budget);
                (Op::CallStaticArg(addr, argc), found.0, found.1)
            },
            Op::CallStaticArgNamed(addr, argc) => {
                let found = analyse_call(addr, statics, table, active, budget);
                (Op::CallStaticArgNamed(addr, argc), found.0, found.1)
            },
            Op::Peek(inner) => {
                let op: Op = *inner;
                let done = op.finalize(statics, table, active, budget);
                (Op::Peek(Box::new(done.0)), done.1, done.2)
            },
            Op::Not(inner) => {
                let op: Op = *inner;
                let done = op.finalize(statics, table, active, budget);
                (Op::Not(Box::new(done.0)), done.1, done.2)
            },
            Op::Expect(inner) => (Op::Expect(inner), false, true),
            Op::Repeat(repeat) => {
                let done = (*repeat).finalize(statics, table, active, budget);
                (Op::Repeat(Box::new(done.0)), done.1, done.2)
            },
            Op::Sequence(sequence) => {
                let done = sequence.finalize(statics, table, active, budget);
                (Op::Sequence(done.0), done.1, done.2)
            },
            Op::Block(block) => {
                let done = block.finalize(statics, table, active, budget);
                (Op::Block(done.0), done.1, done.2)
            },
            other => (other, false, true),
        }
    }
}

impl Repeat {
    /// Walks the repetition and sets the flags inside its parser.
    pub fn finalize(
        self,
        statics: &Vec<Static>,
        table: &mut Vec<(bool, bool)>,
        active: &mut Vec<bool>,
        budget: usize,
    ) -> (done: (Repeat, bool, bool))
        requires
            old(table).len() == statics.len(),
            old(active).len() == statics.len(),
        ensures
            shape_of(&Op::Repeat(Box::new(done.0))) == shape_of(&Op::Repeat(Box::new(self))),
            (final(table)@, (done.1, done.2)) == analysed(
                shape_of(&Op::Repeat(Box::new(self))),
                bodies_of(statics@),
                old(table)@,
                old(active)@,
                budget as nat,
            ),
            annotated(
                &Op::Repeat(Box::new(done.0)),
                bodies_of(statics@),
                old(table)@,
                old(active)@,
                budget as nat,
            ),
            walk_kept(old(table)@, final(table)@, old(active)@, final(active)@),
        decreases budget, 1nat, self, 0nat,
    {
        let Repeat { parser, min, max, silent } = self;
        let done = parser.finalize(statics, table, active, budget);
        (Repeat { parser: done.0, min, max, silent }, done.1, min == 0)
    }
}

impl Sequence {
    /// Walks the sequence and sets its flags and the flags inside the items
    /// that the walk reaches.
    #[verifier::loop_isolation(false)]
    pub fn finalize(
        self,
        statics: &Vec<Static>,
        table: &mut Vec<(bool, bool)>,
        active: &mut Vec<bool>,
        budget: usize,
    ) -> (done: (Sequence, bool, bool))
        requires
            old(table).len() == statics.len(),
            old(active).len() == statics.len(),
        ensures
            shape_of(&Op::Sequence(done.0)) == shape_of(&Op::Sequence(self)),
            (final(table)@, (done.1, done.2)) == analysed(
                shape_of(&Op::Sequence(self)),
                bodies_of(statics@),
                old(table)@,
                old(active)@,
                budget as nat,
            ),
            annotated(
                &Op::Sequence(done.0),
                bodies_of(statics@),
                old(table)@,
                old(active)@,
                budget as nat,
            ),
            walk_kept(old(table)@, final(table)@, old(active)@, final(active)@),
        decreases budget, 1nat, self, 0nat,
    {
        let ghost bodies = bodies_of(statics@);
        let ghost given = self.items@;
        let ghost shapes = item_shapes(given);
        let ghost table0 = table@;
        let ghost active0 = active@;
        let ghost whole = self.items;
        let Sequence { leftrec: _, nullable: _, items } = self;
        let mut rest = items;
        let mut walked: Vec<(Op, Option<String>)> = Vec::new();
        let mut state = (false, true);
        while rest.len() > 0 && state.1
            invariant
                table.len() == statics.len(),
                active.len() == statics.len(),
                walked.len() + rest.len() == given.len(),
                forall|k: int| 0 <= k < rest.len() ==> rest@[k] == #[trigger] given[walked.len() + k],
                forall|k: int|
                    0 <= k < walked.len() ==> shape_of(&(#[trigger] walked@[k]).0) == shapes[k].0
                        && walked@[k].1 == given[k].1,
                forall|k: int|
                    0 <= k < walked.len() ==> annotated(
                        &(#[trigger] walked@[k]).0,
                        bodies,
                        sequence_walk(shapes, k, bodies, table0, active0, budget as nat).0,
                        active0,
                        budget as nat,
                    ),
                (table@, state) == sequence_walk(
                    shapes,
                    walked.len() as int,
                    bodies,
                    table0,
                    active0,
                    budget as nat,
                ),
                walk_kept(table0, table@, active0, active@),
            decreases rest.len(),
        {
            let ghost at = walked.len() as int;
            let item = rest.remove(0);
            assert(item == given[at + 0]);
            assert(decreases_to!(whole => whole[at]));
            let done = item.0.finalize(statics, table, active, budget);
            state = (state.0 || done.1, done.2);
            walked.push((done.0, item.1));
            assert forall|k: int| 0 <= k < rest.len() implies rest@[k] == #[trigger] given[walked.len()
                + k] by {
                assert(given[at + (k + 1)] == given[walked.len() + k]);
            }
        }
        let ghost count = walked.len() as int;
        while rest.len() > 0
            invariant
                count <= walked.len(),
                walked.len() + rest.len() == given.len(),
                forall|k: int| 0 <= k < rest.len() ==> rest@[k] == #[trigger] given[walked.len() + k],
                forall|k: int|
                    0 <= k < walked.len() ==> shape_of(&(#[trigger] walked@[k]).0) == shapes[k].0
                        && walked@[k].1 == given[k].1,
                forall|k: int|
                    0 <= k < count ==> annotated(
                        &(#[trigger] walked@[k]).0,
                        bodies,
                        sequence_walk(shapes, k, bodies, table0, active0, budget as nat).0,
                        active0,
                        budget as nat,
                    ),
            decreases rest.len(),
        {
            let ghost at = walked.len() as int;
            let item = rest.remove(0);
            assert(item == given[at + 0]);
            walked.push(item);
            assert forall|k: int| 0 <= k < rest.len() implies rest@[k] == #[trigger] given[walked.len()
                + k] by {
                assert(given[at + (k + 1)] == given[walked.len() + k]);
            }
        }
        let done = Sequence { leftrec: state.0, nullable: state.1, items: walked };
        proof {
            assert(item_shapes(done.items@) =~= shapes);
            if count < shapes.len() {
                lemma_sequence_stuck(
                    shapes,
                    count,
                    shapes.len() as int,
                    bodies,
                    table0,
                    active0,
                    budget as nat,
                );
            }
            reveal_with_fuel(annotated, 2);
            assert forall|i: int|
                0 <= i < done.items.len() && sequence_walk(
                    shapes,
                    i,
                    bodies,
                    table0,
                    active0,
                    budget as nat,
                ).1.1 implies annotated(
                &(#[trigger] done.items[i]).0,
                bodies,
                sequence_walk(shapes, i, bodies, table0, active0, budget as nat).0,
                active0,
                budget as nat,
            ) by {
                if i >= count {
                    lemma_sequence_stuck(shapes, count, i, bodies, table0, active0, budget as nat);
                }
            }
        }
        (done, state.0, state.1)
    }
}

impl Block {
    /// Walks the block and sets for each alternative whether it is
    /// left-recursive, and for the block whether one and whether all are.
    #[verifier::loop_isolation(false)]
    pub fn finalize(
        self,
        statics: &Vec<Static>,
        table: &mut Vec<(bool, bool)>,
        active: &mut Vec<bool>,
        budget: usize,
    ) -> (done: (Block, bool, bool))
        requires
            old(table).len() == statics.len(),
            old(active).len() == statics.len(),
        ensures
            shape_of(&Op::Block(done.0)) == shape_of(&Op::Block(self)),
            (final(table)@, (done.1, done.2)) == analysed(
                shape_of(&Op::Block(self)),
                bodies_of(statics@),
                old(table)@,
                old(active)@,
                budget as nat,
            ),
            annotated(
                &Op::Block(done.0),
                bodies_of(statics@),
                old(table)@,
                old(active)@,
                budget as nat,
            ),
            walk_kept(old(table)@, final(table)@, old(active)@, final(active)@),
        decreases budget, 1nat, self, 0nat,
    {
        let ghost bodies = bodies_of(statics@);
        let ghost given = self.items@;
        let ghost shapes = alternative_shapes(given);
        let ghost table0 = table@;
        let ghost active0 = active@;
        let ghost whole = self.items;
        let Block { id, leftrec: _, all_leftrec: _, items } = self;
        let mut rest = items;
        let mut walked: Vec<(Op, bool)> = Vec::new();
        let mut state = (false, false, true);
        while rest.len() > 0
            invariant
                table.len() == statics.len(),
                active.len() == statics.len(),
                walked.len() + rest.len() == given.len(),
                forall|k: int| 0 <= k < rest.len() ==> rest@[k] == #[trigger] given[walked.len() + k],
                forall|k: int|
                    0 <= k < walked.len() ==> shape_of(&(#[trigger] walked@[k]).0) == shapes[k],
                forall|k: int|
                    0 <= k < walked.len() ==> annotated(
                        &(#[trigger] walked@[k]).0,
                        bodies,
                        block_walk(shapes, k, bodies, table0, active0, budget as nat).0,
                        active0,
                        budget as nat,
                    ) && walked@[k].1 == analysed(
                        shapes[k],
                        bodies,
                        block_walk(shapes, k, bodies, table0, active0, budget as nat).0,
                        active0,
                        budget as nat,
                    ).1.0,
                (table@, state) == block_walk(
                    shapes,
                    walked.len() as int,
                    bodies,
                    table0,
                    active0,
                    budget as nat,
                ),
                walk_kept(table0, table@, active0, active@),
            decreases rest.len(),
        {
            let ghost at = walked.len() as int;
            let item = rest.remove(0);
            assert(item == given[at + 0]);
            assert(decreases_to!(whole => whole[at]));
            let done = item.0.finalize(statics, table, active, budget);
            state = (state.0 || done.1, state.1 || done.2, state.2 && done.1);
            walked.push((done.0, done.1));
            assert forall|k: int| 0 <= k < rest.len() implies rest@[k] == #[trigger] given[walked.len()
                + k] by {
                assert(given[at + (k + 1)] == given[walked.len() + k]);
            }
        }
        let done = Block { id, leftrec: state.0, all_leftrec: state.2, items: walked };
        proof {
            assert(alternative_shapes(done.items@) =~= shapes);
            reveal_with_fuel(annotated, 2);
            assert forall|i: int| 0 <= i < done.items.len() implies annotated(
                &(#[trigger] done.items[i]).0,
                bodies,
                block_walk(shapes, i, bodies, table0, active0, budget as nat).0,
                active0,
                budget as nat,
            ) && done.items[i].1 == analysed(
                shapes[i],
                bodies,
                block_walk(shapes, i, bodies, table0, active0, budget as nat).0,
                active0,
                budget as nat,
            ).1.0 by {
                assert(done.items[i] == walked@[i]);
            }
        }
        (done, state.0, state.1)
    }
}

/// The flags that the parselets of a table hold; an entry that is no
/// parselet counts as left-recursive and not nullable, where no flag can move.
pub open spec fn flags_of(statics: Seq<Static>) -> Table {
    Seq::new(
        statics.len(),
        |j: int|
            match statics[j] {
                Static::Parselet(parselet) => (parselet.leftrec, parselet.nullable),
                _ => (true, false),
            },
    )
}

/// The marks with only the entry at `i` marked.
pub open spec fn only(n: nat, i: int) -> Seq<bool> {
    Seq::new(n, |k: int| k == i)
}

/// How far the flags of a table can still move: one for each parselet that
/// is not left-recursive, and one for each that is nullable.
pub open spec fn weight(table: Table) -> nat
    decreases table.len(),
{
    if table.len() == 0 {
        0
    } else {
        weight(table.drop_last()) + (if table.last().0 {
            0nat
        } else {
            1nat
        }) + (if table.last().1 {
            1nat
        } else {
            0nat
        })
    }
}

/// Flags that have moved on weigh less, and flags that weigh the same have not moved.
pub proof fn lemma_weight(before: Table, after: Table)
    requires
        moved_on(before, after),
    ensures
        weight(after) <= weight(before) <= 2 * before.len(),
        weight(after) == weight(before) ==> after == before,
    decreases before.len(),
{
    if before.len() > 0 {
        assert(moved_on(before.drop_last(), after.drop_last())) by {
            assert forall|k: int| 0 <= k < before.drop_last().len() implies ((
            #[trigger] before.drop_last()[k]).0 ==> after.drop_last()[k].0) && (
            after.drop_last()[k].1 ==> before.drop_last()[k].1) by {
                assert(before[k] == before.drop_last()[k]);
            }
        }
        lemma_weight(before.drop_last(), after.drop_last());
        assert(before[before.len() - 1] == before.last());
        if weight(after) == weight(before) {
            assert(after =~= after.drop_last().push(after.last()));
            assert(before =~= before.drop_last().push(before.last()));
        }
    } else {
        assert(after =~= before);
    }
}

/// Whether the walk of the parselet at `i` changes nothing any more: with
/// the parselet taken out of the table and marked, the walk of its body
/// leaves the flags of the table as they are, finds the parselet
/// left-recursive only where it is flagged so and nullable wherever it is
/// flagged so, and the flags inside its body are those that the walk gives.
pub open spec fn settled(statics: Seq<Static>, i: int) -> bool {
    match statics[i] {
        Static::Parselet(parselet) => {
            let bodies = bodies_of(statics).update(i, None);
            let table = flags_of(statics);
            let active = only(statics.len(), i);
            let walk = analysed(shape_of(&parselet.body), bodies, table, active, statics.len());
            &&& walk.0 == table
            &&& (walk.1.0 ==> parselet.leftrec)
            &&& (parselet.nullable ==> walk.1.1)
            &&& annotated(&parselet.body, bodies, table, active, statics.len())
        },
        _ => true,
    }
}

/// Whether an entry is what it was but for the flags: a value is unchanged;
/// a parselet has its body in the same shape and everything else as it was,
/// and its two flags have only moved in their direction.
pub open spec fn same_but_flags(before: Static, after: Static) -> bool {
    match (before, after) {
        (Static::Value(a), Static::Value(b)) => a == b,
        (Static::Parselet(p), Static::Parselet(q)) => {
            &&& q.name == p.name
            &&& q.signature == p.signature
            &&& q.locals == p.locals
            &&& q.begin == p.begin
            &&& q.end == p.end
            &&& q.severity == p.severity
            &&& q.silent == p.silent
            &&& shape_of(&q.body) == shape_of(&p.body)
            &&& (p.leftrec ==> q.leftrec)
            &&& (q.nullable ==> p.nullable)
        },
        _ => false,
    }
}

fn table_of(statics: &Vec<Static>) -> (table: Vec<(bool, bool)>)
    ensures
        table@ == flags_of(statics@),
{
    let mut table: Vec<(bool, bool)> = Vec::new();
    let mut i: usize = 0;
    while i < statics.len()
        invariant
            i <= statics.len(),
            table@ == flags_of(statics@).subrange(0, i as int),
        decreases statics.len() - i,
    {
        let flags = match &statics[i] {
            Static::Parselet(parselet) => (parselet.leftrec, parselet.nullable),
            _ => (true, false),
        };
        table.push(flags);
        assert(table@ =~= flags_of(statics@).subrange(0, i + 1));
        i = i + 1;
    }
    assert(table@ =~= flags_of(statics@));
    table
}

fn copy_of(table: &Vec<(bool, bool)>) -> (copy: Vec<(bool, bool)>)
    ensures
        copy@ == table@,
{
    let mut copy: Vec<(bool, bool)> = Vec::new();
    let mut i: usize = 0;
    while i < table.len()
        invariant
            i <= table.len(),
            copy@ == table@.subrange(0, i as int),
        decreases table.len() - i,
    {
        copy.push(table[i]);
        assert(copy@ =~= table@.subrange(0, i + 1));
        i = i + 1;
    }
    assert(copy@ =~= table@);
    copy
}

fn same_table(a: &Vec<(bool, bool)>, b: &Vec<(bool, bool)>) -> (same: bool)
    ensures
        same == (a@ == b@),
{
    if a.len() != b.len() {
        return false;
    }
    let mut i: usize = 0;
    while i < a.len()
        invariant
            i <= a.len(),
            a.len() == b.len(),
            a@.subrange(0, i as int) == b@.subrange(0, i as int),
        decreases a.len() - i,
    {
        if a[i].0 != b[i].0 || a[i].1 != b[i].1 {
            return false;
        }
        assert(a@.subrange(0, i + 1) =~= a@.subrange(0, i as int).push(a@[i as int]));
        assert(b@.subrange(0, i + 1) =~= b@.subrange(0, i as int).push(b@[i as int]));
        i = i + 1;
    }
    assert(a@ =~= a@.subrange(0, a.len() as int));
    assert(b@ =~= b@.subrange(0, b.len() as int));
    true
}

fn unmarked(n: usize) -> (active: Vec<bool>)
    ensures
        active@ == Seq::new(n as nat, |k: int| false),
{
    let mut active: Vec<bool> = Vec::new();
    while active.len() < n
        invariant
            active.len() <= n,
            active@ == Seq::new(active.len() as nat, |k: int| false),
        decreases n - active.len(),
    {
        active.push(false);
        assert(active@ =~= Seq::new(active.len() as nat, |k: int| false));
    }
    active
}

/// The flags after the turn of the entry at `i`: a parselet is taken out of
/// the table and marked, its body is walked, and its flags move to what the
/// walk gives. An entry that is no parselet changes nothing.
pub open spec fn turn_walk(bodies: Seq<Option<Shape>>, table: Table, i: int) -> Table {
    if 0 <= i < bodies.len() {
        match bodies[i] {
            Some(shape) => {
                let walk = analysed(
                    shape,
                    bodies.update(i, None),
                    table,
                    only(bodies.len(), i),
                    bodies.len(),
                );
                merged(walk.0, i, walk.1)
            },
            None => table,
        }
    } else {
        table
    }
}

/// The flags after a pass over the first `k` entries of the table, each in its turn.
pub open spec fn pass_walk(bodies: Seq<Option<Shape>>, table: Table, k: int) -> Table
    decreases k,
{
    if k <= 0 || k > bodies.len() {
        table
    } else {
        turn_walk(bodies, pass_walk(bodies, table, k - 1), k - 1)
    }
}

/// The flags after `rounds` passes over the whole table.
pub open spec fn passes(bodies: Seq<Option<Shape>>, table: Table, rounds: nat) -> Table
    decreases rounds,
{
    if rounds == 0 {
        table
    } else {
        pass_walk(bodies, passes(bodies, table, (rounds - 1) as nat), bodies.len() as int)
    }
}

/// Whether round `r` of the passes moved a flag.
#[verifier::opaque]
pub open spec fn moved_in_round(bodies: Seq<Option<Shape>>, table: Table, r: nat) -> bool {
    r >= 1 && passes(bodies, table, r) != passes(bodies, table, (r - 1) as nat)
}

/// Whether the entry at `j` was settled by a pass over the flags `table`.
pub open spec fn stable(entry: Static, j: int, bodies: Seq<Option<Shape>>, table: Table) -> bool {
    match entry {
        Static::Parselet(parselet) => {
            let holed = bodies.update(j, None);
            let active = only(bodies.len(), j);
            let walk = analysed(shape_of(&parselet.body), holed, table, active, bodies.len());
            &&& walk.0 == table
            &&& (walk.1.0 ==> parselet.leftrec)
            &&& (parselet.nullable ==> walk.1.1)
            &&& (parselet.leftrec, parselet.nullable) == table[j]
            &&& annotated(&parselet.body, holed, table, active, bodies.len())
        },
        _ => table[j] == (true, false),
    }
}

/// Whether the table holds for every parselet flags that are no further
/// back than those in the parselet itself, and for every other entry the
/// flags that cannot move.
pub open spec fn ahead(statics: Seq<Static>, table: Table) -> bool {
    &&& table.len() == statics.len()
    &&& forall|j: int|
        0 <= j < statics.len() ==> match #[trigger] statics[j] {
            Static::Parselet(p) => (p.leftrec ==> table[j].0) && (table[j].1 ==> p.nullable),
            _ => table[j] == (true, false),
        }
}

/// The turn of the entry at `i` in a pass: a parselet is taken out of the
/// table and marked, its body is walked and annotated, and it is put back
/// with the flags that the walk gives.
fn turn(statics: &mut Vec<Static>, table: &mut Vec<(bool, bool)>, active: &mut Vec<bool>, i: usize)
    requires
        i < old(statics).len(),
        old(active)@ == Seq::new(old(statics).len() as nat, |k: int| false),
        ahead(old(statics)@, old(table)@),
    ensures
        final(statics).len() == old(statics).len(),
        final(active)@ == old(active)@,
        bodies_of(final(statics)@) == bodies_of(old(statics)@),
        ahead(final(statics)@, final(table)@),
        moved_on(old(table)@, final(table)@),
        final(table)@ == turn_walk(bodies_of(old(statics)@), old(table)@, i as int),
        forall|j: int|
            0 <= j < old(statics).len() && j != i ==> #[trigger] final(statics)@[j] == old(
                statics,
            )@[j],
        same_but_flags(old(statics)@[i as int], final(statics)@[i as int]),
        final(table)@ == old(table)@ ==> stable(
            final(statics)@[i as int],
            i as int,
            bodies_of(old(statics)@),
            old(table)@,
        ),
{
    let n = statics.len();
    let ghost before = statics@;
    let ghost bodies = bodies_of(before);
    let ghost table_before = table@;
    let ghost unmarked = active@;
    statics.push(Static::Value(Value::Void));
    let entry = statics.swap_remove(i);
    assert(entry == before[i as int]);
    assert(statics@ =~= before.update(i as int, Static::Value(Value::Void)));
    assert(bodies[i as int] == bodies_of(before)[i as int]);
    match entry {
        Static::Parselet(parselet) => {
            let Parselet {
                name,
                signature,
                locals,
                begin,
                end,
                body,
                leftrec,
                nullable,
                severity,
                silent,
            } = parselet;
            let ghost holed = bodies_of(statics@);
            assert(holed =~= bodies.update(i as int, None));
            active.set(i, true);
            assert(active@ =~= only(n as nat, i as int));
            let done = body.finalize(statics, table, active, n);
            active.set(i, false);
            assert(active@ =~= unmarked);
            let ghost walked = table@;
            let current = table[i];
            let flags = (current.0 || done.1, current.1 && done.2);
            table.set(i, flags);
            statics.set(
                i,
                Static::Parselet(
                    Parselet {
                        name,
                        signature,
                        locals,
                        begin,
                        end,
                        body: done.0,
                        leftrec: flags.0,
                        nullable: flags.1,
                        severity,
                        silent,
                    },
                ),
            );
            proof {
                assert(bodies_of(statics@) =~= bodies);
                assert(table@ =~= merged(walked, i as int, (done.1, done.2)));
                assert forall|j: int| 0 <= j < n implies match #[trigger] statics@[j] {
                    Static::Parselet(p) => (p.leftrec ==> table@[j].0) && (table@[j].1
                        ==> p.nullable),
                    _ => table@[j] == (true, false),
                } by {
                    assert(table_before[j].0 ==> walked[j].0);
                    assert(walked[j].1 ==> table_before[j].1);
                    if j != i {
                        assert(statics@[j] == before[j]);
                        assert(table@[j] == walked[j]);
                        assert(match before[j] {
                            Static::Parselet(p) => (p.leftrec ==> table_before[j].0) && (
                            table_before[j].1 ==> p.nullable),
                            _ => table_before[j] == (true, false),
                        });
                    } else {
                        assert(table@[j] == flags);
                    }
                }
                assert(moved_on(table_before, table@)) by {
                    assert forall|k: int| 0 <= k < table_before.len() implies ((
                    #[trigger] table_before[k]).0 ==> table@[k].0) && (table@[k].1
                        ==> table_before[k].1) by {
                        assert(table_before[k].0 ==> walked[k].0);
                    }
                }
                assert(match before[i as int] {
                    Static::Parselet(p) => (p.leftrec ==> table_before[i as int].0) && (
                    table_before[i as int].1 ==> p.nullable),
                    _ => table_before[i as int] == (true, false),
                });
                lemma_weight(table_before, walked);
                lemma_weight(walked, table@);
                lemma_weight(table_before, table@);
            }
        },
        other => {
            statics.set(i, other);
            assert(statics@ =~= before);
            assert(match before[i as int] {
                Static::Parselet(p) => (p.leftrec ==> table_before[i as int].0) && (
                table_before[i as int].1 ==> p.nullable),
                _ => table_before[i as int] == (true, false),
            });
        },
    }
}

/// One pass over the table: every entry has its turn.
fn pass(statics: &mut Vec<Static>, table: &mut Vec<(bool, bool)>, active: &mut Vec<bool>)
    requires
        old(active)@ == Seq::new(old(statics).len() as nat, |k: int| false),
        ahead(old(statics)@, old(table)@),
    ensures
        final(statics).len() == old(statics).len(),
        final(active)@ == old(active)@,
        bodies_of(final(statics)@) == bodies_of(old(statics)@),
        ahead(final(statics)@, final(table)@),
        moved_on(old(table)@, final(table)@),
        final(table)@ == pass_walk(
            bodies_of(old(statics)@),
            old(table)@,
            old(statics).len() as int,
        ),
        forall|j: int|
            0 <= j < old(statics).len() ==> same_but_flags(
                old(statics)@[j],
                #[trigger] final(statics)@[j],
            ),
        final(table)@ == old(table)@ ==> forall|j: int|
            0 <= j < old(statics).len() ==> stable(
                #[trigger] final(statics)@[j],
                j,
                bodies_of(old(statics)@),
                old(table)@,
            ),
{
    let n = statics.len();
    let ghost bodies = bodies_of(statics@);
    let ghost snapshot = table@;
    let mut i: usize = 0;
    while i < n
        invariant
            i <= n,
            statics.len() == n,
            n == old(statics).len(),
            bodies == bodies_of(old(statics)@),
            snapshot == old(table)@,
            active@ == old(active)@,
            active@ == Seq::new(n as nat, |k: int| false),
            bodies_of(statics@) == bodies,
            ahead(statics@, table@),
            moved_on(snapshot, table@),
            table@ == pass_walk(bodies, snapshot, i as int),
            forall|j: int|
                0 <= j < n ==> same_but_flags(old(statics)@[j], #[trigger] statics@[j]),
            forall|j: int| i <= j < n ==> #[trigger] statics@[j] == old(statics)@[j],
            table@ == snapshot ==> forall|j: int|
                0 <= j < i ==> stable(#[trigger] statics@[j], j, bodies, snapshot),
        decreases n - i,
    {
        let ghost before = statics@;
        let ghost table_before = table@;
        turn(statics, table, active, i);
        proof {
            assert(table@ == pass_walk(bodies, snapshot, i + 1));
            lemma_weight(snapshot, table_before);
            lemma_weight(table_before, table@);
            lemma_weight(snapshot, table@);
            assert forall|j: int| 0 <= j < n implies same_but_flags(
                old(statics)@[j],
                #[trigger] statics@[j],
            ) by {
                if j != i {
                    assert(statics@[j] == before[j]);
                } else {
                    assert(before[j] == old(statics)@[j]);
                }
            }
            if table@ == snapshot {
                assert(table_before == snapshot);
                assert forall|j: int| 0 <= j < i + 1 implies stable(
                    #[trigger] statics@[j],
                    j,
                    bodies,
                    snapshot,
                ) by {
                    if j < i {
                        assert(statics@[j] == before[j]);
                    }
                }
            }
        }
        i = i + 1;
    }
}

impl Parselet {
    /// Finds the flags of all parselets of `statics` and sets the flags
    /// inside their bodies: the bodies are walked, pass after pass, until a
    /// pass moves no flag. The result is the number of passes.
    pub fn finalize(statics: &mut Vec<Static>) -> (loops: usize)
        ensures
            final(statics).len() == old(statics).len(),
            forall|j: int|
                0 <= j < old(statics).len() ==> same_but_flags(
                    old(statics)@[j],
                    #[trigger] final(statics)@[j],
                ),
            forall|j: int| 0 <= j < final(statics).len() ==> settled(final(statics)@, j),
            1 <= loops <= 2 * old(statics).len() + 1,
            loops < usize::MAX ==> flags_of(final(statics)@) == passes(
                bodies_of(old(statics)@),
                flags_of(old(statics)@),
                loops as nat,
            ),
            loops < usize::MAX ==> passes(
                bodies_of(old(statics)@),
                flags_of(old(statics)@),
                loops as nat,
            ) == passes(bodies_of(old(statics)@), flags_of(old(statics)@), (loops - 1) as nat),
            loops < usize::MAX ==> forall|r: nat|
                1 <= r < loops ==> #[trigger] moved_in_round(
                    bodies_of(old(statics)@),
                    flags_of(old(statics)@),
                    r,
                ),
    {
        let n = statics.len();
        let ghost bodies = bodies_of(statics@);
        let mut table = table_of(statics);
        let mut active = unmarked(n);
        let ghost first = table@;
        let mut loops: usize = 0;
        let ghost mut rounds: nat = 0;
        proof {
            lemma_weight(first, first);
        }
        loop
            invariant
                statics.len() == n,
                n == old(statics).len(),
                bodies == bodies_of(old(statics)@),
                first == flags_of(old(statics)@),
                active@ == Seq::new(n as nat, |k: int| false),
                bodies_of(statics@) == bodies,
                ahead(statics@, table@),
                moved_on(first, table@),
                loops + weight(table@) <= weight(first) <= 2 * n,
                table@ == passes(bodies, first, rounds),
                loops < usize::MAX ==> loops == rounds,
                forall|r: nat| 1 <= r <= rounds ==> #[trigger] moved_in_round(bodies, first, r),
                forall|j: int|
                    0 <= j < n ==> same_but_flags(old(statics)@[j], #[trigger] statics@[j]),
            decreases weight(table@),
        {
            let snapshot = copy_of(&table);
            let ghost before = statics@;
            pass(statics, &mut table, &mut active);
            if loops < usize::MAX {
                loops = loops + 1;
            }
            proof {
                lemma_weight(snapshot@, table@);
                lemma_weight(first, snapshot@);
                lemma_weight(first, table@);
                rounds = rounds + 1;
                assert(table@ == passes(bodies, first, rounds));
                assert forall|j: int| 0 <= j < n implies same_but_flags(
                    old(statics)@[j],
                    #[trigger] statics@[j],
                ) by {
                    lemma_same_but_flags(old(statics)@[j], before[j], statics@[j]);
                }
            }
            let same = same_table(&table, &snapshot);
            proof {
                if !same {
                    assert(moved_in_round(bodies, first, rounds)) by {
                        reveal(moved_in_round);
                    }
                }
            }
            if same {
                proof {
                    assert(flags_of(statics@) =~= table@) by {
                        assert forall|j: int| 0 <= j < n implies flags_of(statics@)[j] == table@[j] by {
                            assert(stable(statics@[j], j, bodies, snapshot@));
                        }
                    }
                    assert forall|j: int| 0 <= j < n implies settled(statics@, j) by {
                        assert(stable(statics@[j], j, bodies, snapshot@));
                    }
                }
                return loops;
            }
        }
    }
}

/// Being the same but for the flags carries over two steps.
proof fn lemma_same_but_flags(a: Static, b: Static, c: Static)
    requires
        same_but_flags(a, b),
        same_but_flags(b, c),
    ensures
        same_but_flags(a, c),
{
}

} // verus!
