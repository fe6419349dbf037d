//! Resolution: names in operations become the addresses they stand for.

use vstd::prelude::*;
use vstd::string::*;

use crate::compiler::Compiler;
use crate::error::Error;
use crate::op::{Block, Op, Repeat, Sequence};
use crate::parselet::Parselet;

verus! {

/// What a name becomes.
pub enum Binding {
    /// A constant: the call of its static.
    Constant(usize),
    /// A local variable: its value is loaded and called where it can be.
    Local(usize),
    /// A global variable: its value is loaded and called where it can be.
    Global(usize),
    /// Nothing yet.
    Unknown,
}

/// What `name` becomes: a constant first, then a local variable where those
/// are allowed, then a global variable.
pub open spec fn binding_of(compiler: &Compiler, locals: bool, name: Seq<char>) -> Binding {
    match compiler.constant(name) {
        Some(addr) => Binding::Constant(addr),
        None => match (if locals {
            compiler.local(name)
        } else {
            None
        }) {
            Some(addr) => Binding::Local(addr),
            None => match compiler.global(name) {
                Some(addr) => Binding::Global(addr),
                None => Binding::Unknown,
            },
        },
    }
}

/// Whether `op` is the sequence of `load` and a `TryCall`, without aliases.
pub open spec fn loads_and_calls(op: &Op, load: Op) -> bool {
    op matches Op::Sequence(sequence) && !sequence.leftrec && sequence.nullable
        && sequence.items@.len() == 2 && sequence.items@[0] == (load, None::<String>)
        && sequence.items@[1] == (Op::TryCall, None::<String>)
}

/// Whether `after` is `before` with its names resolved.
///
/// A name becomes what `binding_of` gives; a name that is not known stays.
/// What holds operations holds the resolved ones in the same places.
/// Everything else is unchanged.
pub open spec fn resolved(before: &Op, after: &Op, compiler: &Compiler, locals: bool) -> bool
    decreases before,
{
    match before {
        Op::Symbol(name) => match binding_of(compiler, locals, name@) {
            Binding::Constant(addr) => *after == Op::CallStatic(addr),
            Binding::Local(addr) => loads_and_calls(after, Op::LoadFast(addr)),
            Binding::Global(addr) => loads_and_calls(after, Op::LoadGlobal(addr)),
            Binding::Unknown => *after == *before,
        },
        Op::Peek(inner) => after matches Op::Peek(done) && resolved(inner, done, compiler, locals),
        Op::Not(inner) => after matches Op::Not(done) && resolved(inner, done, compiler, locals),
        Op::Expect(inner) => after matches Op::Expect(done) && resolved(
            inner,
            done,
            compiler,
            locals,
        ),
        Op::Repeat(repeat) => after matches Op::Repeat(done) && done.min == repeat.min && done.max
            == repeat.max && done.silent == repeat.silent && resolved(
            &repeat.parser,
            &done.parser,
            compiler,
            locals,
        ),
        Op::Sequence(sequence) => after matches Op::Sequence(done) && done.leftrec
            == sequence.leftrec && done.nullable == sequence.nullable && done.items@.len()
            == sequence.items@.len() && forall|i: int|
            0 <= i < sequence.items@.len() ==> (#[trigger] done.items@[i]).1 == sequence.items@[i].1
                && resolved(&sequence.items@[i].0, &done.items@[i].0, compiler, locals),
        Op::Block(block) => after matches Op::Block(done) && done.id == block.id && done.leftrec
            == block.leftrec && done.all_leftrec == block.all_leftrec && done.items@.len()
            == block.items@.len() && forall|i: int|
            0 <= i < block.items@.len() ==> (#[trigger] done.items@[i]).1 == block.items@[i].1
                && resolved(&block.items@[i].0, &done.items@[i].0, compiler, locals),
        _ => *after == *before,
    }
}

/// The first name of `op`, in reading order, that is not known.
pub open spec fn first_unknown(op: &Op, compiler: &Compiler, locals: bool) -> Option<Seq<char>>
    decreases op, 0nat,
{
    match op {
        Op::Symbol(name) => if binding_of(compiler, locals, name@) is Unknown {
            Some(name@)
        } else {
            None
        },
        Op::Peek(inner) | Op::Not(inner) | Op::Expect(inner) => first_unknown(
            inner,
            compiler,
            locals,
        ),
        Op::Repeat(repeat) => first_unknown(&repeat.parser, compiler, locals),
        Op::Sequence(sequence) => first_unknown_item(sequence, 0, compiler, locals),
        Op::Block(block) => first_unknown_alternative(block, 0, compiler, locals),
        _ => None,
    }
}

/// The first unknown name in the items of a sequence from item `i` on.
pub open spec fn first_unknown_item(sequence: &Sequence, i: int, compiler: &Compiler, locals: bool) -> Option<
    Seq<char>,
>
    decreases sequence, sequence.items.len() - i,
{
    if i < 0 || i >= sequence.items.len() {
        None
    } else {
        match first_unknown(&sequence.items[i].0, compiler, locals) {
            Some(name) => Some(name),
            None => first_unknown_item(sequence, i + 1, compiler, locals),
        }
    }
}

/// The first unknown name in the alternatives of a block from alternative `i` on.
pub open spec fn first_unknown_alternative(block: &Block, i: int, compiler: &Compiler, locals: bool) -> Option<
    Seq<char>,
>
    decreases block, block.items.len() - i,
{
    if i < 0 || i >= block.items.len() {
        None
    } else {
        match first_unknown(&block.items[i].0, compiler, locals) {
            Some(name) => Some(name),
            None => first_unknown_alternative(block, i + 1, compiler, locals),
        }
    }
}

/// What resolution gives.
///
/// In strict mode a name that is not known is an error without a place that
/// names the first such name; else the result is the operation with its
/// names resolved.
pub open spec fn resolution(
    before: &Op,
    result: Result<Op, Error>,
    compiler: &Compiler,
    locals: bool,
    strict: bool,
) -> bool {
    match result {
        Ok(after) => (strict ==> first_unknown(before, compiler, locals) is None) && resolved(
            before,
            &after,
            compiler,
            locals,
        ),
        Err(error) => match first_unknown(before, compiler, locals) {
            Some(name) => strict && error.offset is None && error.message@ == "Cannot resolve "@
                + name,
            None => false,
        },
    }
}

fn load_and_call(load: Op) -> (op: Op)
    ensures
        loads_and_calls(&op, load),
{
    let mut items: Vec<(Op, Option<String>)> = Vec::new();
    items.push((load, None));
    items.push((Op::TryCall, None));
    Sequence::new(items)
}

impl Op {
    /// Resolves the names in the operation and in all it holds.
    pub fn resolve(self, compiler: &Compiler, locals: bool, strict: bool) -> (result: Result<
        Op,
        Error,
    >)
        ensures
            resolution(&self, result, compiler, locals, strict),
        decreases self, 0nat,
    {
        match self {
            Op::Symbol(name) => {
                match compiler.get_constant(name.as_str()) {
                    Some(addr) => {
                        return Ok(Op::CallStatic(addr));
                    },
                    None => {},
                }
                if locals {
                    match compiler.get_local(name.as_str()) {
                        Some(addr) => {
                            return Ok(load_and_call(Op::LoadFast(addr)));
                        },
                        None => {},
                    }
                }
                match compiler.get_global(name.as_str()) {
                    Some(addr) => {
                        return Ok(load_and_call(Op::LoadGlobal(addr)));
                    },
                    None => {},
                }
                if strict {
                    let mut message = String::from_str("Cannot resolve ");
                    message.append(name.as_str());
                    Err(Error::new(None, message))
                } else {
                    Ok(Op::Symbol(name))
                }
            },
            Op::Peek(inner) => {
                let op: Op = *inner;
                match op.resolve(compiler, locals, strict) {
                    Ok(done) => Ok(Op::Peek(Box::new(done))),
                    Err(error) => Err(error),
                }
            },
            Op::Not(inner) => {
                let op: Op = *inner;
                match op.resolve(compiler, locals, strict) {
                    Ok(done) => Ok(Op::Not(Box::new(done))),
                    Err(error) => Err(error),
                }
            },
            Op::Expect(inner) => {
                let op: Op = *inner;
                match op.resolve(compiler, locals, strict) {
                    Ok(done) => Ok(Op::Expect(Box::new(done))),
                    Err(error) => Err(error),
                }
            },
            Op::Repeat(repeat) => {
                match (*repeat).resolve(compiler, locals, strict) {
                    Ok(done) => Ok(Op::Repeat(Box::new(done))),
                    Err(error) => Err(error),
                }
            },
            Op::Sequence(sequence) => {
                match sequence.resolve(compiler, locals, strict) {
                    Ok(done) => Ok(Op::Sequence(done)),
                    Err(error) => Err(error),
                }
            },
            Op::Block(block) => {
                match block.resolve(compiler, locals, strict) {
                    Ok(done) => Ok(Op::Block(done)),
                    Err(error) => Err(error),
                }
            },
            other => Ok(other),
        }
    }
}

impl Repeat {
    /// Resolves the names in the parser of the repetition.
    pub fn resolve(self, compiler: &Compiler, locals: bool, strict: bool) -> (result: Result<
        Repeat,
        Error,
    >)
        ensures
            resolution(
                &Op::Repeat(Box::new(self)),
                match result {
                    Ok(done) => Ok(Op::Repeat(Box::new(done))),
                    Err(error) => Err(error),
                },
                compiler,
                locals,
                strict,
            ),
        decreases self, 0nat,
    {
        let Repeat { parser, min, max, silent } = self;
        match parser.resolve(compiler, locals, strict) {
            Ok(done) => Ok(Repeat { parser: done, min, max, silent }),
            Err(error) => Err(error),
        }
    }
}

impl Sequence {
    /// Resolves the names in the items of the sequence.
    #[verifier::loop_isolation(false)]
    pub fn resolve(self, compiler: &Compiler, locals: bool, strict: bool) -> (result: Result<
        Sequence,
        Error,
    >)
        ensures
            resolution(
                &Op::Sequence(self),
                match result {
                    Ok(done) => Ok(Op::Sequence(done)),
                    Err(error) => Err(error),
                },
                compiler,
                locals,
                strict,
            ),
        decreases self, 0nat,
    {
        let ghost given = self.items@;
        let ghost whole = self.items;
        let ghost goal = first_unknown_item(&self, 0, compiler, locals);
        let Sequence { leftrec, nullable, items } = self;
        let mut rest = items;
        let mut done: Vec<(Op, Option<String>)> = Vec::new();
        while rest.len() > 0
            invariant
                done.len() + rest.len() == given.len(),
                forall|k: int| 0 <= k < rest.len() ==> rest@[k] == #[trigger] given[done.len() + k],
                forall|k: int|
                    0 <= k < done.len() ==> (#[trigger] done@[k]).1 == given[k].1 && resolved(
                        &given[k].0,
                        &done@[k].0,
                        compiler,
                        locals,
                    ),
                strict ==> goal == first_unknown_item(&self, done.len() as int, compiler, locals),
            decreases rest.len(),
        {
            let ghost at = done.len() as int;
            let item = rest.remove(0);
            assert(item == given[at + 0]);
            assert(decreases_to!(whole => whole[at]));
            match item.0.resolve(compiler, locals, strict) {
                Ok(op) => {
                    done.push((op, item.1));
                },
                Err(error) => {
                    return Err(error);
                },
            }
            assert forall|k: int| 0 <= k < rest.len() implies rest@[k] == #[trigger] given[done.len()
                + k] by {
                assert(given[at + (k + 1)] == given[done.len() + k]);
            }
        }
        let result = Sequence { leftrec, nullable, items: done };
        proof {
            reveal_with_fuel(resolved, 2);
            assert forall|i: int| 0 <= i < given.len() implies (#[trigger] result.items@[i]).1
                == given[i].1 && resolved(&given[i].0, &result.items@[i].0, compiler, locals) by {
                assert(result.items@[i] == done@[i]);
            }
        }
        Ok(result)
    }
}

impl Block {
    /// Resolves the names in the alternatives of the block.
    #[verifier::loop_isolation(false)]
    pub fn resolve(self, compiler: &Compiler, locals: bool, strict: bool) -> (result: Result<
        Block,
        Error,
    >)
        ensures
            resolution(
                &Op::Block(self),
                match result {
                    Ok(done) => Ok(Op::Block(done)),
                    Err(error) => Err(error),
                },
                compiler,
                locals,
                strict,
            ),
        decreases self, 0nat,
    {
        let ghost given = self.items@;
        let ghost whole = self.items;
        let ghost goal = first_unknown_alternative(&self, 0, compiler, locals);
        let Block { id, leftrec, all_leftrec, items } = self;
        let mut rest = items;
        let mut done: Vec<(Op, bool)> = Vec::new();
        while rest.len() > 0
            invariant
                done.len() + rest.len() == given.len(),
                forall|k: int| 0 <= k < rest.len() ==> rest@[k] == #[trigger] given[done.len() + k],
                forall|k: int|
                    0 <= k < done.len() ==> (#[trigger] done@[k]).1 == given[k].1 && resolved(
                        &given[k].0,
                        &done@[k].0,
                        compiler,
                        locals,
                    ),
                strict ==> goal == first_unknown_alternative(
                    &self,
                    done.len() as int,
                    compiler,
                    locals,
                ),
            decreases rest.len(),
        {
            let ghost at = done.len() as int;
            let item = rest.remove(0);
            assert(item == given[at + 0]);
            assert(decreases_to!(whole => whole[at]));
            match item.0.resolve(compiler, locals, strict) {
                Ok(op) => {
                    done.push((op, item.1));
                },
                Err(error) => {
                    return Err(error);
                },
            }
            assert forall|k: int| 0 <= k < rest.len() implies rest@[k] == #[trigger] given[done.len()
                + k] by {
                assert(given[at + (k + 1)] == given[done.len() + k]);
            }
        }
        let result = Block { id, leftrec, all_leftrec, items: done };
        proof {
            reveal_with_fuel(resolved, 2);
            assert forall|i: int| 0 <= i < given.len() implies (#[trigger] result.items@[i]).1
                == given[i].1 && resolved(&given[i].0, &result.items@[i].0, compiler, locals) by {
                assert(result.items@[i] == done@[i]);
            }
        }
        Ok(result)
    }
}

impl Parselet {
    /// Resolves the names in `begin`, `end` and the body of the parselet, in
    /// this order; the first error is the result.
    pub fn resolve(self, compiler: &Compiler, locals: bool, strict: bool) -> (result: Result<
        Parselet,
        Error,
    >)
        ensures
            match result {
                Ok(done) => {
                    &&& done.name == self.name
                    &&& done.signature == self.signature
                    &&& done.locals == self.locals
                    &&& done.leftrec == self.leftrec
                    &&& done.nullable == self.nullable
                    &&& done.severity == self.severity
                    &&& done.silent == self.silent
                    &&& resolution(&self.begin, Ok(done.begin), compiler, locals, strict)
                    &&& resolution(&self.end, Ok(done.end), compiler, locals, strict)
                    &&& resolution(&self.body, Ok(done.body), compiler, locals, strict)
                },
                Err(error) => {
                    ||| resolution(&self.begin, Err(error), compiler, locals, strict)
                    ||| (first_unknown(&self.begin, compiler, locals) is None && resolution(
                        &self.end,
                        Err(error),
                        compiler,
                        locals,
                        strict,
                    ))
                    ||| (first_unknown(&self.begin, compiler, locals) is None && first_unknown(
                        &self.end,
                        compiler,
                        locals,
                    ) is None && resolution(&self.body, Err(error), compiler, locals, strict))
                },
            },
    {
        let Parselet {
            name,
            signature,
            locals: slots,
            begin,
            end,
            body,
            leftrec,
            nullable,
            severity,
            silent,
        } = self;
        let begin = match begin.resolve(compiler, locals, strict) {
            Ok(done) => done,
            Err(error) => {
                return Err(error);
            },
        };
        let end = match end.resolve(compiler, locals, strict) {
            Ok(done) => done,
            Err(error) => {
                return Err(error);
            },
        };
        let body = match body.resolve(compiler, locals, strict) {
            Ok(done) => done,
            Err(error) => {
                return Err(error);
            },
        };
        Ok(
            Parselet {
                name,
                signature,
                locals: slots,
                begin,
                end,
                body,
                leftrec,
                nullable,
                severity,
                silent,
            },
        )
    }
}

} // verus!
