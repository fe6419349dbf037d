//! What a compiler builds before it becomes what the machine runs: parselets
//! under construction, the statics among which they stand, and the results
//! of traversing a syntax tree.

use core::cmp::Ordering;
use vstd::prelude::*;
use vstd::std_specs::cmp::{PartialEqSpecImpl, PartialOrdSpecImpl};

use crate::compiler::Compiler;
use crate::error::Error;
use crate::finalize::{analysed, annotated, bodies_of, shape_of, walk_kept};
use crate::op::Op;
use crate::parselet::Parselet;
use crate::program::Static;
use crate::reader::Offset;
use crate::resolve::{first_unknown, resolution};
use crate::value::{Value, ValueModel};

verus! {

/// What is known of something that reads input: whether it is
/// left-recursive, and whether it is nullable.
#[derive(Clone, Copy, Debug, PartialEq, Eq, Structural)]
pub struct Consumable {
    pub leftrec: bool,
    pub nullable: bool,
}

/// A parselet under construction. Two of them are the same parselet where
/// they have the same identity, whatever they hold.
#[derive(Debug)]
pub struct ImlParselet {
    /// The identity: every parselet that is built gets a higher one.
    pub id: usize,
    /// What is known of the parselet where it reads input; nothing where it does not.
    pub consuming: Option<Consumable>,
    /// The severity of the capture that the parselet returns.
    pub severity: u8,
    /// The name from the source, for messages.
    pub name: Option<String>,
    /// The parameters in order, each with the address of its default where it has one.
    pub signature: Vec<(String, Option<usize>)>,
    /// The number of local slots; the parameters are the first of them.
    pub locals: usize,
    pub begin: Op,
    pub end: Op,
    pub body: Op,
}

impl PartialEq for ImlParselet {
    fn eq(&self, other: &Self) -> (same: bool) {
        self.id == other.id
    }
}

impl PartialEqSpecImpl for ImlParselet {
    open spec fn obeys_eq_spec() -> bool {
        true
    }

    open spec fn eq_spec(&self, other: &Self) -> bool {
        self.id == other.id
    }
}

impl PartialOrd for ImlParselet {
    fn partial_cmp(&self, other: &Self) -> (order: Option<Ordering>) {
        if self.id < other.id {
            Some(Ordering::Less)
        } else if self.id == other.id {
            Some(Ordering::Equal)
        } else {
            Some(Ordering::Greater)
        }
    }
}

impl PartialOrdSpecImpl for ImlParselet {
    open spec fn obeys_partial_cmp_spec() -> bool {
        true
    }

    open spec fn partial_cmp_spec(&self, other: &Self) -> Option<Ordering> {
        if self.id < other.id {
            Some(Ordering::Less)
        } else if self.id == other.id {
            Some(Ordering::Equal)
        } else {
            Some(Ordering::Greater)
        }
    }
}

impl ImlParselet {
    /// A parselet with this identity, of which nothing is known yet. The
    /// parameters are the first of the local slots.
    pub fn new(
        id: usize,
        name: Option<String>,
        signature: Vec<(String, Option<usize>)>,
        locals: usize,
        begin: Op,
        end: Op,
        body: Op,
    ) -> (parselet: ImlParselet)
        requires
            signature@.len() <= locals,
        ensures
            parselet.id == id,
            parselet.consuming is None,
            parselet.severity == 5,
            parselet.name == name,
            parselet.signature == signature,
            parselet.locals == locals,
            parselet.begin == begin,
            parselet.end == end,
            parselet.body == body,
    {
        ImlParselet { id, consuming: None, severity: 5, name, signature, locals, begin, end, body }
    }

    /// The parselet as the machine runs it, with the flags that are known of
    /// it: one of which nothing is known counts as nullable and not
    /// left-recursive.
    pub fn into_parselet(self) -> (parselet: Parselet)
        requires
            self.signature@.len() <= self.locals,
        ensures
            parselet.name == self.name,
            parselet.signature == self.signature,
            parselet.locals == self.locals,
            parselet.begin == self.begin,
            parselet.end == self.end,
            parselet.body == self.body,
            parselet.severity == self.severity,
            !parselet.silent,
            parselet.leftrec == (match self.consuming {
                Some(known) => known.leftrec,
                None => false,
            }),
            parselet.nullable == (match self.consuming {
                Some(known) => known.nullable,
                None => true,
            }),
    {
        let flags = match self.consuming {
            Some(known) => Some((known.leftrec, known.nullable)),
            None => None,
        };
        Parselet::build(
            self.name,
            flags,
            self.severity,
            self.signature,
            self.locals,
            self.begin,
            self.end,
            self.body,
        )
    }

    /// Resolves the names in `begin`, `end` and the body of the parselet, in
    /// this order; the first error is the result.
    pub fn resolve(self, compiler: &Compiler, locals: bool, strict: bool) -> (result: Result<
        ImlParselet,
        Error,
    >)
        ensures
            match result {
                Ok(done) => {
                    &&& done.id == self.id
                    &&& done.consuming == self.consuming
                    &&& done.severity == self.severity
                    &&& done.name == self.name
                    &&& done.signature == self.signature
                    &&& done.locals == self.locals
                    &&& resolution(&self.begin, Ok(done.begin), compiler, locals, strict)
                    &&& resolution(&self.end, Ok(done.end), compiler, locals, strict)
                    &&& resolution(&self.body, Ok(done.body), compiler, locals, strict)
                },
                Err(error) => {
                    ||| resolution(&self.begin, Err(error), compiler, locals, strict)
                    ||| (first_unknown(&self.begin, compiler, locals) is None && resolution(
                        &self.end,
                        Err(error),
                        compiler,
                        locals,
                        strict,
                    ))
                    ||| (first_unknown(&self.begin, compiler, locals) is None && first_unknown(
                        &self.end,
                        compiler,
                        locals,
                    ) is None && resolution(&self.body, Err(error), compiler, locals, strict))
                },
            },
    {
        let ImlParselet { id, consuming, severity, name, signature, locals: slots, begin, end, body } =
            self;
        let begin = match begin.resolve(compiler, locals, strict) {
            Ok(done) => done,
            Err(error) => {
                return Err(error);
            },
        };
        let end = match end.resolve(compiler, locals, strict) {
            Ok(done) => done,
            Err(error) => {
                return Err(error);
            },
        };
        let body = match body.resolve(compiler, locals, strict) {
            Ok(done) => done,
            Err(error) => {
                return Err(error);
            },
        };
        Ok(ImlParselet { id, consuming, severity, name, signature, locals: slots, begin, end, body })
    }

    /// Walks the body of the parselet against a table of parselets that it
    /// may call, and sets the flags inside the body. The result is the
    /// parselet with its body annotated, and what the walk has found of it.
    pub fn finalize(
        self,
        statics: &Vec<Static>,
        table: &mut Vec<(bool, bool)>,
        active: &mut Vec<bool>,
        budget: usize,
    ) -> (done: (ImlParselet, Consumable))
        requires
            old(table).len() == statics.len(),
            old(active).len() == statics.len(),
        ensures
            done.0.id == self.id,
            done.0.consuming == self.consuming,
            done.0.severity == self.severity,
            done.0.name == self.name,
            done.0.signature == self.signature,
            done.0.locals == self.locals,
            done.0.begin == self.begin,
            done.0.end == self.end,
            shape_of(&done.0.body) == shape_of(&self.body),
            (final(table)@, (done.1.leftrec, done.1.nullable)) == analysed(
                shape_of(&self.body),
                bodies_of(statics@),
                old(table)@,
                old(active)@,
                budget as nat,
            ),
            annotated(&done.0.body, bodies_of(statics@), old(table)@, old(active)@, budget as nat),
            walk_kept(old(table)@, final(table)@, old(active)@, final(active)@),
    {
        let ImlParselet { id, consuming, severity, name, signature, locals, begin, end, body } = self;
        let walked = body.finalize(statics, table, active, budget);
        (
            ImlParselet { id, consuming, severity, name, signature, locals, begin, end, body: walked.0 },
            Consumable { leftrec: walked.1, nullable: walked.2 },
        )
    }
}

/// A static of a program that is built: a parselet under construction, or a value.
#[derive(Debug)]
pub enum ImlValue {
    Parselet(ImlParselet),
    Value(Value),
}

/// Whether two statics are the same: the same parselet, or values of the same content.
pub open spec fn alike(a: &ImlValue, b: &ImlValue) -> bool {
    match (a, b) {
        (ImlValue::Parselet(p), ImlValue::Parselet(q)) => p.id == q.id,
        (ImlValue::Value(v), ImlValue::Value(w)) => v@ == w@,
        _ => false,
    }
}

/// The index of the first static at or after `from` that is the same as
/// `value`, or the number of statics where there is none.
pub open spec fn found_from(values: Seq<ImlValue>, value: &ImlValue, from: int) -> int
    decreases values.len() - from,
{
    if from < 0 || from >= values.len() {
        values.len() as int
    } else if alike(&values[from], value) {
        from
    } else {
        found_from(values, value, from + 1)
    }
}

impl ImlValue {
    /// Whether the static can be called, with arguments or without: a
    /// parselet with arguments where it has parameters, and without where
    /// each parameter has a default; a value where it refers to a parselet.
    pub open spec fn callable(&self, with_arguments: bool) -> bool {
        match self {
            ImlValue::Parselet(parselet) => if with_arguments {
                parselet.signature@.len() > 0
            } else {
                forall|i: int|
                    0 <= i < parselet.signature@.len() ==> (#[trigger] parselet.signature@[i]).1 is Some
            },
            ImlValue::Value(value) => value@ is Parselet,
        }
    }

    /// Whether the static can be called, with arguments or without.
    #[verifier::loop_isolation(false)]
    pub fn is_callable(&self, with_arguments: bool) -> (callable: bool)
        ensures
            callable == self.callable(with_arguments),
    {
        match self {
            ImlValue::Parselet(parselet) => {
                if with_arguments {
                    parselet.signature.len() > 0
                } else {
                    let mut i: usize = 0;
                    while i < parselet.signature.len()
                        invariant
                            i <= parselet.signature.len(),
                            forall|k: int| 0 <= k < i ==> (#[trigger] parselet.signature@[k]).1 is Some,
                        decreases parselet.signature.len() - i,
                    {
                        if parselet.signature[i].1.is_none() {
                            assert(parselet.signature@[i as int].1 is None);
                            return false;
                        }
                        i = i + 1;
                    }
                    true
                }
            },
            ImlValue::Value(value) => value.is_callable(with_arguments),
        }
    }

    /// Whether two statics are the same.
    pub fn same(&self, other: &ImlValue) -> (same: bool)
        ensures
            same == alike(self, other),
    {
        match (self, other) {
            (ImlValue::Parselet(p), ImlValue::Parselet(q)) => p.id == q.id,
            (ImlValue::Value(v), ImlValue::Value(w)) => v.same(w),
            _ => false,
        }
    }
}

/// What the traversal of a piece of a syntax tree gives.
#[derive(Debug)]
pub enum ImlResult {
    Empty,
    Value(ImlValue),
    /// A name, and the place where it stands.
    Identifier(String, Option<Offset>),
    Ops(Vec<Op>),
}

/// The operation that pushes a value without a static: for 0, 1, void, null,
/// true and false.
pub open spec fn constant_op(value: &ImlValue) -> Option<Op> {
    match value {
        ImlValue::Value(v) => match v@ {
            ValueModel::Integer(i) => if i == 0 {
                Some(Op::Push0)
            } else if i == 1 {
                Some(Op::Push1)
            } else {
                None
            },
            ValueModel::Void => Some(Op::PushVoid),
            ValueModel::Null => Some(Op::PushNull),
            ValueModel::True => Some(Op::PushTrue),
            ValueModel::False => Some(Op::PushFalse),
            _ => None,
        },
        _ => None,
    }
}

/// Whether a value becomes a static when it is turned into an operation: a
/// call needs its callee, and a push needs what no operation pushes by itself.
pub open spec fn needs_static(value: &ImlValue, call: bool) -> bool {
    (call && value.callable(false)) || constant_op(value) is None
}

/// The operation for a value that is, where it needs one, the static at
/// `addr`: its call where a call is asked for and the value can be called
/// without arguments, else its push.
pub open spec fn value_op(value: &ImlValue, addr: usize, call: bool) -> Op {
    if call && value.callable(false) {
        Op::CallStatic(addr)
    } else {
        match constant_op(value) {
            Some(op) => op,
            None => Op::LoadStatic(addr),
        }
    }
}

/// The operations that load a variable, and call its value where a call is asked for.
pub open spec fn variable_ops(load: Op, call: bool) -> Seq<Op> {
    if call {
        seq![load, Op::TryCall]
    } else {
        seq![load]
    }
}

/// The operations for a name: a constant is its value, a local and then a
/// global variable is loaded, and a name that is not known yet stays a symbol.
pub open spec fn name_ops(compiler: &Compiler, name: String, call: bool) -> Seq<Op> {
    match compiler.constant(name@) {
        Some(addr) => if addr < compiler.values@.len() {
            seq![value_op(&compiler.values@[addr as int], addr, call)]
        } else {
            seq![Op::LoadStatic(addr)]
        },
        None => match compiler.local(name@) {
            Some(addr) => variable_ops(Op::LoadFast(addr), call),
            None => match compiler.global(name@) {
                Some(addr) => variable_ops(Op::LoadGlobal(addr), call),
                None => seq![Op::Symbol(name)],
            },
        },
    }
}

/// The operations that do something: all but `Nop`, in their order.
pub open spec fn without_nops(ops: Seq<Op>) -> Seq<Op>
    decreases ops.len(),
{
    if ops.len() == 0 {
        Seq::empty()
    } else if ops.last() is Nop {
        without_nops(ops.drop_last())
    } else {
        without_nops(ops.drop_last()).push(ops.last())
    }
}

/// The operation that pushes a value without a static.
fn constant(value: &ImlValue) -> (op: Option<Op>)
    ensures
        op == constant_op(value),
{
    match value {
        ImlValue::Value(v) => match v {
            Value::Integer(i) => {
                if *i == 0 {
                    Some(Op::Push0)
                } else if *i == 1 {
                    Some(Op::Push1)
                } else {
                    None
                }
            },
            Value::Void => Some(Op::PushVoid),
            Value::Null => Some(Op::PushNull),
            Value::True => Some(Op::PushTrue),
            Value::False => Some(Op::PushFalse),
            Value::Str(_) => None,
            Value::List(_) => {
                broadcast use crate::value::group_value_models;

                None
            },
            Value::Dict(_) => {
                broadcast use crate::value::group_value_models;

                None
            },
            Value::Parselet(_) => None,
        },
        _ => None,
    }
}

impl ImlResult {
    /// Turns the result into operations. With `call`, a value that can be
    /// called without arguments is called.
    ///
    /// Nothing gives no operation. A value gives one operation; where that
    /// needs a static, the value joins the statics of `compiler` unless it
    /// is among them. A name gives what `name_ops` says. Operations are
    /// given as they are, without those that do nothing.
    pub fn into_ops(self, compiler: &mut Compiler, call: bool) -> (ops: Vec<Op>)
        ensures
            final(compiler).constants == old(compiler).constants,
            final(compiler).locals == old(compiler).locals,
            final(compiler).globals == old(compiler).globals,
            final(compiler).next_id == old(compiler).next_id,
            match self {
                ImlResult::Empty => ops@ == Seq::<Op>::empty() && final(compiler).values == old(
                    compiler,
                ).values,
                ImlResult::Value(value) => {
                    let addr = found_from(old(compiler).values@, &value, 0);
                    &&& ops@ == seq![value_op(&value, addr as usize, call)]
                    &&& final(compiler).values@ == (if needs_static(&value, call) && addr >= old(
                        compiler,
                    ).values@.len() {
                        old(compiler).values@.push(value)
                    } else {
                        old(compiler).values@
                    })
                },
                ImlResult::Identifier(name, _) => ops@ == name_ops(old(compiler), name, call)
                    && final(compiler).values == old(compiler).values,
                ImlResult::Ops(given) => ops@ == without_nops(given@) && final(compiler).values
                    == old(compiler).values,
            },
    {
        let mut ops: Vec<Op> = Vec::new();
        match self {
            ImlResult::Empty => {},
            ImlResult::Value(value) => {
                let op = if call && value.is_callable(false) {
                    Op::CallStatic(compiler.define_value(value))
                } else {
                    match constant(&value) {
                        Some(op) => op,
                        None => Op::LoadStatic(compiler.define_value(value)),
                    }
                };
                ops.push(op);
            },
            ImlResult::Identifier(name, _) => {
                match compiler.get_constant(name.as_str()) {
                    Some(addr) => {
                        if addr < compiler.values.len() {
                            let value = &compiler.values[addr];
                            let op = if call && value.is_callable(false) {
                                Op::CallStatic(addr)
                            } else {
                                match constant(value) {
                                    Some(op) => op,
                                    None => Op::LoadStatic(addr),
                                }
                            };
                            ops.push(op);
                        } else {
                            ops.push(Op::LoadStatic(addr));
                        }
                    },
                    None => {
                        let load = match compiler.get_local(name.as_str()) {
                            Some(addr) => Some(Op::LoadFast(addr)),
                            None => match compiler.get_global(name.as_str()) {
                                Some(addr) => Some(Op::LoadGlobal(addr)),
                                None => None,
                            },
                        };
                        match load {
                            Some(load) => {
                                ops.push(load);
                                if call {
                                    ops.push(Op::TryCall);
                                }
                            },
                            None => {
                                ops.push(Op::Symbol(name));
                            },
                        }
                    },
                }
            },
            ImlResult::Ops(given) => {
                let ghost all = given@;
                let ghost mut seen: Seq<Op> = Seq::empty();
                for op in it: given
                    invariant
                        it.seq() == all,
                        seen == it.history(),
                        ops@ == without_nops(seen),
                {
                    proof {
                        assert(seen.push(op).drop_last() =~= seen);
                        seen = seen.push(op);
                    }
                    match op {
                        Op::Nop => {},
                        other => {
                            ops.push(other);
                        },
                    }
                }
                assert(seen =~= all);
            },
        }
        ops
    }

    /// The value of the result, where it is a value that cannot be called:
    /// one that can be reckoned with while the program is built.
    pub fn get_evaluable_value(&self) -> (value: Result<Value, ()>)
        ensures
            match value {
                Ok(v) => *self matches ImlResult::Value(ImlValue::Value(held)) && !(held@ is Parselet)
                    && v@ == held@,
                Err(_) => !(*self matches ImlResult::Value(ImlValue::Value(held)) && !(
                held@ is Parselet)),
            },
    {
        match self {
            ImlResult::Value(ImlValue::Value(value)) => {
                if !value.is_callable(false) {
                    return Ok(value.clone());
                }
            },
            _ => {},
        }
        Err(())
    }
}

} // verus!
