//! Running operations on a runtime.

use vstd::prelude::*;
use vstd::string::*;

use crate::capture::{
    clone_result, outcome_of, value_of, Accept, Capture, CaptureModel, Reject,
};
use crate::error::Error;
use crate::eval::{
    aliased, alternatives_eval, arith_eval, block_eval, char_eval, described, failure,
    frame_result, frozen, grow_eval, invoke, lawful, lemma_block_free, lemma_sequence_free,
    load_capture, match_eval, memo_wf, needs_no_arguments, node_of, op_eval, plain_eval, pop_free,
    repeat_end, repeat_eval, run_length, seed_of, sequence_eval, settles, static_callee,
    static_value, store_capture, store_eval,
};
use crate::op::{Block, Char, Match, Op, Repeat, Sequence};
use crate::parselet::Parselet;
use crate::program::{Program, Static};
use crate::reader::Range;
use crate::runtime::{Context, Runtime, State};
use crate::value::{group_value_models, Arith, Dict, Value, ValueModel};

verus! {

/// What a run asks of the runtime and the frame: the reader is well-formed,
/// recorded failures end where they began, and the stack reaches the
/// captures of the frame.
pub open spec fn ready(runtime: &Runtime, ctx: Context) -> bool {
    &&& runtime.wf()
    &&& memo_wf(runtime@.memo)
    &&& ctx.wf(runtime@)
}

/// What every run keeps: the reader stays well-formed over the same input.
pub open spec fn kept(before: &Runtime, after: &Runtime) -> bool {
    &&& after.wf()
    &&& after.input() == before.input()
}

/// The error outcome with `message`, at the place where the reader stands.
pub fn fail(runtime: &Runtime, message: &str) -> (result: Result<Accept, Reject>)
    requires
        runtime.wf(),
    ensures
        outcome_of(result) == failure(runtime.input(), runtime@, message@),
{
    Err(Reject::Error(Error::new(Some(runtime.reader.tell()), String::from_str(message))))
}

/// The error outcome with a message that was put together.
pub fn fail_with(runtime: &Runtime, message: String) -> (result: Result<Accept, Reject>)
    requires
        runtime.wf(),
    ensures
        outcome_of(result) == failure(runtime.input(), runtime@, message@),
{
    Err(Reject::Error(Error::new(Some(runtime.reader.tell()), message)))
}

/// A value pushed as a capture of this severity.
pub fn push(value: Value, severity: u8) -> (result: Result<Accept, Reject>)
    ensures
        outcome_of(result) == crate::eval::push_value(value@, severity),
{
    Ok(Accept::Push(Capture::Value(value, severity)))
}

/// The node with the name `emit` and this content.
pub fn node(emit: &str, content: Value) -> (value: Value)
    ensures
        value@ == node_of(emit@, content@),
{
    broadcast use group_value_models;

    let key = match &content {
        Value::List(_) => String::from_str("children"),
        Value::Dict(_) => String::from_str("children"),
        _ => String::from_str("value"),
    };
    let mut entries: Vec<(String, Value)> = Vec::new();
    entries.push((String::from_str("emit"), Value::from_str(emit)));
    entries.push((key, content));
    let dict = Dict { entries };
    assert(dict@ =~= node_of(emit@, content@)->Dict_0);
    Value::Dict(dict)
}

/// The value that the static at `addr` stands for.
pub fn load_static(program: &Program, addr: usize) -> (value: Value)
    requires
        addr < program.statics.len(),
    ensures
        value@ == static_value(program, addr as int),
{
    match &program.statics[addr] {
        Static::Value(v) => v.clone(),
        Static::Parselet(_) => Value::Parselet(addr),
    }
}

impl Char {
    /// Takes one character of the class, or with `repeats` all that follow
    /// one another.
    pub fn run(&self, runtime: &mut Runtime) -> (result: Result<Accept, Reject>)
        requires
            old(runtime).wf(),
        ensures
            kept(old(runtime), final(runtime)),
            (final(runtime)@, outcome_of(result)) == char_eval(
                self,
                old(runtime).input(),
                old(runtime)@,
            ),
            final(runtime)@.stack == old(runtime)@.stack,
            final(runtime)@.memo == old(runtime)@.memo,
            result is Err ==> final(runtime)@.pos == old(runtime)@.pos,
    {
        let start = runtime.reader.position();
        let ghost input = runtime.input();
        proof {
            runtime.reader.lemma_wf();
        }
        if self.repeats {
            let mut more = true;
            while more
                invariant
                    runtime.wf(),
                    runtime.input() == input,
                    runtime.stack == old(runtime).stack,
                    runtime.memo == old(runtime).memo,
                    start <= runtime.reader.pos() <= input.len() < usize::MAX,
                    run_length(&self.accept, input, start as int) == runtime.reader.pos() - start + (
                    if more {
                        run_length(&self.accept, input, runtime.reader.pos() as int)
                    } else {
                        0
                    }),
                decreases input.len() - runtime.reader.pos() + (if more {
                        1int
                    } else {
                        0int
                    }),
            {
                match runtime.reader.peek() {
                    Some(ch) => {
                        if self.accept.test(ch) {
                            runtime.reader.next();
                            proof {
                                runtime.reader.lemma_wf();
                            }
                        } else {
                            more = false;
                        }
                    },
                    None => {
                        more = false;
                    },
                }
            }
        } else {
            match runtime.reader.peek() {
                Some(ch) => {
                    if self.accept.test(ch) {
                        runtime.reader.next();
                    }
                },
                None => {},
            }
        }
        if start < runtime.reader.position() {
            Ok(Accept::Push(Capture::Range(runtime.reader.capture_from(start), 5)))
        } else {
            runtime.reader.reset(start);
            Err(Reject::Next)
        }
    }
}

impl Match {
    /// Takes exactly the characters of the match.
    #[verifier::loop_isolation(false)]
    pub fn run(&self, runtime: &mut Runtime) -> (result: Result<Accept, Reject>)
        requires
            old(runtime).wf(),
        ensures
            kept(old(runtime), final(runtime)),
            (final(runtime)@, outcome_of(result)) == match_eval(
                self,
                old(runtime).input(),
                old(runtime)@,
            ),
            final(runtime)@.stack == old(runtime)@.stack,
            final(runtime)@.memo == old(runtime)@.memo,
            result is Err ==> final(runtime)@.pos == old(runtime)@.pos,
    {
        let start = runtime.reader.position();
        let ghost input = runtime.input();
        proof {
            runtime.reader.lemma_wf();
        }
        let n = self.chars.len();
        let mut i: usize = 0;
        while i < n
            invariant
                runtime.wf(),
                runtime.input() == input,
                runtime.stack == old(runtime).stack,
                runtime.memo == old(runtime).memo,
                n == self.chars.len(),
                i <= n,
                start + i == runtime.reader.pos(),
                runtime.reader.pos() <= input.len() < usize::MAX,
                input.subrange(start as int, start + i) == self.chars@.take(i as int),
            decreases n - i,
        {
            match runtime.reader.next() {
                Some(ch) => {
                    proof {
                        runtime.reader.lemma_wf();
                    }
                    if ch != self.chars[i] {
                        proof {
                            if start + n <= input.len() {
                                assert(input.subrange(start as int, start + n)[i as int]
                                    != self.chars@[i as int]);
                            }
                        }
                        runtime.reader.reset(start);
                        return Err(Reject::Next);
                    }
                },
                None => {
                    runtime.reader.reset(start);
                    return Err(Reject::Next);
                },
            }
            assert(input.subrange(start as int, start + i + 1) =~= self.chars@.take(i + 1));
            i = i + 1;
        }
        assert(self.chars@.take(n as int) =~= self.chars@);
        let range = runtime.reader.capture_last(n);
        Ok(Accept::Push(Capture::Range(range, if self.silent { 0 } else { 5 })))
    }
}

/// Takes the top value off the stack and stores it in the slot at `base + addr`.
fn store(runtime: &mut Runtime, context: &Context, base: usize, addr: usize) -> (result: Result<
    Accept,
    Reject,
>)
    requires
        ready(old(runtime), *context),
    ensures
        kept(old(runtime), final(runtime)),
        (final(runtime)@, outcome_of(result)) == store_eval(
            base + addr,
            *context,
            old(runtime).input(),
            old(runtime)@,
        ),
        lawful(false, *context, old(runtime)@, final(runtime)@, outcome_of(result)),
{
    match context.pop(runtime) {
        Some(value) => {
            if addr < runtime.stack.len() && base < runtime.stack.len() - addr {
                runtime.set(base + addr, Capture::Value(value, 10));
                Ok(Accept::Next)
            } else {
                fail(runtime, "Invalid variable address")
            }
        },
        None => fail(runtime, "Stack underflow"),
    }
}

/// Pushes the value of the entry at `base + addr`.
fn load(runtime: &Runtime, base: usize, addr: usize) -> (result: Result<Accept, Reject>)
    requires
        runtime.wf(),
    ensures
        outcome_of(result) == (if base + addr < runtime@.stack.len() {
            crate::eval::push_value(value_of(runtime@.stack[base + addr], runtime.input()), 5)
        } else {
            failure(runtime.input(), runtime@, "Invalid variable address"@)
        }),
{
    if addr < runtime.stack.len() && base < runtime.stack.len() - addr {
        push(runtime.stack[base + addr].as_value(runtime), 5)
    } else {
        fail(runtime, "Invalid variable address")
    }
}

/// Pushes the capture at `index` of the frame.
fn load_fast_capture(runtime: &Runtime, context: &Context, index: usize) -> (result: Result<
    Accept,
    Reject,
>)
    requires
        runtime.wf(),
    ensures
        outcome_of(result) == load_capture(*context, runtime.input(), runtime@, index),
{
    match context.get_capture(runtime, index) {
        Some(value) => push(value, 10),
        None => push(Value::Void, 10),
    }
}

/// Takes the top value off the stack and makes it the capture at `index`.
fn store_fast_capture(runtime: &mut Runtime, context: &Context, index: usize) -> (result: Result<
    Accept,
    Reject,
>)
    requires
        ready(old(runtime), *context),
    ensures
        kept(old(runtime), final(runtime)),
        (final(runtime)@, outcome_of(result)) == store_capture(
            *context,
            old(runtime).input(),
            old(runtime)@,
            index,
        ),
        lawful(false, *context, old(runtime)@, final(runtime)@, outcome_of(result)),
{
    match context.pop(runtime) {
        Some(value) => {
            context.set_capture(runtime, index, value);
            Ok(Accept::Next)
        },
        None => fail(runtime, "Stack underflow"),
    }
}

/// Takes two values off the stack and pushes the result of the operation on them.
fn arith(runtime: &mut Runtime, context: &Context, op: Arith) -> (result: Result<Accept, Reject>)
    requires
        ready(old(runtime), *context),
    ensures
        kept(old(runtime), final(runtime)),
        (final(runtime)@, outcome_of(result)) == arith_eval(
            op,
            *context,
            old(runtime).input(),
            old(runtime)@,
        ),
        lawful(false, *context, old(runtime)@, final(runtime)@, outcome_of(result)),
{
    match context.pop(runtime) {
        Some(b) => match context.pop(runtime) {
            Some(a) => match Value::arith(op, &a, &b) {
                Some(c) => push(c, 10),
                None => fail(runtime, "Arithmetic error"),
            },
            None => fail(runtime, "Stack underflow"),
        },
        None => fail(runtime, "Stack underflow"),
    }
}

impl Op {
    /// Runs an operation that neither calls nor holds another operation.
    pub fn run_plain(&self, program: &Program, runtime: &mut Runtime, context: &Context) -> (result:
        Result<Accept, Reject>)
        requires
            ready(old(runtime), *context),
        ensures
            kept(old(runtime), final(runtime)),
            (final(runtime)@, outcome_of(result)) == plain_eval(
                program,
                self,
                *context,
                old(runtime).input(),
                old(runtime)@,
            ),
            lawful(pop_free(self), *context, old(runtime)@, final(runtime)@, outcome_of(result)),
    {
        broadcast use group_value_models;

        match self {
            Op::Empty => Ok(Accept::Push(Capture::Empty)),
            Op::Char(parser) => parser.run(runtime),
            Op::Match(parser) => parser.run(runtime),
            Op::Symbol(name) => {
                let mut message = String::from_str("Unresolved symbol ");
                message.append(name.as_str());
                fail_with(runtime, message)
            },
            Op::Error(message) => fail_with(runtime, message.clone()),
            Op::Create(emit) => {
                let value = match context.collect(runtime, context.capture_start, false, false) {
                    Some(capture) => node(emit.as_str(), capture.as_value(runtime)),
                    None => Value::Str(emit.clone()),
                };
                Ok(Accept::Return(Some(value)))
            },
            Op::Lexeme(emit) => {
                let range = runtime.reader.capture_from(context.reader_start);
                let text = Value::Str(runtime.reader.extract(&range));
                let mut entries: Vec<(String, Value)> = Vec::new();
                entries.push((String::from_str("emit"), Value::Str(emit.clone())));
                entries.push((String::from_str("value"), text));
                let dict = Dict { entries };
                assert(dict@ =~= seq![
                    ("emit"@, ValueModel::Str(emit@)),
                    ("value"@, ValueModel::Str(text@->Str_0)),
                ]);
                Ok(Accept::Return(Some(Value::Dict(dict))))
            },
            Op::Skip => Ok(Accept::Skip),
            Op::LoadAccept => match context.pop(runtime) {
                Some(value) => Ok(Accept::Return(Some(value))),
                None => fail(runtime, "Stack underflow"),
            },
            Op::Reject => Err(Reject::Return),
            Op::LoadStatic(addr) => {
                if *addr < program.statics.len() {
                    push(load_static(program, *addr), 5)
                } else {
                    fail(runtime, "Invalid static address")
                }
            },
            Op::Push0 => push(Value::Integer(0), 5),
            Op::Push1 => push(Value::Integer(1), 5),
            Op::PushVoid => push(Value::Void, 5),
            Op::PushNull => push(Value::Null, 5),
            Op::PushTrue => push(Value::True, 5),
            Op::PushFalse => push(Value::False, 5),
            Op::LoadGlobal(addr) => load(runtime, 0, *addr),
            Op::LoadFast(addr) => load(runtime, context.stack_start, *addr),
            Op::StoreGlobal(addr) => store(runtime, context, 0, *addr),
            Op::StoreFast(addr) => store(runtime, context, context.stack_start, *addr),
            Op::LoadFastCapture(index) => load_fast_capture(runtime, context, *index),
            Op::LoadCapture => match context.pop(runtime) {
                Some(index) => match index {
                    Value::Integer(_) => load_fast_capture(runtime, context, index.to_usize()),
                    _ => fail(runtime, "Invalid capture index"),
                },
                None => fail(runtime, "Stack underflow"),
            },
            Op::StoreFastCapture(index) => store_fast_capture(runtime, context, *index),
            Op::StoreCapture => match context.pop(runtime) {
                Some(index) => match index {
                    Value::Integer(_) => store_fast_capture(runtime, context, index.to_usize()),
                    _ => fail(runtime, "Invalid capture index"),
                },
                None => fail(runtime, "Stack underflow"),
            },
            Op::Add => arith(runtime, context, Arith::Add),
            Op::Sub => arith(runtime, context, Arith::Sub),
            Op::Mul => arith(runtime, context, Arith::Mul),
            Op::Div => arith(runtime, context, Arith::Div),
            _ => Ok(Accept::Next),
        }
    }
}

/// Ends a frame: collects the captures since `stack_len`, and gives the
/// collected capture, else the span read since `pos`, else nothing.
fn finish_frame(runtime: &mut Runtime, context: &Context, stack_len: usize, pos: usize, single: bool) -> (result:
    Result<Accept, Reject>)
    requires
        old(runtime).wf(),
    ensures
        kept(old(runtime), final(runtime)),
        final(runtime).memo == old(runtime).memo,
        (final(runtime)@, outcome_of(result)) == frame_result(
            old(runtime).input(),
            old(runtime)@,
            stack_len,
            pos,
            single,
        ),
        result is Ok,
        settles(outcome_of(result)),
{
    match context.collect(runtime, stack_len, false, single) {
        Some(capture) => Ok(Accept::Push(capture)),
        None => {
            if pos < runtime.reader.position() {
                Ok(Accept::Push(Capture::Range(runtime.reader.capture_from(pos), 0)))
            } else {
                Ok(Accept::Next)
            }
        },
    }
}

impl Op {
    /// How the operation is named in a message.
    pub fn describe(&self) -> (text: String)
        ensures
            text@ == described(self),
    {
        match self {
            Op::Match(m) => {
                let quote = if m.silent { "'" } else { "\"" };
                let mut text = String::from_str(quote);
                text.append(m.text.as_str());
                text.append(quote);
                text
            },
            Op::Char(_) => String::from_str("Char"),
            Op::Repeat(_) => String::from_str("Repeat"),
            Op::Sequence(_) => String::from_str("Sequence"),
            Op::Block(_) => String::from_str("Block"),
            _ => String::from_str("Op"),
        }
    }

    /// Runs the operation in the frame `context`, with `depth` as the budget
    /// of calls and further rounds.
    pub fn run(&self, program: &Program, runtime: &mut Runtime, context: &Context, depth: usize) -> (result:
        Result<Accept, Reject>)
        requires
            ready(old(runtime), *context),
        ensures
            kept(old(runtime), final(runtime)),
            (final(runtime)@, outcome_of(result)) == op_eval(
                program,
                self,
                *context,
                old(runtime).input(),
                old(runtime)@,
                depth as nat,
            ),
            lawful(pop_free(self), *context, old(runtime)@, final(runtime)@, outcome_of(result)),
        decreases depth, 1nat, self, 0nat,
    {
        broadcast use group_value_models;

        proof {
            old(runtime).reader.lemma_wf();
        }
        match self {
            Op::Nop => Ok(Accept::Next),
            Op::Peek(inner) => {
                let start = runtime.reader.position();
                let result = inner.run(program, runtime, context, depth);
                runtime.seek(start);
                result
            },
            Op::Not(inner) => {
                let start = runtime.reader.position();
                let stack_len = runtime.stack.len();
                let result = inner.run(program, runtime, context, depth);
                runtime.restore(stack_len, start);
                if result.is_ok() {
                    Err(Reject::Next)
                } else {
                    Ok(Accept::Next)
                }
            },
            Op::Expect(inner) => {
                match inner.run(program, runtime, context, depth) {
                    Err(Reject::Next) => {
                        let mut message = String::from_str("Expecting ");
                        let name = inner.describe();
                        message.append(name.as_str());
                        fail_with(runtime, message)
                    },
                    other => other,
                }
            },
            Op::Repeat(repeat) => repeat.run(program, runtime, context, depth),
            Op::Sequence(sequence) => sequence.run(program, runtime, context, depth),
            Op::Block(block) => block.run(program, runtime, context, depth),
            Op::TryCall => match context.pop(runtime) {
                Some(value) => match program.callee(&value) {
                    Some(target) => match program.parselet(target) {
                        Some(parselet) => {
                            if parselet.needs_no_arguments() {
                                program.invoke(Some(target), 0, None, runtime, context, depth)
                            } else {
                                push(value, 1)
                            }
                        },
                        None => push(value, 1),
                    },
                    None => push(value, 1),
                },
                None => fail(runtime, "Stack underflow"),
            },
            Op::Call => match context.pop(runtime) {
                Some(value) => {
                    let target = program.callee(&value);
                    program.invoke(target, 0, None, runtime, context, depth)
                },
                None => fail(runtime, "Stack underflow"),
            },
            Op::CallStatic(addr) => {
                let target = program.static_callee(*addr);
                program.invoke(target, 0, None, runtime, context, depth)
            },
            Op::CallStaticArg(addr, argc) => {
                assert(runtime@.stack.len() == runtime.stack.len());
                if runtime.stack.len() - context.capture_start < *argc {
                    fail(runtime, "Stack underflow")
                } else {
                    let target = program.static_callee(*addr);
                    program.invoke(target, *argc, None, runtime, context, depth)
                }
            },
            Op::CallStaticArgNamed(addr, argc) => match context.pop(runtime) {
                Some(top) => match top {
                    Value::Dict(nargs) => {
                        assert(runtime@.stack.len() == runtime.stack.len());
                        if runtime.stack.len() - context.capture_start < *argc {
                            fail(runtime, "Stack underflow")
                        } else {
                            let target = program.static_callee(*addr);
                            program.invoke(target, *argc, Some(nargs), runtime, context, depth)
                        }
                    },
                    _ => fail(runtime, "Named arguments are no dictionary"),
                },
                None => fail(runtime, "Stack underflow"),
            },
            _ => self.run_plain(program, runtime, context),
        }
    }
}

impl Repeat {
    /// The end of a repetition after `count` rounds.
    fn end(&self, runtime: &mut Runtime, context: &Context, stack_len: usize, pos: usize, count: usize) -> (result:
        Result<Accept, Reject>)
        requires
            old(runtime).wf(),
        ensures
            kept(old(runtime), final(runtime)),
            final(runtime).memo == old(runtime).memo,
            (final(runtime)@, outcome_of(result)) == repeat_end(
                self,
                old(runtime).input(),
                old(runtime)@,
                stack_len,
                pos,
                count as nat,
            ),
            settles(outcome_of(result)),
            final(runtime)@.stack == crate::collect::cut_to(old(runtime)@.stack, stack_len),
            result is Err ==> final(runtime)@.pos == crate::reader::clamp(old(runtime).input(), pos),
    {
        if count < self.min {
            runtime.restore(stack_len, pos);
            Err(Reject::Next)
        } else {
            finish_frame(runtime, context, stack_len, pos, false)
        }
    }

    /// Runs the repetition.
    #[verifier::loop_isolation(false)]
    pub fn run(&self, program: &Program, runtime: &mut Runtime, context: &Context, depth: usize) -> (result:
        Result<Accept, Reject>)
        requires
            ready(old(runtime), *context),
        ensures
            kept(old(runtime), final(runtime)),
            (final(runtime)@, outcome_of(result)) == repeat_eval(
                program,
                self,
                *context,
                old(runtime).input(),
                old(runtime)@,
                old(runtime)@.stack.len() as usize,
                old(runtime)@.pos,
                0,
                depth as nat,
            ),
            lawful(
                pop_free(&self.parser),
                *context,
                old(runtime)@,
                final(runtime)@,
                outcome_of(result),
            ),
        decreases depth, 1nat, self, 0nat,
    {
        let stack_len = runtime.stack.len();
        let pos = runtime.reader.position();
        let ghost input = runtime.input();
        let ghost free = pop_free(&self.parser);
        let ghost goal = repeat_eval(
            program,
            self,
            *context,
            input,
            old(runtime)@,
            stack_len,
            pos,
            0,
            depth as nat,
        );
        proof {
            runtime.reader.lemma_wf();
        }
        let mut count: usize = 0;
        let mut budget: usize = depth;
        loop
            invariant
                ready(runtime, *context),
                runtime.input() == input,
                count + budget == depth,
                goal == repeat_eval(
                    program,
                    self,
                    *context,
                    input,
                    runtime@,
                    stack_len,
                    pos,
                    count as nat,
                    budget as nat,
                ),
                frozen(old(runtime)@.memo, runtime@.memo),
                free ==> runtime@.stack.len() >= stack_len,
            decreases budget,
        {
            let ghost before = runtime@;
            let result = self.parser.run(program, runtime, context, budget);
            match result {
                Err(Reject::Next) => {
                    return self.end(runtime, context, stack_len, pos, count);
                },
                Err(reject) => {
                    runtime.restore(stack_len, pos);
                    return Err(reject);
                },
                Ok(Accept::Next) => {},
                Ok(Accept::Push(capture)) => {
                    if !self.silent {
                        runtime.push(capture);
                    }
                },
                Ok(accept) => {
                    return Ok(accept);
                },
            }
            if self.max > 0 && count == self.max - 1 {
                return self.end(runtime, context, stack_len, pos, count + 1);
            }
            if budget == 0 {
                runtime.restore(stack_len, pos);
                return fail(runtime, "Recursion limit reached");
            }
            count = count + 1;
            budget = budget - 1;
        }
    }
}

impl Sequence {
    /// Runs the items of the sequence one after the other.
    #[verifier::loop_isolation(false)]
    pub fn run(&self, program: &Program, runtime: &mut Runtime, context: &Context, depth: usize) -> (result:
        Result<Accept, Reject>)
        requires
            ready(old(runtime), *context),
        ensures
            kept(old(runtime), final(runtime)),
            (final(runtime)@, outcome_of(result)) == op_eval(
                program,
                &Op::Sequence(*self),
                *context,
                old(runtime).input(),
                old(runtime)@,
                depth as nat,
            ),
            lawful(
                pop_free(&Op::Sequence(*self)),
                *context,
                old(runtime)@,
                final(runtime)@,
                outcome_of(result),
            ),
        decreases depth, 1nat, self, 0nat,
    {
        if self.items.len() == 0 {
            return Ok(Accept::Next);
        }
        let stack_len = runtime.stack.len();
        let pos = runtime.reader.position();
        let ghost input = runtime.input();
        let ghost free = pop_free(&Op::Sequence(*self));
        let ghost goal = sequence_eval(
            program,
            self,
            0,
            *context,
            input,
            old(runtime)@,
            stack_len,
            pos,
            depth as nat,
        );
        proof {
            runtime.reader.lemma_wf();
        }
        let mut i: usize = 0;
        while i < self.items.len()
            invariant
                ready(runtime, *context),
                runtime.input() == input,
                i <= self.items.len(),
                goal == sequence_eval(
                    program,
                    self,
                    i as int,
                    *context,
                    input,
                    runtime@,
                    stack_len,
                    pos,
                    depth as nat,
                ),
                frozen(old(runtime)@.memo, runtime@.memo),
                free ==> runtime@.stack.len() >= stack_len,
            decreases self.items.len() - i,
        {
            let item = &self.items[i];
            assert(decreases_to!(self.items => *item));
            proof {
                if free {
                    lemma_sequence_free(*self, i as int);
                }
            }
            let result = item.0.run(program, runtime, context, depth);
            let capture = match result {
                Err(reject) => {
                    runtime.restore(stack_len, pos);
                    return Err(reject);
                },
                Ok(Accept::Next) => Capture::Empty,
                Ok(Accept::Push(capture)) => capture,
                Ok(accept) => {
                    return Ok(accept);
                },
            };
            match &item.1 {
                Some(alias) => {
                    assert(aliased(capture@, item.1) == CaptureModel::Named(
                        Box::new(capture@),
                        alias@,
                    ));
                    runtime.push(Capture::Named(Box::new(capture), alias.clone()));
                },
                None => {
                    runtime.push(capture);
                },
            }
            i = i + 1;
        }
        finish_frame(runtime, context, stack_len, pos, true)
    }
}

impl Block {
    /// Tries the alternatives that are left-recursive (`mode`) or those that
    /// are not, each with the reader at `pos`.
    #[verifier::loop_isolation(false)]
    pub fn run_alternatives(
        &self,
        program: &Program,
        runtime: &mut Runtime,
        context: &Context,
        mode: bool,
        pos: usize,
        depth: usize,
    ) -> (result: Result<Accept, Reject>)
        requires
            ready(old(runtime), *context),
            old(runtime)@.pos == pos,
        ensures
            kept(old(runtime), final(runtime)),
            (final(runtime)@, outcome_of(result)) == alternatives_eval(
                program,
                self,
                0,
                mode,
                *context,
                old(runtime).input(),
                old(runtime)@,
                pos,
                Ok(crate::capture::AcceptModel::Next),
                depth as nat,
            ),
            lawful(
                pop_free(&Op::Block(*self)),
                *context,
                old(runtime)@,
                final(runtime)@,
                outcome_of(result),
            ),
        decreases depth, 1nat, self, 0nat,
    {
        let ghost input = runtime.input();
        let ghost free = pop_free(&Op::Block(*self));
        let ghost goal = alternatives_eval(
            program,
            self,
            0,
            mode,
            *context,
            input,
            old(runtime)@,
            pos,
            Ok(crate::capture::AcceptModel::Next),
            depth as nat,
        );
        proof {
            runtime.reader.lemma_wf();
        }
        let mut last: Result<Accept, Reject> = Ok(Accept::Next);
        let mut i: usize = 0;
        while i < self.items.len()
            invariant
                ready(runtime, *context),
                runtime.input() == input,
                i <= self.items.len(),
                goal == alternatives_eval(
                    program,
                    self,
                    i as int,
                    mode,
                    *context,
                    input,
                    runtime@,
                    pos,
                    outcome_of(last),
                    depth as nat,
                ),
                frozen(old(runtime)@.memo, runtime@.memo),
                settles(outcome_of(last)),
                last is Err ==> runtime@.pos == pos,
                runtime@.stack.len() <= old(runtime)@.stack.len(),
                free ==> runtime@.stack.len() == old(runtime)@.stack.len(),
            decreases self.items.len() - i,
        {
            let item = &self.items[i];
            assert(decreases_to!(self.items => *item));
            proof {
                if free {
                    lemma_block_free(*self, i as int);
                }
            }
            if item.1 == mode {
                runtime.seek(pos);
                let result = item.0.run(program, runtime, context, depth);
                let way = match &result {
                    Ok(Accept::Next) => true,
                    Err(Reject::Next) => true,
                    Ok(Accept::Push(_)) => runtime.reader.position() == pos,
                    _ => false,
                };
                if !way {
                    return result;
                }
                last = result;
            }
            i = i + 1;
        }
        last
    }

    /// Runs the block.
    #[verifier::loop_isolation(false)]
    pub fn run(&self, program: &Program, runtime: &mut Runtime, context: &Context, depth: usize) -> (result:
        Result<Accept, Reject>)
        requires
            ready(old(runtime), *context),
        ensures
            kept(old(runtime), final(runtime)),
            (final(runtime)@, outcome_of(result)) == block_eval(
                program,
                self,
                *context,
                old(runtime).input(),
                old(runtime)@,
                depth as nat,
            ),
            lawful(
                pop_free(&Op::Block(*self)),
                *context,
                old(runtime)@,
                final(runtime)@,
                outcome_of(result),
            ),
            self.leftrec && !old(runtime)@.memo.contains_key((old(runtime)@.pos, self.id))
                ==> grow_eval(
                program,
                self,
                *context,
                old(runtime).input(),
                (State {
                    memo: old(runtime)@.memo.insert(
                        (old(runtime)@.pos, self.id),
                        (old(runtime)@.pos, seed_of(self)),
                    ),
                    ..old(runtime)@
                }),
                old(runtime)@.stack.len() as usize,
                old(runtime)@.pos,
                old(runtime)@.pos,
                seed_of(self),
                0,
                depth as nat,
            ).2 <= old(runtime).input().len() - old(runtime)@.pos,
        decreases depth, 1nat, self, 1nat,
    {
        let pos = runtime.reader.position();
        let stack_len = runtime.stack.len();
        let ghost input = runtime.input();
        let ghost free = pop_free(&Op::Block(*self));
        proof {
            runtime.reader.lemma_wf();
        }
        match runtime.memo.get(pos, self.id) {
            Some((end, result)) => {
                runtime.seek(end);
                return result;
            },
            None => {},
        }
        if !self.leftrec {
            return self.run_alternatives(program, runtime, context, false, pos, depth);
        }
        let mut best: Result<Accept, Reject> = if self.all_leftrec {
            Ok(Accept::Next)
        } else {
            Err(Reject::Next)
        };
        let mut end: usize = pos;
        runtime.memo.insert(pos, self.id, end, clone_result(&best));
        let ghost goal = grow_eval(
            program,
            self,
            *context,
            input,
            runtime@,
            stack_len,
            pos,
            pos,
            seed_of(self),
            0,
            depth as nat,
        );
        let mut loops: usize = 0;
        let mut budget: usize = depth;
        loop
            invariant
                ready(runtime, *context),
                runtime.input() == input,
                runtime@.pos == pos,
                runtime@.stack.len() <= stack_len,
                free ==> runtime@.stack.len() == stack_len,
                loops + budget == depth,
                pos <= end <= input.len(),
                loops <= end - pos,
                loops == 0 ==> end == pos && outcome_of(best) == seed_of(self),
                loops > 0 ==> best is Ok,
                settles(outcome_of(best)) || loops > 0,
                goal == grow_eval(
                    program,
                    self,
                    *context,
                    input,
                    runtime@,
                    stack_len,
                    pos,
                    end,
                    outcome_of(best),
                    loops as nat,
                    budget as nat,
                ),
                frozen(old(runtime)@.memo, runtime@.memo),
                !old(runtime)@.memo.contains_key((pos, self.id)),
            decreases budget,
        {
            let result = self.run_alternatives(
                program,
                runtime,
                context,
                self.all_leftrec || loops > 0,
                pos,
                budget,
            );
            proof {
                runtime.reader.lemma_wf();
            }
            match &result {
                Err(Reject::Main) => {
                    return result;
                },
                Err(Reject::Error(_)) => {
                    return result;
                },
                Err(_) => {
                    if loops == 0 {
                        return result;
                    }
                    runtime.restore(stack_len, end);
                    return best;
                },
                Ok(_) => {},
            }
            if runtime.reader.position() <= end {
                runtime.restore(stack_len, end);
                return best;
            }
            if budget == 0 {
                runtime.restore(stack_len, pos);
                return fail(runtime, "Recursion limit reached");
            }
            end = runtime.reader.position();
            runtime.memo.insert(pos, self.id, end, clone_result(&result));
            runtime.restore(stack_len, pos);
            best = result;
            loops = loops + 1;
            budget = budget - 1;
        }
    }
}

} // verus!
