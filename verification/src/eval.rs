//! What running an operation means: the state it leaves and the outcome it
//! gives, as functions of the program, the frame, the input and the state
//! before.
//!
//! `depth` is a budget. Every call of a parselet and every further round of a
//! loop takes one from it, and a run that would need more ends in an error.

use vstd::prelude::*;

use crate::capture::{value_of, AcceptModel, CaptureModel, Outcome, RejectModel};
use crate::ccl::Ccl;
use crate::collect::{collected, tail_from};
use crate::error::ErrorModel;
use crate::memo::MemoModel;
use crate::op::{Block, Char, Match, Op, Repeat, Sequence};
use crate::parselet::Parselet;
use crate::program::{Program, Static};
use crate::reader::{offset_of, range_from, slice_of, Range};
use crate::runtime::{capture_at, moved, pushed, truncated, with_capture, Context, State};
use crate::value::{arith_of, dict_get, dict_remove, index_of, Arith, Dict, ValueModel};

verus! {

/// The state after a run, and its outcome.
pub type Run = (State, Outcome);

/// The error outcome with `message`, at the place where the reader stands.
pub open spec fn failure(input: Seq<char>, st: State, message: Seq<char>) -> Outcome {
    Err(RejectModel::Error(ErrorModel { offset: Some(offset_of(input, st.pos)), message }))
}

/// The state with the reader and the stack put back to where a frame began.
pub open spec fn restored(st: State, input: Seq<char>, stack_len: usize, pos: usize) -> State {
    truncated(moved(st, input, pos), stack_len)
}

/// The state with the reader one character further, unless the input has ended.
pub open spec fn advanced(st: State, input: Seq<char>) -> State {
    if st.pos < input.len() {
        State { pos: (st.pos + 1) as usize, ..st }
    } else {
        st
    }
}

/// Whether the frame has a capture to take off the stack.
pub open spec fn can_pop(ctx: Context, st: State) -> bool {
    st.stack.len() > ctx.capture_start
}

/// The state without the top of the stack.
pub open spec fn popped(st: State) -> State {
    State { stack: st.stack.drop_last(), ..st }
}

/// How an operation is named in a message.
pub open spec fn described(op: &Op) -> Seq<char> {
    match op {
        Op::Match(m) => if m.silent {
            "'"@ + m.text@ + "'"@
        } else {
            "\""@ + m.text@ + "\""@
        },
        Op::Char(_) => "Char"@,
        Op::Repeat(_) => "Repeat"@,
        Op::Sequence(_) => "Sequence"@,
        Op::Block(_) => "Block"@,
        _ => "Op"@,
    }
}

/// The value that the static at `addr` stands for: a value is itself, a
/// parselet a reference to its address.
pub open spec fn static_value(program: &Program, addr: int) -> ValueModel {
    match program.statics[addr] {
        Static::Value(v) => v@,
        Static::Parselet(_) => ValueModel::Parselet(addr as usize),
    }
}

/// The address of the parselet that a call of `value` runs.
pub open spec fn callee_of(program: &Program, value: ValueModel) -> Option<usize> {
    match value {
        ValueModel::Parselet(addr) => if addr < program.statics.len()
            && program.statics[addr as int] is Parselet {
            Some(addr)
        } else {
            None
        },
        _ => None,
    }
}

/// The address of the parselet that a call of the static at `addr` runs.
pub open spec fn static_callee(program: &Program, addr: usize) -> Option<usize> {
    if addr < program.statics.len() {
        match program.statics[addr as int] {
            Static::Parselet(_) => Some(addr),
            Static::Value(v) => callee_of(program, v@),
        }
    } else {
        None
    }
}

/// Whether every parameter has a default, so that a call needs no arguments.
pub open spec fn needs_no_arguments(parselet: &Parselet) -> bool {
    forall|i: int| 0 <= i < parselet.signature.len() ==> (#[trigger] parselet.signature[i]).1 is Some
}

/// The number of characters from `pos` on that the class accepts one after the other.
pub open spec fn run_length(accept: &Ccl, input: Seq<char>, pos: int) -> int
    decreases input.len() - pos,
{
    if pos < 0 || pos >= input.len() || !accept.accepts(input[pos]) {
        0
    } else {
        1 + run_length(accept, input, pos + 1)
    }
}

/// A character parser takes one accepted character, or with `repeats` all
/// that follow one another, and gives their span; with none it fails.
pub open spec fn char_eval(parser: &Char, input: Seq<char>, st: State) -> Run {
    let n = if parser.repeats {
        run_length(&parser.accept, input, st.pos as int)
    } else if st.pos < input.len() && parser.accept.accepts(input[st.pos as int]) {
        1
    } else {
        0
    };
    if n > 0 {
        (
            State { pos: (st.pos + n) as usize, ..st },
            Ok(
                AcceptModel::Push(
                    CaptureModel::Range(Range { start: st.pos, end: (st.pos + n) as usize }, 5),
                ),
            ),
        )
    } else {
        (st, Err(RejectModel::Next))
    }
}

/// A match takes exactly its characters and gives their span, at severity 0
/// where it is silent and 5 where it is not; anything else leaves the reader
/// where it was and fails.
pub open spec fn match_eval(parser: &Match, input: Seq<char>, st: State) -> Run {
    let n = parser.chars@.len();
    if st.pos + n <= input.len() && input.subrange(st.pos as int, st.pos + n) == parser.chars@ {
        (
            State { pos: (st.pos + n) as usize, ..st },
            Ok(
                AcceptModel::Push(
                    CaptureModel::Range(
                        Range { start: st.pos, end: (st.pos + n) as usize },
                        if parser.silent {
                            0
                        } else {
                            5
                        },
                    ),
                ),
            ),
        )
    } else {
        (st, Err(RejectModel::Next))
    }
}

/// What a frame gives once its items are done: the captures since
/// `stack_len` are taken off the stack and collected; without a collected
/// capture the frame gives the span it read, at severity 0, or nothing where
/// it read nothing.
pub open spec fn frame_result(
    input: Seq<char>,
    st: State,
    stack_len: usize,
    pos: usize,
    single: bool,
) -> Run {
    let after = truncated(st, stack_len);
    match collected(tail_from(st.stack, stack_len), input, single) {
        Some(capture) => (after, Ok(AcceptModel::Push(capture))),
        None => if pos < st.pos {
            (after, Ok(AcceptModel::Push(CaptureModel::Range(range_from(pos, st.pos), 0))))
        } else {
            (after, Ok(AcceptModel::Next))
        },
    }
}

/// A capture under the alias of its item, where the item has one.
pub open spec fn aliased(capture: CaptureModel, alias: Option<String>) -> CaptureModel {
    match alias {
        Some(name) => CaptureModel::Named(Box::new(capture), name@),
        None => capture,
    }
}

/// The node that `Create` and `Lexeme` return: a dictionary with the name
/// under `emit` and the content under `children`, where it is a list or a
/// dictionary, or else under `value`.
pub open spec fn node_of(emit: Seq<char>, content: ValueModel) -> ValueModel {
    ValueModel::Dict(
        seq![
            ("emit"@, ValueModel::Str(emit)),
            (
                if content is List || content is Dict {
                    "children"@
                } else {
                    "value"@
                },
                content,
            ),
        ],
    )
}

/// A value pushed as a capture of this severity.
pub open spec fn push_value(value: ValueModel, severity: u8) -> Outcome {
    Ok(AcceptModel::Push(CaptureModel::Value(value, severity)))
}

/// One of the four operations of arithmetic: the two top values are taken
/// off the stack, the upper one as the right side, and the result is pushed
/// at severity 10.
pub open spec fn arith_eval(op: Arith, ctx: Context, input: Seq<char>, st: State) -> Run {
    if !can_pop(ctx, st) {
        (st, failure(input, st, "Stack underflow"@))
    } else {
        let b = value_of(st.stack.last(), input);
        let st1 = popped(st);
        if !can_pop(ctx, st1) {
            (st1, failure(input, st1, "Stack underflow"@))
        } else {
            let a = value_of(st1.stack.last(), input);
            let st2 = popped(st1);
            match arith_of(op, a, b) {
                Some(c) => (st2, push_value(c, 10)),
                None => (st2, failure(input, st2, "Arithmetic error"@)),
            }
        }
    }
}

/// The operations that neither call nor hold another operation.
pub open spec fn plain_eval(program: &Program, op: &Op, ctx: Context, input: Seq<char>, st: State) -> Run {
    match op {
        Op::Empty => (st, Ok(AcceptModel::Push(CaptureModel::Empty))),
        Op::Char(parser) => char_eval(parser, input, st),
        Op::Match(parser) => match_eval(parser, input, st),
        Op::Symbol(name) => (st, failure(input, st, "Unresolved symbol "@ + name@)),
        Op::Error(message) => (st, failure(input, st, message@)),
        Op::Create(emit) => (
            truncated(st, ctx.capture_start),
            Ok(
                AcceptModel::Return(
                    Some(
                        match collected(tail_from(st.stack, ctx.capture_start), input, false) {
                            Some(capture) => node_of(emit@, value_of(capture, input)),
                            None => ValueModel::Str(emit@),
                        },
                    ),
                ),
            ),
        ),
        Op::Lexeme(emit) => (
            st,
            Ok(
                AcceptModel::Return(
                    Some(
                        ValueModel::Dict(
                            seq![
                                ("emit"@, ValueModel::Str(emit@)),
                                (
                                    "value"@,
                                    ValueModel::Str(
                                        slice_of(input, range_from(ctx.reader_start, st.pos)),
                                    ),
                                ),
                            ],
                        ),
                    ),
                ),
            ),
        ),
        Op::Skip => (st, Ok(AcceptModel::Skip)),
        Op::LoadAccept => if can_pop(ctx, st) {
            (popped(st), Ok(AcceptModel::Return(Some(value_of(st.stack.last(), input)))))
        } else {
            (st, failure(input, st, "Stack underflow"@))
        },
        Op::Reject => (st, Err(RejectModel::Return)),
        Op::LoadStatic(addr) => if *addr < program.statics.len() {
            (st, push_value(static_value(program, *addr as int), 5))
        } else {
            (st, failure(input, st, "Invalid static address"@))
        },
        Op::Push0 => (st, push_value(ValueModel::Integer(0), 5)),
        Op::Push1 => (st, push_value(ValueModel::Integer(1), 5)),
        Op::PushVoid => (st, push_value(ValueModel::Void, 5)),
        Op::PushNull => (st, push_value(ValueModel::Null, 5)),
        Op::PushTrue => (st, push_value(ValueModel::True, 5)),
        Op::PushFalse => (st, push_value(ValueModel::False, 5)),
        Op::LoadGlobal(addr) => if *addr < st.stack.len() {
            (st, push_value(value_of(st.stack[*addr as int], input), 5))
        } else {
            (st, failure(input, st, "Invalid variable address"@))
        },
        Op::LoadFast(addr) => if ctx.stack_start + *addr < st.stack.len() {
            (st, push_value(value_of(st.stack[ctx.stack_start + *addr], input), 5))
        } else {
            (st, failure(input, st, "Invalid variable address"@))
        },
        Op::StoreGlobal(addr) => store_eval(*addr as int, ctx, input, st),
        Op::StoreFast(addr) => store_eval(ctx.stack_start + *addr, ctx, input, st),
        Op::LoadFastCapture(index) => (st, load_capture(ctx, input, st, *index)),
        Op::LoadCapture => if !can_pop(ctx, st) {
            (st, failure(input, st, "Stack underflow"@))
        } else {
            let index = value_of(st.stack.last(), input);
            let st1 = popped(st);
            if index is Integer {
                (st1, load_capture(ctx, input, st1, index_of(index)))
            } else {
                (st1, failure(input, st1, "Invalid capture index"@))
            }
        },
        Op::StoreFastCapture(index) => store_capture(ctx, input, st, *index),
        Op::StoreCapture => if !can_pop(ctx, st) {
            (st, failure(input, st, "Stack underflow"@))
        } else {
            let index = value_of(st.stack.last(), input);
            let st1 = popped(st);
            if index is Integer {
                store_capture(ctx, input, st1, index_of(index))
            } else {
                (st1, failure(input, st1, "Invalid capture index"@))
            }
        },
        Op::Add => arith_eval(Arith::Add, ctx, input, st),
        Op::Sub => arith_eval(Arith::Sub, ctx, input, st),
        Op::Mul => arith_eval(Arith::Mul, ctx, input, st),
        Op::Div => arith_eval(Arith::Div, ctx, input, st),
        _ => (st, Ok(AcceptModel::Next)),
    }
}

/// The capture at `index` pushed as a value of severity 10, void where there is none.
pub open spec fn load_capture(ctx: Context, input: Seq<char>, st: State, index: usize) -> Outcome {
    push_value(
        match capture_at(ctx, input, st, index) {
            Some(value) => value,
            None => ValueModel::Void,
        },
        10,
    )
}

/// The top value is taken off the stack and becomes the capture at `index`.
pub open spec fn store_capture(ctx: Context, input: Seq<char>, st: State, index: usize) -> Run {
    if can_pop(ctx, st) {
        let value = value_of(st.stack.last(), input);
        let st1 = popped(st);
        (State { stack: with_capture(ctx, st1.stack, index, value), ..st1 }, Ok(AcceptModel::Next))
    } else {
        (st, failure(input, st, "Stack underflow"@))
    }
}

/// The top value is taken off the stack and stored, at severity 10, in the slot at `slot`.
pub open spec fn store_eval(slot: int, ctx: Context, input: Seq<char>, st: State) -> Run {
    if can_pop(ctx, st) {
        let value = value_of(st.stack.last(), input);
        let st1 = popped(st);
        if slot < st1.stack.len() {
            (
                State { stack: st1.stack.update(slot, CaptureModel::Value(value, 10)), ..st1 },
                Ok(AcceptModel::Next),
            )
        } else {
            (st1, failure(input, st1, "Invalid variable address"@))
        }
    } else {
        (st, failure(input, st, "Stack underflow"@))
    }
}

/// What a parselet does with the outcome of its body, of `begin` or of `end`.
pub enum Step {
    /// The parselet ends with this outcome.
    Return(Outcome),
    /// The parselet goes on; the value, if any, joins its results.
    Continue(Option<ValueModel>),
    /// The main parselet skips a character and goes on.
    Backtrack,
}

/// In main mode every success of the body but a skip counts as one round:
/// a returned value, the text of a span or the value of a pushed capture is
/// the round's value.
pub open spec fn normalised(main: bool, out: Outcome, input: Seq<char>) -> Outcome {
    if main {
        match out {
            Ok(AcceptModel::Next) => Ok(AcceptModel::Repeat(None)),
            Ok(AcceptModel::Return(value)) => Ok(AcceptModel::Repeat(value)),
            Ok(AcceptModel::Push(capture)) => Ok(
                AcceptModel::Repeat(
                    match capture {
                        CaptureModel::Range(range, _) => Some(
                            ValueModel::Str(slice_of(input, range)),
                        ),
                        CaptureModel::Value(value, _) => Some(value),
                        _ => None,
                    },
                ),
            ),
            _ => out,
        }
    } else {
        out
    }
}

/// What a parselet does with an outcome, once it is normalised.
pub open spec fn step_of(silent: bool, severity: u8, main: bool, have_results: bool, out: Outcome) -> Step {
    match out {
        Ok(AcceptModel::Skip) => Step::Return(Ok(AcceptModel::Next)),
        Ok(AcceptModel::Return(value)) => Step::Return(
            Ok(
                AcceptModel::Push(
                    match value {
                        Some(v) => if silent {
                            CaptureModel::Empty
                        } else {
                            CaptureModel::Value(v, severity)
                        },
                        None => CaptureModel::Empty,
                    },
                ),
            ),
        ),
        Ok(AcceptModel::Repeat(value)) => Step::Continue(value),
        Ok(AcceptModel::Push(capture)) => Step::Return(
            Ok(
                AcceptModel::Push(
                    if silent {
                        CaptureModel::Empty
                    } else {
                        capture
                    },
                ),
            ),
        ),
        Ok(AcceptModel::Next) => Step::Return(Ok(AcceptModel::Next)),
        Err(RejectModel::Error(error)) => Step::Return(Err(RejectModel::Error(error))),
        Err(reject) => if main {
            Step::Backtrack
        } else if reject is Main || !have_results {
            Step::Return(Err(reject))
        } else {
            Step::Continue(None)
        },
    }
}

/// The results with one more value, where there is one.
pub open spec fn with_result(results: Seq<ValueModel>, value: Option<ValueModel>) -> Seq<ValueModel> {
    match value {
        Some(v) => results.push(v),
        None => results,
    }
}

/// How a parselet ends: its frame is taken off the stack, and a failure puts
/// the reader back to where the parselet was entered.
pub open spec fn done(ctx: Context, input: Seq<char>, st: State, out: Outcome) -> Run {
    if out is Err {
        (restored(st, input, ctx.stack_start, ctx.reader_start), out)
    } else {
        (truncated(st, ctx.stack_start), out)
    }
}

/// What a parselet gives when its loop has ended: the list of its results,
/// the one result, or nothing.
pub open spec fn finished(severity: u8, results: Seq<ValueModel>) -> Outcome {
    if results.len() > 1 {
        push_value(ValueModel::List(results), severity)
    } else if results.len() == 1 {
        push_value(results[0], severity)
    } else {
        Ok(AcceptModel::Next)
    }
}

/// The stack with the parameters from `i` on bound: each to the named
/// argument of its name, else to its default; with what is left of the
/// named arguments. A parameter with neither is an error.
pub open spec fn bind_from(
    program: &Program,
    signature: Seq<(String, Option<usize>)>,
    i: int,
    nargs: Seq<(Seq<char>, ValueModel)>,
    stack: Seq<CaptureModel>,
    stack_start: int,
) -> Result<(Seq<CaptureModel>, Seq<(Seq<char>, ValueModel)>), Seq<char>>
    decreases signature.len() - i,
{
    if i < 0 || i >= signature.len() {
        Ok((stack, nargs))
    } else {
        let name = signature[i].0@;
        match dict_get(nargs, name) {
            Some(value) => bind_from(
                program,
                signature,
                i + 1,
                dict_remove(nargs, name),
                stack.update(stack_start + i, CaptureModel::Value(value, 10)),
                stack_start,
            ),
            None => match signature[i].1 {
                Some(addr) => if addr < program.statics.len() {
                    bind_from(
                        program,
                        signature,
                        i + 1,
                        nargs,
                        stack.update(
                            stack_start + i,
                            CaptureModel::Value(static_value(program, addr as int), 10),
                        ),
                        stack_start,
                    )
                } else {
                    Err("Invalid default of argument '"@ + name + "'"@)
                },
                None => Err("Expected argument '"@ + name + "'"@),
            },
        }
    }
}

/// The named arguments of a call as a dictionary; none is the empty one.
pub open spec fn nargs_of(nargs: Option<Seq<(Seq<char>, ValueModel)>>) -> Seq<(Seq<char>, ValueModel)> {
    match nargs {
        Some(dict) => dict,
        None => Seq::empty(),
    }
}

/// Runs an operation.
pub open spec fn op_eval(
    program: &Program,
    op: &Op,
    ctx: Context,
    input: Seq<char>,
    st: State,
    depth: nat,
) -> Run
    decreases depth, 1nat, op, 0nat,
{
    match op {
        Op::Nop => (st, Ok(AcceptModel::Next)),
        Op::Peek(inner) => {
            let run = op_eval(program, inner, ctx, input, st, depth);
            (moved(run.0, input, st.pos), run.1)
        },
        Op::Not(inner) => {
            let run = op_eval(program, inner, ctx, input, st, depth);
            let back = restored(run.0, input, st.stack.len() as usize, st.pos);
            if run.1 is Ok {
                (back, Err(RejectModel::Next))
            } else {
                (back, Ok(AcceptModel::Next))
            }
        },
        Op::Expect(inner) => {
            let run = op_eval(program, inner, ctx, input, st, depth);
            match run.1 {
                Err(RejectModel::Next) => (
                    run.0,
                    failure(input, run.0, "Expecting "@ + described(inner)),
                ),
                _ => run,
            }
        },
        Op::Repeat(repeat) => repeat_eval(
            program,
            repeat,
            ctx,
            input,
            st,
            st.stack.len() as usize,
            st.pos,
            0,
            depth,
        ),
        Op::Sequence(sequence) => if sequence.items.len() == 0 {
            (st, Ok(AcceptModel::Next))
        } else {
            sequence_eval(program, sequence, 0, ctx, input, st, st.stack.len() as usize, st.pos, depth)
        },
        Op::Block(block) => block_eval(program, block, ctx, input, st, depth),
        Op::TryCall => if !can_pop(ctx, st) {
            (st, failure(input, st, "Stack underflow"@))
        } else {
            let value = value_of(st.stack.last(), input);
            let st1 = popped(st);
            match callee_of(program, value) {
                Some(target) => if needs_no_arguments(&program.statics[target as int]->Parselet_0) {
                    invoke(program, Some(target), 0, None, input, st1, depth)
                } else {
                    (st1, push_value(value, 1))
                },
                None => (st1, push_value(value, 1)),
            }
        },
        Op::Call => if !can_pop(ctx, st) {
            (st, failure(input, st, "Stack underflow"@))
        } else {
            let value = value_of(st.stack.last(), input);
            invoke(program, callee_of(program, value), 0, None, input, popped(st), depth)
        },
        Op::CallStatic(addr) => invoke(program, static_callee(program, *addr), 0, None, input, st, depth),
        Op::CallStaticArg(addr, argc) => if st.stack.len() - ctx.capture_start < *argc {
            (st, failure(input, st, "Stack underflow"@))
        } else {
            invoke(program, static_callee(program, *addr), *argc, None, input, st, depth)
        },
        Op::CallStaticArgNamed(addr, argc) => if !can_pop(ctx, st) {
            (st, failure(input, st, "Stack underflow"@))
        } else {
            let top = value_of(st.stack.last(), input);
            let st1 = popped(st);
            match top {
                ValueModel::Dict(nargs) => if st1.stack.len() - ctx.capture_start < *argc {
                    (st1, failure(input, st1, "Stack underflow"@))
                } else {
                    invoke(program, static_callee(program, *addr), *argc, Some(nargs), input, st1, depth)
                },
                _ => (st1, failure(input, st1, "Named arguments are no dictionary"@)),
            }
        },
        _ => plain_eval(program, op, ctx, input, st),
    }
}

/// Rounds of a repetition, from round `count` on.
///
/// A round that fails locally ends the loop; any other failure puts the frame
/// back and is handed up. A pushed capture goes on the stack unless the
/// repetition is silent. Any other success than going on or pushing leaves
/// at once. After `max` rounds the loop ends. With fewer than `min` rounds
/// the repetition fails locally; else it gives what its frame collects.
pub open spec fn repeat_eval(
    program: &Program,
    repeat: &Repeat,
    ctx: Context,
    input: Seq<char>,
    st: State,
    stack_len: usize,
    pos: usize,
    count: nat,
    depth: nat,
) -> Run
    decreases depth, 1nat, repeat, 0nat,
{
    let run = op_eval(program, &repeat.parser, ctx, input, st, depth);
    match run.1 {
        Err(RejectModel::Next) => repeat_end(repeat, input, run.0, stack_len, pos, count),
        Err(reject) => (restored(run.0, input, stack_len, pos), Err(reject)),
        Ok(AcceptModel::Next) | Ok(AcceptModel::Push(_)) => {
            let st1 = match run.1 {
                Ok(AcceptModel::Push(capture)) => if repeat.silent {
                    run.0
                } else {
                    pushed(run.0, capture)
                },
                _ => run.0,
            };
            if repeat.max > 0 && count + 1 == repeat.max {
                repeat_end(repeat, input, st1, stack_len, pos, count + 1)
            } else if depth == 0 {
                (
                    restored(st1, input, stack_len, pos),
                    failure(input, restored(st1, input, stack_len, pos), "Recursion limit reached"@),
                )
            } else {
                repeat_eval(
                    program,
                    repeat,
                    ctx,
                    input,
                    st1,
                    stack_len,
                    pos,
                    count + 1,
                    (depth - 1) as nat,
                )
            }
        },
        Ok(accept) => (run.0, Ok(accept)),
    }
}

/// The end of a repetition after `count` rounds.
pub open spec fn repeat_end(
    repeat: &Repeat,
    input: Seq<char>,
    st: State,
    stack_len: usize,
    pos: usize,
    count: nat,
) -> Run {
    if count < repeat.min {
        (restored(st, input, stack_len, pos), Err(RejectModel::Next))
    } else {
        frame_result(input, st, stack_len, pos, false)
    }
}

/// The items of a sequence from item `i` on.
///
/// A failing item puts the frame back and is handed up. An item that goes on
/// leaves a placeholder on the stack, one that pushes its capture; under the
/// item's alias where it has one. Any other success leaves at once. After
/// the last item the sequence gives what its frame collects, a single
/// capture as it is.
pub open spec fn sequence_eval(
    program: &Program,
    sequence: &Sequence,
    i: int,
    ctx: Context,
    input: Seq<char>,
    st: State,
    stack_len: usize,
    pos: usize,
    depth: nat,
) -> Run
    decreases depth, 1nat, sequence, sequence.items.len() - i,
{
    if i < 0 || i >= sequence.items.len() {
        frame_result(input, st, stack_len, pos, true)
    } else {
        let run = op_eval(program, &sequence.items[i].0, ctx, input, st, depth);
        match run.1 {
            Err(reject) => (restored(run.0, input, stack_len, pos), Err(reject)),
            Ok(AcceptModel::Next) => sequence_eval(
                program,
                sequence,
                i + 1,
                ctx,
                input,
                pushed(run.0, aliased(CaptureModel::Empty, sequence.items[i].1)),
                stack_len,
                pos,
                depth,
            ),
            Ok(AcceptModel::Push(capture)) => sequence_eval(
                program,
                sequence,
                i + 1,
                ctx,
                input,
                pushed(run.0, aliased(capture, sequence.items[i].1)),
                stack_len,
                pos,
                depth,
            ),
            Ok(accept) => (run.0, Ok(accept)),
        }
    }
}

/// The alternatives of a block from alternative `i` on, of those that are
/// left-recursive (`mode`) or of those that are not.
///
/// Every alternative is tried with the reader at `pos`, where the block
/// began. An alternative that fails locally or goes on gives way to the
/// next, and so does one that pushes a capture without reading anything. Any
/// other outcome is the block's. After the last alternative the outcome of
/// the last one that ran is the block's, with the state it left.
pub open spec fn alternatives_eval(
    program: &Program,
    block: &Block,
    i: int,
    mode: bool,
    ctx: Context,
    input: Seq<char>,
    st: State,
    pos: usize,
    last: Outcome,
    depth: nat,
) -> Run
    decreases depth, 1nat, block, block.items.len() - i,
{
    if i < 0 || i >= block.items.len() {
        (st, last)
    } else if block.items[i].1 != mode {
        alternatives_eval(program, block, i + 1, mode, ctx, input, st, pos, last, depth)
    } else {
        let run = op_eval(program, &block.items[i].0, ctx, input, moved(st, input, pos), depth);
        if gives_way(run, pos) {
            alternatives_eval(program, block, i + 1, mode, ctx, input, run.0, pos, run.1, depth)
        } else {
            run
        }
    }
}

/// Whether an alternative with this run gives way to the next one.
pub open spec fn gives_way(run: Run, pos: usize) -> bool {
    match run.1 {
        Ok(AcceptModel::Next) | Err(RejectModel::Next) => true,
        Ok(AcceptModel::Push(_)) => run.0.pos == pos,
        _ => false,
    }
}

/// Runs a block.
///
/// A memo record of the block at this position is the answer: the reader
/// moves to the recorded end and the recorded outcome is given. A block that
/// is not left-recursive tries its alternatives. A left-recursive one
/// records a seed and grows it.
pub open spec fn block_eval(
    program: &Program,
    block: &Block,
    ctx: Context,
    input: Seq<char>,
    st: State,
    depth: nat,
) -> Run
    decreases depth, 1nat, block, block.items.len() + 2,
{
    let key = (st.pos, block.id);
    if st.memo.contains_key(key) {
        (moved(st, input, st.memo[key].0), st.memo[key].1)
    } else if block.leftrec {
        let grown = grow_eval(
            program,
            block,
            ctx,
            input,
            State { memo: st.memo.insert(key, (st.pos, seed_of(block))), ..st },
            st.stack.len() as usize,
            st.pos,
            st.pos,
            seed_of(block),
            0,
            depth,
        );
        (grown.0, grown.1)
    } else {
        alternatives_eval(program, block, 0, false, ctx, input, st, st.pos, Ok(AcceptModel::Next), depth)
    }
}

/// What a left-recursive block records before it runs: a local failure, or
/// going on where every alternative is left-recursive.
pub open spec fn seed_of(block: &Block) -> Outcome {
    if block.all_leftrec {
        Ok(AcceptModel::Next)
    } else {
        Err(RejectModel::Next)
    }
}

/// The rounds of growing a left-recursive block from round `loops` on; the
/// third part of the result is the number of rounds that were committed.
///
/// The first round runs the alternatives that are not left-recursive, the
/// later ones those that are. A hard failure is handed up, and so is any
/// failure of the first round. A later failure, or a success that does not
/// end beyond the best end so far, ends the growing: the reader moves to the
/// best end and the best outcome is given. Any other success is committed:
/// it is recorded in the memo table as the best, and reader and stack are
/// put back for the next round.
pub open spec fn grow_eval(
    program: &Program,
    block: &Block,
    ctx: Context,
    input: Seq<char>,
    st: State,
    stack_len: usize,
    pos: usize,
    end: usize,
    best: Outcome,
    loops: nat,
    depth: nat,
) -> (State, Outcome, nat)
    decreases depth, 1nat, block, block.items.len() + 1,
{
    let run = alternatives_eval(
        program,
        block,
        0,
        block.all_leftrec || loops > 0,
        ctx,
        input,
        st,
        pos,
        Ok(AcceptModel::Next),
        depth,
    );
    let settled = (restored(run.0, input, stack_len, end), best, loops);
    match run.1 {
        Err(RejectModel::Main) | Err(RejectModel::Error(_)) => (run.0, run.1, loops),
        Err(_) => if loops == 0 {
            (run.0, run.1, loops)
        } else {
            settled
        },
        Ok(_) => if run.0.pos <= end {
            settled
        } else if depth == 0 {
            (
                restored(run.0, input, stack_len, pos),
                failure(input, restored(run.0, input, stack_len, pos), "Recursion limit reached"@),
                loops,
            )
        } else {
            grow_eval(
                program,
                block,
                ctx,
                input,
                State {
                    memo: run.0.memo.insert((pos, block.id), (run.0.pos, run.1)),
                    ..restored(run.0, input, stack_len, pos)
                },
                stack_len,
                pos,
                run.0.pos,
                run.1,
                loops + 1,
                (depth - 1) as nat,
            )
        },
    }
}

/// Calls the parselet at `target`, with the top `argc` values of the stack
/// as its arguments. A call takes one from the budget.
pub open spec fn invoke(
    program: &Program,
    target: Option<usize>,
    argc: usize,
    nargs: Option<Seq<(Seq<char>, ValueModel)>>,
    input: Seq<char>,
    st: State,
    depth: nat,
) -> Run
    decreases depth, 0nat,
{
    match target {
        Some(addr) => if addr < program.statics.len() && program.statics[addr as int] is Parselet {
            if depth == 0 {
                (st, failure(input, st, "Recursion limit reached"@))
            } else {
                parselet_eval(
                    program,
                    &program.statics[addr as int]->Parselet_0,
                    argc,
                    nargs,
                    false,
                    input,
                    st,
                    (depth - 1) as nat,
                )
            }
        } else {
            (st, failure(input, st, "Value cannot be called"@))
        },
        None => (st, failure(input, st, "Value cannot be called"@)),
    }
}

/// The frame of a call of `parselet` on a stack of this length.
pub open spec fn frame_of(parselet: &Parselet, stack_len: nat, argc: usize, pos: usize) -> Context {
    Context {
        stack_start: (stack_len - argc) as usize,
        capture_start: (stack_len - argc + parselet.locals + 1) as usize,
        reader_start: pos,
    }
}

/// Runs a parselet.
///
/// The frame begins below the arguments. Its local slots and one more are
/// reserved, the parameters that got no argument are bound, `begin` runs,
/// then the body in a loop, then `end`. However the parselet ends, its frame
/// is taken off the stack.
pub open spec fn parselet_eval(
    program: &Program,
    parselet: &Parselet,
    argc: usize,
    nargs: Option<Seq<(Seq<char>, ValueModel)>>,
    main: bool,
    input: Seq<char>,
    st: State,
    depth: nat,
) -> Run
    decreases depth, 4nat,
{
    if argc > st.stack.len() {
        (st, failure(input, st, "Stack underflow"@))
    } else {
        let ctx = frame_of(parselet, st.stack.len(), argc, st.pos);
        if argc > parselet.signature.len() {
            done(ctx, input, st, failure(input, st, "Too many arguments"@))
        } else if parselet.signature.len() > parselet.locals {
            done(ctx, input, st, failure(input, st, "Signature is longer than the locals"@))
        } else if st.stack.len() - argc + parselet.locals + 1 > usize::MAX {
            done(ctx, input, st, failure(input, st, "Stack overflow"@))
        } else {
            let reserved = st.stack + Seq::new(
                (parselet.locals + 1 - argc) as nat,
                |i: int| CaptureModel::Empty,
            );
            match bind_from(
                program,
                parselet.signature@,
                argc as int,
                nargs_of(nargs),
                reserved,
                ctx.stack_start as int,
            ) {
                Err(message) => done(
                    ctx,
                    input,
                    State { stack: reserved, ..st },
                    failure(input, st, message),
                ),
                Ok((bound, rest)) => if rest.len() > 0 {
                    done(
                        ctx,
                        input,
                        State { stack: bound, ..st },
                        failure(input, st, "Unexpected named argument '"@ + rest[0].0 + "'"@),
                    )
                } else {
                    let st1 = State { stack: bound, ..st };
                    if parselet.begin is Nop {
                        body_eval(program, parselet, ctx, main, input, st1, Seq::empty(), depth)
                    } else {
                        let run = op_eval(program, &parselet.begin, ctx, input, st1, depth);
                        match step_of(
                            parselet.silent,
                            parselet.severity,
                            main,
                            false,
                            normalised(main, run.1, input),
                        ) {
                            Step::Return(out) => done(ctx, input, run.0, out),
                            Step::Continue(value) => body_eval(
                                program,
                                parselet,
                                ctx,
                                main,
                                input,
                                run.0,
                                with_result(Seq::empty(), value),
                                depth,
                            ),
                            Step::Backtrack => body_eval(
                                program,
                                parselet,
                                ctx,
                                main,
                                input,
                                run.0,
                                Seq::empty(),
                                depth,
                            ),
                        }
                    }
                },
            }
        }
    }
}

/// The rounds of a parselet's loop.
///
/// Each round runs the body. In main mode a failure skips one character, and
/// so does a round that read nothing. The loop ends with the input.
pub open spec fn body_eval(
    program: &Program,
    parselet: &Parselet,
    ctx: Context,
    main: bool,
    input: Seq<char>,
    st: State,
    results: Seq<ValueModel>,
    depth: nat,
) -> Run
    decreases depth, 3nat,
{
    let run = op_eval(program, &parselet.body, ctx, input, st, depth);
    match step_of(
        parselet.silent,
        parselet.severity,
        main,
        results.len() > 0,
        normalised(main, run.1, input),
    ) {
        Step::Return(out) => done(ctx, input, run.0, out),
        step => {
            let st1 = if step is Backtrack || (main && run.1 is Ok && run.0.pos == st.pos) {
                advanced(run.0, input)
            } else {
                run.0
            };
            let gathered = match step {
                Step::Continue(value) => with_result(results, value),
                _ => results,
            };
            if st1.pos >= input.len() {
                end_eval(program, parselet, ctx, main, input, st1, gathered, depth)
            } else if depth == 0 {
                done(ctx, input, st1, failure(input, st1, "Recursion limit reached"@))
            } else {
                body_eval(program, parselet, ctx, main, input, st1, gathered, (depth - 1) as nat)
            }
        },
    }
}

/// The end of a parselet: `end` runs, and the results are given.
pub open spec fn end_eval(
    program: &Program,
    parselet: &Parselet,
    ctx: Context,
    main: bool,
    input: Seq<char>,
    st: State,
    results: Seq<ValueModel>,
    depth: nat,
) -> Run
    decreases depth, 2nat,
{
    if parselet.end is Nop {
        done(ctx, input, st, finished(parselet.severity, results))
    } else {
        let run = op_eval(program, &parselet.end, ctx, input, st, depth);
        match step_of(
            parselet.silent,
            parselet.severity,
            main,
            results.len() > 0,
            normalised(main, run.1, input),
        ) {
            Step::Return(out) => done(ctx, input, run.0, out),
            Step::Continue(value) => done(
                ctx,
                input,
                run.0,
                finished(parselet.severity, with_result(results, value)),
            ),
            Step::Backtrack => done(ctx, input, run.0, finished(parselet.severity, results)),
        }
    }
}

/// Whether an operation takes nothing off the stack that it did not put
/// there: it holds no operation that pops, calls with arguments or collects
/// the captures of the whole frame.
pub open spec fn pop_free(op: &Op) -> bool
    decreases op,
{
    match op {
        Op::Peek(inner) | Op::Not(inner) | Op::Expect(inner) => pop_free(inner),
        Op::Repeat(repeat) => pop_free(&repeat.parser),
        Op::Sequence(sequence) => forall|i: int|
            0 <= i < sequence.items.len() ==> pop_free(&(#[trigger] sequence.items[i]).0),
        Op::Block(block) => forall|i: int|
            0 <= i < block.items.len() ==> pop_free(&(#[trigger] block.items[i]).0),
        Op::CallStaticArg(_, argc) => *argc == 0,
        Op::TryCall | Op::Call | Op::CallStaticArgNamed(_, _) | Op::Create(_) | Op::LoadAccept
        | Op::StoreGlobal(_) | Op::StoreFast(_) | Op::LoadCapture | Op::StoreFastCapture(_)
        | Op::StoreCapture | Op::Add | Op::Sub | Op::Mul | Op::Div => false,
        _ => true,
    }
}

/// Whether an outcome lets the caller go on in place: a failure, going on, or a pushed capture.
pub open spec fn settles(out: Outcome) -> bool {
    match out {
        Err(_) => true,
        Ok(AcceptModel::Next) => true,
        Ok(AcceptModel::Push(_)) => true,
        _ => false,
    }
}

/// Every record of `before` stands unchanged in `after`.
pub open spec fn frozen(before: MemoModel, after: MemoModel) -> bool {
    forall|key: (usize, usize)| #[trigger]
        before.contains_key(key) ==> after.contains_key(key) && after[key] == before[key]
}

/// A recorded failure ends where it began.
pub open spec fn memo_wf(memo: MemoModel) -> bool {
    forall|key: (usize, usize)| #[trigger]
        memo.contains_key(key) && memo[key].1 is Err ==> memo[key].0 == key.0
}

/// What holds of every run of an operation, whatever the operation.
///
/// The stack still reaches the captures of the frame. A failure leaves the
/// reader where it was and the stack no longer than it was; an operation
/// that is `free` leaves the stack exactly as long as it was whenever its
/// outcome settles, and never shorter. No record that the memo table held
/// before the run has changed.
pub open spec fn lawful(free: bool, ctx: Context, before: State, after: State, out: Outcome) -> bool {
    &&& ctx.capture_start <= after.stack.len()
    &&& (out is Err ==> after.pos == before.pos)
    &&& (settles(out) ==> after.stack.len() <= before.stack.len())
    &&& (free ==> after.stack.len() >= before.stack.len())
    &&& frozen(before.memo, after.memo)
    &&& memo_wf(after.memo)
}

/// The named arguments of a call, as mathematics.
pub open spec fn nargs_model(nargs: Option<Dict>) -> Option<Seq<(Seq<char>, ValueModel)>> {
    match nargs {
        Some(dict) => Some(dict@),
        None => None,
    }
}

/// The items of a sequence that takes nothing off the stack take nothing off it.
pub proof fn lemma_sequence_free(sequence: Sequence, k: int)
    requires
        pop_free(&Op::Sequence(sequence)),
        0 <= k < sequence.items.len(),
    ensures
        pop_free(&sequence.items[k].0),
{
    reveal_with_fuel(pop_free, 2);
    let op = Op::Sequence(sequence);
    assert(op->Sequence_0.items[k] == sequence.items[k]);
}

/// The alternatives of a block that takes nothing off the stack take nothing off it.
pub proof fn lemma_block_free(block: Block, k: int)
    requires
        pop_free(&Op::Block(block)),
        0 <= k < block.items.len(),
    ensures
        pop_free(&block.items[k].0),
{
    reveal_with_fuel(pop_free, 2);
    let op = Op::Block(block);
    assert(op->Block_0.items[k] == block.items[k]);
}

/// After a peek and after a not the reader stands where it stood, whatever
/// the operation inside gave.
pub proof fn lemma_peek_not_restore(
    program: &Program,
    op: &Op,
    ctx: Context,
    input: Seq<char>,
    st: State,
    depth: nat,
)
    requires
        op is Peek || op is Not,
        st.pos <= input.len(),
    ensures
        op_eval(program, op, ctx, input, st, depth).0.pos == st.pos,
{
}

/// A frame whose captures are all placeholders gives the span it read, at
/// severity 0, where the reader has moved on, and nothing where it has not.
pub proof fn lemma_silent_frame(input: Seq<char>, st: State, stack_len: usize, pos: usize, single: bool)
    requires
        forall|i: int| stack_len <= i < st.stack.len() ==> st.stack[i] is Empty,
    ensures
        frame_result(input, st, stack_len, pos, single).1 == (if pos < st.pos {
            Ok::<AcceptModel, RejectModel>(
                AcceptModel::Push(CaptureModel::Range(range_from(pos, st.pos), 0)),
            )
        } else {
            Ok::<AcceptModel, RejectModel>(AcceptModel::Next)
        }),
{
    crate::collect::lemma_collect_placeholders(tail_from(st.stack, stack_len), input, single);
}

} // verus!
