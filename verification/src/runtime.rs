//! The runtime of one parse, and the frame of one parselet call over it.

use vstd::prelude::*;
use vstd::string::*;

use crate::capture::{capture_models, value_of, Capture, CaptureModel};
use crate::collect::{
    assembled, collected, cut_to, lemma_positional_above, max_severity, named, numbered,
    positional, present, tail_from,
};
use crate::memo::{Memo, MemoModel};
use crate::reader::{slice_of, Range, Reader};
use crate::text::decimal_string;
use crate::value::{group_value_models, Dict, List, Value, ValueModel};

verus! {

/// What one parse owns: the reader, the capture stack and the memo table.
pub struct Runtime {
    pub reader: Reader,
    pub stack: Vec<Capture>,
    pub memo: Memo,
    /// The budget of calls and further rounds that a run of a program starts with.
    pub limit: usize,
}

/// The state of a runtime as mathematics. The input is not part of it: no run changes it.
pub struct State {
    pub pos: usize,
    pub stack: Seq<CaptureModel>,
    pub memo: MemoModel,
}

impl View for Runtime {
    type V = State;

    open spec fn view(&self) -> State {
        State { pos: self.reader.pos(), stack: capture_models(self.stack@), memo: self.memo@ }
    }
}

impl Runtime {
    /// The reader is well-formed.
    pub open spec fn wf(&self) -> bool {
        self.reader.wf()
    }

    /// The input that is parsed.
    pub open spec fn input(&self) -> Seq<char> {
        self.reader.input()
    }

    /// Puts `capture` on the stack.
    pub fn push(&mut self, capture: Capture)
        ensures
            final(self).reader == old(self).reader,
            final(self).memo == old(self).memo,
            final(self)@ == pushed(old(self)@, capture@),
    {
        let ghost before = self.stack@;
        self.stack.push(capture);
        proof {
            lemma_models_push(before, capture);
        }
    }

    /// Puts `capture` in the place of the entry at `index`.
    pub fn set(&mut self, index: usize, capture: Capture)
        requires
            index < old(self).stack.len(),
        ensures
            final(self).reader == old(self).reader,
            final(self).memo == old(self).memo,
            final(self)@ == (State {
                stack: old(self)@.stack.update(index as int, capture@),
                ..old(self)@
            }),
    {
        self.stack.set(index, capture);
        assert(capture_models(self.stack@) =~= old(self)@.stack.update(index as int, capture@));
    }

    /// Cuts the stack down to `len` entries.
    pub fn truncate(&mut self, len: usize)
        ensures
            final(self).reader == old(self).reader,
            final(self).memo == old(self).memo,
            final(self)@ == truncated(old(self)@, len),
    {
        self.stack.truncate(len);
        assert(capture_models(self.stack@) =~= cut_to(old(self)@.stack, len));
    }

    /// Moves the reader to `pos`.
    pub fn seek(&mut self, pos: usize)
        requires
            old(self).wf(),
        ensures
            final(self).wf(),
            final(self).input() == old(self).input(),
            final(self).stack == old(self).stack,
            final(self).memo == old(self).memo,
            final(self)@ == moved(old(self)@, old(self).input(), pos),
    {
        self.reader.reset(pos);
    }

    /// Moves the reader one character on, unless the input has ended.
    pub fn advance(&mut self)
        requires
            old(self).wf(),
        ensures
            final(self).wf(),
            final(self).input() == old(self).input(),
            final(self).stack == old(self).stack,
            final(self).memo == old(self).memo,
            final(self)@ == (State {
                pos: if old(self)@.pos < old(self).input().len() {
                    (old(self)@.pos + 1) as usize
                } else {
                    old(self)@.pos
                },
                ..old(self)@
            }),
    {
        self.reader.next();
    }

    /// Puts reader and stack back to where a frame began.
    pub fn restore(&mut self, stack_len: usize, pos: usize)
        requires
            old(self).wf(),
        ensures
            final(self).wf(),
            final(self).input() == old(self).input(),
            final(self).memo == old(self).memo,
            final(self)@ == truncated(moved(old(self)@, old(self).input(), pos), stack_len),
    {
        self.reader.reset(pos);
        self.truncate(stack_len);
    }

    /// A runtime over `reader`, with an empty stack and an empty memo table.
    pub fn new(reader: Reader) -> (runtime: Runtime)
        requires
            reader.wf(),
        ensures
            runtime.wf(),
            runtime.input() == reader.input(),
            runtime@.pos == reader.pos(),
            runtime@.stack == Seq::<CaptureModel>::empty(),
            runtime@.memo == Map::<(usize, usize), (usize, crate::capture::Outcome)>::empty(),
            runtime.limit == usize::MAX,
    {
        let runtime = Runtime { reader, stack: Vec::new(), memo: Memo::new(), limit: usize::MAX };
        assert(runtime@.stack =~= Seq::<CaptureModel>::empty());
        runtime
    }
}

/// The frame of one parselet call: where its window of the stack begins,
/// where its captures begin, and where the reader stood when it was entered.
#[derive(Clone, Copy, Debug, PartialEq, Eq, Structural)]
pub struct Context {
    pub stack_start: usize,
    pub capture_start: usize,
    pub reader_start: usize,
}

/// The state with one more capture on the stack.
pub open spec fn pushed(st: State, capture: CaptureModel) -> State {
    State { stack: st.stack.push(capture), ..st }
}

/// The state with the stack cut down to `len` entries.
pub open spec fn truncated(st: State, len: usize) -> State {
    State { stack: cut_to(st.stack, len), ..st }
}

/// The state with the reader at `pos`, or at the end of the input where `pos` lies beyond it.
pub open spec fn moved(st: State, input: Seq<char>, pos: usize) -> State {
    State { pos: crate::reader::clamp(input, pos), ..st }
}

/// The capture at position `pos` of the frame, as a value. Position 0 is the
/// capture at the frame's start where that is a value, else the text read
/// since the frame was entered.
pub open spec fn capture_at(ctx: Context, input: Seq<char>, st: State, pos: usize) -> Option<
    ValueModel,
> {
    if ctx.capture_start + pos >= st.stack.len() {
        None
    } else if pos == 0 {
        match st.stack[ctx.capture_start as int] {
            CaptureModel::Value(value, _) => Some(value),
            _ => Some(
                ValueModel::Str(slice_of(input, Range { start: ctx.reader_start, end: st.pos })),
            ),
        }
    } else {
        Some(value_of(st.stack[ctx.capture_start + pos], input))
    }
}

/// The index of the first capture at or after `from` that is named `name`, or
/// the length of the stack where there is none.
pub open spec fn named_from(stack: Seq<CaptureModel>, name: Seq<char>, from: int) -> int
    decreases stack.len() - from,
{
    if from < 0 || from >= stack.len() {
        stack.len() as int
    } else {
        match stack[from] {
            CaptureModel::Named(_, alias) => if alias == name {
                from
            } else {
                named_from(stack, name, from + 1)
            },
            _ => named_from(stack, name, from + 1),
        }
    }
}

/// The value of the first capture of the frame that is named `name`.
pub open spec fn capture_named(ctx: Context, input: Seq<char>, st: State, name: Seq<char>) -> Option<
    ValueModel,
> {
    let i = named_from(st.stack, name, ctx.capture_start as int);
    if i < st.stack.len() {
        Some(value_of(st.stack[i], input))
    } else {
        None
    }
}

/// The stack with `value` as the capture at position `pos` of the frame, at
/// severity 5; unchanged where the frame has no such position.
pub open spec fn with_capture(ctx: Context, stack: Seq<CaptureModel>, pos: usize, value: ValueModel) -> Seq<
    CaptureModel,
> {
    if ctx.capture_start + pos >= stack.len() {
        stack
    } else {
        stack.update(ctx.capture_start + pos, CaptureModel::Value(value, 5))
    }
}

/// The stack with `value`, at severity 5, as what the first capture of the
/// frame named `name` names; unchanged where no capture has the name.
pub open spec fn with_named(ctx: Context, stack: Seq<CaptureModel>, name: Seq<char>, value: ValueModel) -> Seq<
    CaptureModel,
> {
    let i = named_from(stack, name, ctx.capture_start as int);
    if i < stack.len() {
        stack.update(i, CaptureModel::Named(Box::new(CaptureModel::Value(value, 5)), name))
    } else {
        stack
    }
}

proof fn lemma_models_push(stack: Seq<Capture>, capture: Capture)
    ensures
        capture_models(stack.push(capture)) == capture_models(stack).push(capture@),
{
    assert(capture_models(stack.push(capture)) =~= capture_models(stack).push(capture@));
}

/// The captures of `tail` that are no placeholders.
fn take_present(tail: Vec<Capture>) -> (items: Vec<Capture>)
    ensures
        capture_models(items@) == present(capture_models(tail@)),
{
    let mut items: Vec<Capture> = Vec::new();
    let ghost all = tail@;
    let ghost mut seen: Seq<Capture> = Seq::empty();
    for capture in it: tail
        invariant
            it.seq() == all,
            seen == it.history(),
            capture_models(items@) == present(capture_models(seen)),
    {
        proof {
            lemma_models_push(seen, capture);
            lemma_models_push(items@, capture);
            assert(capture_models(seen).push(capture@).drop_last() =~= capture_models(seen));
            seen = seen.push(capture);
        }
        match capture {
            Capture::Empty => {},
            other => {
                items.push(other);
            },
        }
    }
    assert(seen =~= all);
    items
}

/// Copies of the captures of `stack` from `start` on.
fn copy_tail(stack: &Vec<Capture>, start: usize) -> (tail: Vec<Capture>)
    requires
        start <= stack.len(),
    ensures
        capture_models(tail@) == tail_from(capture_models(stack@), start),
{
    let mut tail: Vec<Capture> = Vec::new();
    let mut i: usize = start;
    while i < stack.len()
        invariant
            start <= i <= stack.len(),
            tail@.len() == i - start,
            forall|k: int| 0 <= k < i - start ==> (#[trigger] tail@[k])@ == stack@[start + k]@,
        decreases stack.len() - i,
    {
        tail.push(stack[i].clone());
        i = i + 1;
    }
    assert(capture_models(tail@) =~= tail_from(capture_models(stack@), start));
    tail
}

/// The capture that the list of positional values and the dictionary of named ones make.
fn assemble(list: List, dict: Dict) -> (capture: Option<Capture>)
    ensures
        match capture {
            Some(c) => assembled(list@, dict@) == Some(c@),
            None => assembled(list@, dict@) is None,
        },
{
    broadcast use group_value_models;

    let mut list = list;
    let mut dict = dict;
    if dict.len() == 0 {
        if list.len() > 1 {
            Some(Capture::Value(Value::List(list), 5))
        } else if list.len() == 1 {
            let only = list.items.pop().unwrap();
            Some(Capture::Value(only, 5))
        } else {
            None
        }
    } else {
        let ghost first = dict@;
        let ghost values = list@;
        let mut i: usize = 0;
        while i < list.items.len()
            invariant
                i <= list.items.len(),
                list@ == values,
                dict@ == numbered(first, values, i as nat),
            decreases list.items.len() - i,
        {
            let item = list.items[i].clone();
            dict.insert(decimal_string(i), item);
            i = i + 1;
        }
        if dict.len() == 1 {
            let only = dict.entries.pop().unwrap();
            Some(Capture::Value(only.1, 5))
        } else {
            Some(Capture::Value(Value::Dict(dict), 5))
        }
    }
}

impl Context {
    /// The stack reaches the frame's captures, which begin no earlier than the frame.
    pub open spec fn wf(&self, st: State) -> bool {
        self.stack_start <= self.capture_start <= st.stack.len()
    }

    /// Enters a frame on top of the stack: `preserve` slots for local
    /// variables and one more are reserved as placeholders, and the captures
    /// begin after them.
    pub fn new(runtime: &mut Runtime, preserve: usize) -> (context: Context)
        requires
            old(runtime).wf(),
            old(runtime).stack.len() + preserve + 1 <= usize::MAX,
        ensures
            final(runtime).wf(),
            final(runtime).input() == old(runtime).input(),
            final(runtime)@ == (State {
                stack: old(runtime)@.stack + Seq::new(
                    (preserve + 1) as nat,
                    |i: int| CaptureModel::Empty,
                ),
                ..old(runtime)@
            }),
            context == (Context {
                stack_start: old(runtime).stack.len(),
                capture_start: (old(runtime).stack.len() + preserve + 1) as usize,
                reader_start: old(runtime)@.pos,
            }),
            context.wf(final(runtime)@),
    {
        let stack_start = runtime.stack.len();
        let capture_start = stack_start + preserve + 1;
        while runtime.stack.len() < capture_start
            invariant
                stack_start <= runtime.stack.len() <= capture_start,
                runtime.reader == old(runtime).reader,
                runtime.memo == old(runtime).memo,
                capture_models(runtime.stack@) == old(runtime)@.stack + Seq::new(
                    (runtime.stack.len() - stack_start) as nat,
                    |i: int| CaptureModel::Empty,
                ),
            decreases capture_start - runtime.stack.len(),
        {
            let ghost before = runtime.stack@;
            runtime.stack.push(Capture::Empty);
            proof {
                lemma_models_push(before, Capture::Empty);
                assert(capture_models(runtime.stack@) =~= old(runtime)@.stack + Seq::new(
                    (runtime.stack.len() - stack_start) as nat,
                    |i: int| CaptureModel::Empty,
                ));
            }
        }
        Context { stack_start, capture_start, reader_start: runtime.reader.position() }
    }

    /// Leaves the frame: the stack is cut back to where the frame began.
    pub fn close(&self, runtime: &mut Runtime)
        ensures
            final(runtime).reader == old(runtime).reader,
            final(runtime).memo == old(runtime).memo,
            final(runtime)@ == truncated(old(runtime)@, self.stack_start),
    {
        runtime.stack.truncate(self.stack_start);
        assert(capture_models(runtime.stack@) =~= cut_to(old(runtime)@.stack, self.stack_start));
    }

    /// Pushes `value` as a capture of severity 10.
    pub fn push(&self, runtime: &mut Runtime, value: Value)
        ensures
            final(runtime).reader == old(runtime).reader,
            final(runtime).memo == old(runtime).memo,
            final(runtime)@ == pushed(old(runtime)@, CaptureModel::Value(value@, 10)),
    {
        let ghost before = runtime.stack@;
        runtime.stack.push(Capture::Value(value, 10));
        proof {
            lemma_models_push(before, Capture::Value(value, 10));
        }
    }

    /// Takes the top capture of the frame off the stack and returns its
    /// value. A frame without captures has nothing to take.
    pub fn pop(&self, runtime: &mut Runtime) -> (value: Option<Value>)
        requires
            old(runtime).wf(),
        ensures
            final(runtime).reader == old(runtime).reader,
            final(runtime).memo == old(runtime).memo,
            old(runtime).stack.len() > self.capture_start ==> final(runtime)@.stack == old(
                runtime,
            )@.stack.drop_last() && value is Some && value->0@ == value_of(
                old(runtime)@.stack.last(),
                old(runtime).input(),
            ),
            old(runtime).stack.len() <= self.capture_start ==> final(runtime)@ == old(runtime)@
                && value is None,
    {
        if runtime.stack.len() > self.capture_start {
            let capture = runtime.stack.pop().unwrap();
            assert(capture_models(runtime.stack@) =~= old(runtime)@.stack.drop_last());
            Some(capture.as_value(runtime))
        } else {
            None
        }
    }

    /// The capture at position `pos` of the frame, as a value.
    pub fn get_capture(&self, runtime: &Runtime, pos: usize) -> (value: Option<Value>)
        requires
            runtime.wf(),
        ensures
            crate::capture::option_model(value) == capture_at(*self, runtime.input(), runtime@, pos),
    {
        if pos >= runtime.stack.len() || self.capture_start >= runtime.stack.len() - pos {
            return None;
        }
        if pos == 0 {
            match &runtime.stack[self.capture_start] {
                Capture::Value(value, _) => Some(value.clone()),
                _ => {
                    let range = Range { start: self.reader_start, end: runtime.reader.position() };
                    Some(Value::Str(runtime.reader.extract(&range)))
                },
            }
        } else {
            Some(runtime.stack[self.capture_start + pos].as_value(runtime))
        }
    }

    fn find_named(&self, runtime: &Runtime, name: &str) -> (i: usize)
        ensures
            i == named_from(runtime@.stack, name@, self.capture_start as int),
            i <= runtime.stack.len(),
    {
        let mut i: usize = self.capture_start;
        if i >= runtime.stack.len() {
            return runtime.stack.len();
        }
        while i < runtime.stack.len()
            invariant
                self.capture_start <= i <= runtime.stack.len(),
                named_from(runtime@.stack, name@, self.capture_start as int) == named_from(
                    runtime@.stack,
                    name@,
                    i as int,
                ),
            decreases runtime.stack.len() - i,
        {
            match &runtime.stack[i] {
                Capture::Named(_, alias) => {
                    if crate::value::str_eq(alias.as_str(), name) {
                        return i;
                    }
                },
                _ => {},
            }
            i = i + 1;
        }
        i
    }

    /// The value of the first capture of the frame that is named `name`.
    pub fn get_capture_by_name(&self, runtime: &Runtime, name: &str) -> (value: Option<Value>)
        requires
            runtime.wf(),
        ensures
            crate::capture::option_model(value) == capture_named(
                *self,
                runtime.input(),
                runtime@,
                name@,
            ),
    {
        let i = self.find_named(runtime, name);
        if i < runtime.stack.len() {
            Some(runtime.stack[i].as_value(runtime))
        } else {
            None
        }
    }

    /// Makes `value` the capture at position `pos` of the frame.
    pub fn set_capture(&self, runtime: &mut Runtime, pos: usize, value: Value)
        ensures
            final(runtime).reader == old(runtime).reader,
            final(runtime).memo == old(runtime).memo,
            final(runtime)@.stack == with_capture(*self, old(runtime)@.stack, pos, value@),
    {
        if pos >= runtime.stack.len() || self.capture_start >= runtime.stack.len() - pos {
            return ;
        }
        runtime.stack.set(self.capture_start + pos, Capture::Value(value, 5));
        assert(capture_models(runtime.stack@) =~= with_capture(
            *self,
            old(runtime)@.stack,
            pos,
            value@,
        ));
    }

    /// Makes `value` what the first capture of the frame named `name` names.
    pub fn set_capture_by_name(&self, runtime: &mut Runtime, name: &str, value: Value)
        ensures
            final(runtime).reader == old(runtime).reader,
            final(runtime).memo == old(runtime).memo,
            final(runtime)@.stack == with_named(*self, old(runtime)@.stack, name@, value@),
    {
        let i = self.find_named(runtime, name);
        if i < runtime.stack.len() {
            let alias = String::from_str(name);
            let inner = Capture::Value(value, 5);
            assert(inner@ == CaptureModel::Value(value@, 5));
            runtime.stack.set(i, Capture::Named(Box::new(inner), alias));
            assert(capture_models(runtime.stack@) =~= with_named(
                *self,
                old(runtime)@.stack,
                name@,
                value@,
            ));
        }
    }

    /// Copies of the captures of the frame.
    pub fn get_captures(&self, runtime: &Runtime) -> (captures: Vec<Capture>)
        ensures
            capture_models(captures@) == tail_from(runtime@.stack, self.capture_start),
    {
        if self.capture_start <= runtime.stack.len() {
            copy_tail(&runtime.stack, self.capture_start)
        } else {
            let captures: Vec<Capture> = Vec::new();
            assert(capture_models(captures@) =~= Seq::<CaptureModel>::empty());
            captures
        }
    }

    /// Takes the captures of the frame off the stack.
    pub fn drain_captures(&self, runtime: &mut Runtime) -> (captures: Vec<Capture>)
        ensures
            final(runtime).reader == old(runtime).reader,
            final(runtime).memo == old(runtime).memo,
            final(runtime)@.stack == cut_to(old(runtime)@.stack, self.capture_start),
            capture_models(captures@) == tail_from(old(runtime)@.stack, self.capture_start),
    {
        if self.capture_start <= runtime.stack.len() {
            let captures = runtime.stack.split_off(self.capture_start);
            assert(capture_models(runtime.stack@) =~= cut_to(
                old(runtime)@.stack,
                self.capture_start,
            ));
            assert(capture_models(captures@) =~= tail_from(
                old(runtime)@.stack,
                self.capture_start,
            ));
            captures
        } else {
            let captures: Vec<Capture> = Vec::new();
            assert(capture_models(captures@) =~= Seq::<CaptureModel>::empty());
            captures
        }
    }

    /// Collects the captures from `capture_start` on into one. With `copy`
    /// the stack keeps them, else they are taken off it.
    pub fn collect(&self, runtime: &mut Runtime, capture_start: usize, copy: bool, single: bool) -> (capture:
        Option<Capture>)
        requires
            old(runtime).wf(),
        ensures
            final(runtime).reader == old(runtime).reader,
            final(runtime).memo == old(runtime).memo,
            final(runtime)@.stack == if copy {
                old(runtime)@.stack
            } else {
                cut_to(old(runtime)@.stack, capture_start)
            },
            match capture {
                Some(c) => collected(
                    tail_from(old(runtime)@.stack, capture_start),
                    old(runtime).input(),
                    single,
                ) == Some(c@),
                None => collected(
                    tail_from(old(runtime)@.stack, capture_start),
                    old(runtime).input(),
                    single,
                ) is None,
            },
    {
        let ghost input = runtime.input();
        let tail = if capture_start > runtime.stack.len() {
            let tail: Vec<Capture> = Vec::new();
            assert(capture_models(tail@) =~= Seq::<CaptureModel>::empty());
            tail
        } else if copy {
            copy_tail(&runtime.stack, capture_start)
        } else {
            let tail = runtime.stack.split_off(capture_start);
            assert(capture_models(runtime.stack@) =~= cut_to(old(runtime)@.stack, capture_start));
            assert(capture_models(tail@) =~= tail_from(old(runtime)@.stack, capture_start));
            tail
        };
        let mut items = take_present(tail);
        let ghost all = capture_models(items@);
        if items.len() == 0 {
            return None;
        }
        if single && items.len() == 1 {
            let named = match &items[0] {
                Capture::Named(_, _) => true,
                _ => false,
            };
            if !named {
                return items.pop();
            }
        }
        let mut list = List::new();
        let mut dict = Dict::new();
        let mut max: u8 = 0;
        let mut i: usize = 0;
        while i < items.len()
            invariant
                runtime.wf(),
                runtime.input() == input,
                all == capture_models(items@),
                i <= items.len(),
                max == max_severity(all.take(i as int)),
                list@ == positional(all.take(i as int), max, input),
                dict@ == named(all.take(i as int), input),
            decreases items.len() - i,
        {
            let ghost seen = all.take(i as int);
            let ghost next = all.take(i + 1);
            proof {
                assert(next.drop_last() =~= seen);
                assert(next.last() == items@[i as int]@);
            }
            match &items[i] {
                Capture::Range(range, severity) => {
                    if *severity >= max {
                        if *severity > max {
                            proof {
                                lemma_positional_above(seen, *severity, input);
                            }
                            max = *severity;
                            list.clear();
                        }
                        list.push(Value::Str(runtime.reader.extract(range)));
                    }
                },
                Capture::Value(value, severity) => {
                    if *severity >= max {
                        if *severity > max {
                            proof {
                                lemma_positional_above(seen, *severity, input);
                            }
                            max = *severity;
                            list.clear();
                        }
                        list.push(value.clone());
                    }
                },
                Capture::Named(inner, name) => {
                    let value = inner.as_value(runtime);
                    dict.insert(name.clone(), value);
                },
                Capture::Empty => {},
            }
            i = i + 1;
        }
        assert(all.take(items.len() as int) =~= all);
        assemble(list, dict)
    }
}

} // verus!
