//! Parselets: the parsing functions of a program.

use vstd::prelude::*;
use vstd::string::*;

use crate::capture::{outcome_of, Accept, Capture, CaptureModel, Reject};
use crate::eval::{
    bind_from, body_eval, done, end_eval, failure, finished, frame_of, frozen, memo_wf,
    nargs_model, nargs_of, needs_no_arguments, normalised, parselet_eval, step_of, Step,
};
use crate::op::Op;
use crate::program::{Program, Static};
use crate::reader::Reader;
use crate::run::{fail, fail_with, kept, load_static, push, ready};
use crate::runtime::{Context, Runtime};
use crate::value::{group_value_models, models, Dict, List, Value, ValueModel};

verus! {

/// A parselet as the machine runs it.
#[derive(Debug)]
pub struct Parselet {
    /// The name from the source, for messages.
    pub name: Option<String>,
    /// The parameters in order, each with the address of its default where it has one.
    pub signature: Vec<(String, Option<usize>)>,
    /// The number of local slots; the parameters are the first of them.
    pub locals: usize,
    /// Run once before the body.
    pub begin: Op,
    /// Run once after the body.
    pub end: Op,
    pub body: Op,
    pub leftrec: bool,
    pub nullable: bool,
    /// The severity of the capture that the parselet returns.
    pub severity: u8,
    /// A silent parselet returns a placeholder in place of its capture.
    pub silent: bool,
}

/// What a parselet does with the outcome of its body, of `begin` or of `end`.
pub enum Advance {
    /// The parselet ends with this outcome.
    Return(Result<Accept, Reject>),
    /// The parselet goes on; the value, if any, joins its results.
    Continue(Option<Value>),
    /// The main parselet skips a character and goes on.
    Backtrack,
}

impl View for Advance {
    type V = Step;

    open spec fn view(&self) -> Step {
        match self {
            Advance::Return(result) => Step::Return(outcome_of(*result)),
            Advance::Continue(value) => Step::Continue(crate::capture::option_model(*value)),
            Advance::Backtrack => Step::Backtrack,
        }
    }
}

/// In main mode, the outcome of the body as one round of the loop.
pub fn normalise(main: bool, result: Result<Accept, Reject>, reader: &Reader) -> (round: Result<
    Accept,
    Reject,
>)
    requires
        reader.wf(),
    ensures
        outcome_of(round) == normalised(main, outcome_of(result), reader.input()),
{
    if !main {
        return result;
    }
    match result {
        Ok(Accept::Next) => Ok(Accept::Repeat(None)),
        Ok(Accept::Return(value)) => Ok(Accept::Repeat(value)),
        Ok(Accept::Push(capture)) => Ok(
            Accept::Repeat(
                match capture {
                    Capture::Range(range, _) => Some(Value::Str(reader.extract(&range))),
                    Capture::Value(value, _) => Some(value),
                    _ => None,
                },
            ),
        ),
        other => other,
    }
}

impl Parselet {
    /// A parselet with this body and this many local slots, without
    /// parameters; it is taken as nullable and not left-recursive until it
    /// is finalized.
    pub fn new(body: Op, locals: usize) -> (parselet: Parselet)
        ensures
            parselet.name is None,
            parselet.signature@.len() == 0,
            parselet.locals == locals,
            parselet.begin == Op::Nop,
            parselet.end == Op::Nop,
            parselet.body == body,
            !parselet.leftrec,
            parselet.nullable,
            parselet.severity == 5,
            !parselet.silent,
    {
        Parselet {
            name: None,
            signature: Vec::new(),
            locals,
            begin: Op::Nop,
            end: Op::Nop,
            body,
            leftrec: false,
            nullable: true,
            severity: 5,
            silent: false,
        }
    }

    /// A silent parselet: it returns a placeholder in place of its capture.
    pub fn new_silent(body: Op, locals: usize) -> (parselet: Parselet)
        ensures
            parselet.name is None,
            parselet.signature@.len() == 0,
            parselet.locals == locals,
            parselet.begin == Op::Nop,
            parselet.end == Op::Nop,
            parselet.body == body,
            !parselet.leftrec,
            parselet.nullable,
            parselet.severity == 5,
            parselet.silent,
    {
        Parselet {
            name: None,
            signature: Vec::new(),
            locals,
            begin: Op::Nop,
            end: Op::Nop,
            body,
            leftrec: false,
            nullable: true,
            severity: 5,
            silent: true,
        }
    }

    /// A parselet with everything given: its name, its flags where they are
    /// known, its parameters, its local slots and its three operations. The
    /// parameters are the first of the local slots.
    pub fn build(
        name: Option<String>,
        flags: Option<(bool, bool)>,
        severity: u8,
        signature: Vec<(String, Option<usize>)>,
        locals: usize,
        begin: Op,
        end: Op,
        body: Op,
    ) -> (parselet: Parselet)
        requires
            signature@.len() <= locals,
        ensures
            parselet.name == name,
            parselet.signature == signature,
            parselet.locals == locals,
            parselet.begin == begin,
            parselet.end == end,
            parselet.body == body,
            parselet.leftrec == (match flags {
                Some(known) => known.0,
                None => false,
            }),
            parselet.nullable == (match flags {
                Some(known) => known.1,
                None => true,
            }),
            parselet.severity == severity,
            !parselet.silent,
    {
        let (leftrec, nullable) = match flags {
            Some(known) => known,
            None => (false, true),
        };
        Parselet {
            name,
            signature,
            locals,
            begin,
            end,
            body,
            leftrec,
            nullable,
            severity,
            silent: false,
        }
    }

    /// The entry of a program's table that holds the parselet.
    pub fn into_refvalue(self) -> (entry: Static)
        ensures
            entry == Static::Parselet(self),
    {
        Static::Parselet(self)
    }

    /// Whether every parameter has a default.
    pub fn needs_no_arguments(&self) -> (free: bool)
        ensures
            free == needs_no_arguments(self),
    {
        let mut i: usize = 0;
        while i < self.signature.len()
            invariant
                i <= self.signature.len(),
                forall|k: int| 0 <= k < i ==> (#[trigger] self.signature[k]).1 is Some,
            decreases self.signature.len() - i,
        {
            if self.signature[i].1.is_none() {
                return false;
            }
            i = i + 1;
        }
        true
    }

    /// What the parselet does with an outcome: end with it, go on, or, in
    /// main mode, skip a character.
    pub fn step(&self, main: bool, have_results: bool, result: Result<Accept, Reject>, reader: &Reader) -> (advance:
        Advance)
        requires
            reader.wf(),
        ensures
            advance@ == step_of(
                self.silent,
                self.severity,
                main,
                have_results,
                normalised(main, outcome_of(result), reader.input()),
            ),
    {
        match normalise(main, result, reader) {
            Ok(Accept::Skip) => Advance::Return(Ok(Accept::Next)),
            Ok(Accept::Return(value)) => Advance::Return(
                Ok(
                    Accept::Push(
                        match value {
                            Some(v) => if self.silent {
                                Capture::Empty
                            } else {
                                Capture::Value(v, self.severity)
                            },
                            None => Capture::Empty,
                        },
                    ),
                ),
            ),
            Ok(Accept::Repeat(value)) => Advance::Continue(value),
            Ok(Accept::Push(capture)) => Advance::Return(
                Ok(Accept::Push(if self.silent {
                    Capture::Empty
                } else {
                    capture
                })),
            ),
            Ok(Accept::Next) => Advance::Return(Ok(Accept::Next)),
            Err(Reject::Error(error)) => Advance::Return(Err(Reject::Error(error))),
            Err(reject) => {
                if main {
                    Advance::Backtrack
                } else {
                    let is_main = match &reject {
                        Reject::Main => true,
                        _ => false,
                    };
                    if is_main || !have_results {
                        Advance::Return(Err(reject))
                    } else {
                        Advance::Continue(None)
                    }
                }
            },
        }
    }

    /// Ends the parselet with `out`: the frame is taken off the stack, and a
    /// failure puts the reader back.
    fn leave(&self, runtime: &mut Runtime, context: &Context, out: Result<Accept, Reject>) -> (result:
        Result<Accept, Reject>)
        requires
            old(runtime).wf(),
        ensures
            kept(old(runtime), final(runtime)),
            final(runtime).memo == old(runtime).memo,
            result == out,
            (final(runtime)@, outcome_of(result)) == done(
                *context,
                old(runtime).input(),
                old(runtime)@,
                outcome_of(out),
            ),
    {
        if out.is_err() {
            runtime.restore(context.stack_start, context.reader_start);
        } else {
            runtime.truncate(context.stack_start);
        }
        out
    }

    /// What the parselet gives when its loop has ended.
    fn finished(&self, results: Vec<Value>) -> (result: Result<Accept, Reject>)
        ensures
            outcome_of(result) == finished(self.severity, models(results@)),
    {
        broadcast use group_value_models;

        let mut results = results;
        if results.len() > 1 {
            let list = List { items: results };
            push(Value::List(list), self.severity)
        } else if results.len() == 1 {
            let only = results.pop().unwrap();
            push(only, self.severity)
        } else {
            Ok(Accept::Next)
        }
    }

    /// Binds the parameters that got no argument.
    #[verifier::loop_isolation(false)]
    fn bind(&self, program: &Program, runtime: &mut Runtime, stack_start: usize, argc: usize, nargs: Dict) -> (bound:
        Result<Dict, String>)
        requires
            argc <= self.signature.len(),
            stack_start + self.signature.len() <= old(runtime).stack.len(),
        ensures
            final(runtime).reader == old(runtime).reader,
            final(runtime).memo == old(runtime).memo,
            final(runtime)@.stack.len() == old(runtime)@.stack.len(),
            final(runtime)@.stack.subrange(0, stack_start as int) == old(runtime)@.stack.subrange(
                0,
                stack_start as int,
            ),
            match bound {
                Ok(rest) => bind_from(
                    program,
                    self.signature@,
                    argc as int,
                    nargs@,
                    old(runtime)@.stack,
                    stack_start as int,
                ) == Ok::<_, Seq<char>>((final(runtime)@.stack, rest@)),
                Err(message) => bind_from(
                    program,
                    self.signature@,
                    argc as int,
                    nargs@,
                    old(runtime)@.stack,
                    stack_start as int,
                ) == Err::<(Seq<CaptureModel>, Seq<(Seq<char>, ValueModel)>), _>(message@),
            },
    {
        let ghost goal = bind_from(
            program,
            self.signature@,
            argc as int,
            nargs@,
            old(runtime)@.stack,
            stack_start as int,
        );
        let mut rest = nargs;
        let mut i: usize = argc;
        while i < self.signature.len()
            invariant
                argc <= i <= self.signature.len(),
                runtime.reader == old(runtime).reader,
                runtime.memo == old(runtime).memo,
                runtime@.stack.len() == old(runtime)@.stack.len(),
                runtime@.stack.subrange(0, stack_start as int) == old(runtime)@.stack.subrange(
                    0,
                    stack_start as int,
                ),
                goal == bind_from(
                    program,
                    self.signature@,
                    i as int,
                    rest@,
                    runtime@.stack,
                    stack_start as int,
                ),
            decreases self.signature.len() - i,
        {
            let ghost before = runtime@.stack;
            let name = &self.signature[i].0;
            match rest.remove(name.as_str()) {
                Some(value) => {
                    runtime.set(stack_start + i, Capture::Value(value, 10));
                },
                None => match self.signature[i].1 {
                    Some(addr) => {
                        if addr < program.statics.len() {
                            runtime.set(
                                stack_start + i,
                                Capture::Value(load_static(program, addr), 10),
                            );
                        } else {
                            let mut message = String::from_str("Invalid default of argument '");
                            message.append(name.as_str());
                            message.append("'");
                            return Err(message);
                        }
                    },
                    None => {
                        let mut message = String::from_str("Expected argument '");
                        message.append(name.as_str());
                        message.append("'");
                        return Err(message);
                    },
                },
            }
            assert(runtime@.stack.subrange(0, stack_start as int) =~= before.subrange(
                0,
                stack_start as int,
            ));
            i = i + 1;
        }
        Ok(rest)
    }

    /// The end of the parselet: `end` runs, and the results are given.
    fn finish(
        &self,
        program: &Program,
        runtime: &mut Runtime,
        context: &Context,
        main: bool,
        results: Vec<Value>,
        depth: usize,
    ) -> (result: Result<Accept, Reject>)
        requires
            ready(old(runtime), *context),
        ensures
            kept(old(runtime), final(runtime)),
            (final(runtime)@, outcome_of(result)) == end_eval(
                program,
                self,
                *context,
                main,
                old(runtime).input(),
                old(runtime)@,
                models(results@),
                depth as nat,
            ),
            frozen(old(runtime)@.memo, final(runtime)@.memo),
            memo_wf(final(runtime)@.memo),
            final(runtime)@.stack.len() == context.stack_start,
            result is Err ==> final(runtime)@.pos == crate::reader::clamp(
                old(runtime).input(),
                context.reader_start,
            ),
        decreases depth, 2nat,
    {
        let mut results = results;
        match &self.end {
            Op::Nop => {},
            _ => {
                let ghost before = models(results@);
                let result = self.end.run(program, runtime, context, depth);
                match self.step(main, results.len() > 0, result, &runtime.reader) {
                    Advance::Return(out) => {
                        return self.leave(runtime, context, out);
                    },
                    Advance::Continue(value) => {
                        match value {
                            Some(v) => {
                                results.push(v);
                                assert(models(results@) =~= before.push(v@));
                            },
                            None => {},
                        }
                    },
                    Advance::Backtrack => {},
                }
            },
        }
        let out = self.finished(results);
        self.leave(runtime, context, out)
    }

    /// Runs the parselet on the top `argc` values of the stack as its
    /// arguments, with `nargs` as its named arguments. In main mode the body
    /// is tried at every place of the input.
    #[verifier::loop_isolation(false)]
    pub fn run(
        &self,
        program: &Program,
        runtime: &mut Runtime,
        argc: usize,
        nargs: Option<Dict>,
        main: bool,
        depth: usize,
    ) -> (result: Result<Accept, Reject>)
        requires
            old(runtime).wf(),
            memo_wf(old(runtime)@.memo),
        ensures
            kept(old(runtime), final(runtime)),
            (final(runtime)@, outcome_of(result)) == parselet_eval(
                program,
                self,
                argc,
                nargs_model(nargs),
                main,
                old(runtime).input(),
                old(runtime)@,
                depth as nat,
            ),
            frozen(old(runtime)@.memo, final(runtime)@.memo),
            memo_wf(final(runtime)@.memo),
            result is Err ==> final(runtime)@.pos == old(runtime)@.pos,
            argc <= old(runtime).stack.len() ==> final(runtime)@.stack.len() == old(
                runtime,
            ).stack.len() - argc,
        decreases depth, 4nat,
    {
        let ghost input = runtime.input();
        let ghost goal = parselet_eval(
            program,
            self,
            argc,
            nargs_model(nargs),
            main,
            input,
            old(runtime)@,
            depth as nat,
        );
        proof {
            runtime.reader.lemma_wf();
        }
        if argc > runtime.stack.len() {
            return fail(runtime, "Stack underflow");
        }
        let stack_start = runtime.stack.len() - argc;
        let pos = runtime.reader.position();
        let early = Context { stack_start, capture_start: stack_start, reader_start: pos };
        if argc > self.signature.len() {
            let out = fail(runtime, "Too many arguments");
            return self.leave(runtime, &early, out);
        }
        if self.signature.len() > self.locals {
            let out = fail(runtime, "Signature is longer than the locals");
            return self.leave(runtime, &early, out);
        }
        if self.locals >= usize::MAX - stack_start {
            let out = fail(runtime, "Stack overflow");
            return self.leave(runtime, &early, out);
        }
        let context = Context { stack_start, capture_start: stack_start + self.locals + 1, reader_start: pos };
        assert(context == frame_of(self, old(runtime)@.stack.len(), argc, pos));
        while runtime.stack.len() < context.capture_start
            invariant
                runtime.reader == old(runtime).reader,
                runtime.memo == old(runtime).memo,
                old(runtime).stack.len() <= runtime.stack.len() <= context.capture_start,
                runtime@.stack == old(runtime)@.stack + Seq::new(
                    (runtime.stack.len() - old(runtime).stack.len()) as nat,
                    |i: int| CaptureModel::Empty,
                ),
            decreases context.capture_start - runtime.stack.len(),
        {
            runtime.push(Capture::Empty);
            assert(runtime@.stack =~= old(runtime)@.stack + Seq::new(
                (runtime.stack.len() - old(runtime).stack.len()) as nat,
                |i: int| CaptureModel::Empty,
            ));
        }
        let ghost reserved = runtime@.stack;
        let given = match nargs {
            Some(dict) => dict,
            None => Dict::new(),
        };
        assert(given@ == nargs_of(nargs_model(nargs)));
        match self.bind(program, runtime, stack_start, argc, given) {
            Err(message) => {
                let out = fail_with(runtime, message);
                assert(crate::collect::cut_to(runtime@.stack, stack_start) =~= crate::collect::cut_to(
                    reserved,
                    stack_start,
                ));
                return self.leave(runtime, &context, out);
            },
            Ok(rest) => {
                if rest.len() > 0 {
                    let mut message = String::from_str("Unexpected named argument '");
                    message.append(rest.entries[0].0.as_str());
                    message.append("'");
                    let out = fail_with(runtime, message);
                    return self.leave(runtime, &context, out);
                }
            },
        }
        let mut results: Vec<Value> = Vec::new();
        assert(models(results@) =~= Seq::<ValueModel>::empty());
        match &self.begin {
            Op::Nop => {},
            _ => {
                let result = self.begin.run(program, runtime, &context, depth);
                match self.step(main, false, result, &runtime.reader) {
                    Advance::Return(out) => {
                        return self.leave(runtime, &context, out);
                    },
                    Advance::Continue(value) => {
                        match value {
                            Some(v) => {
                                results.push(v);
                                assert(models(results@) =~= Seq::<ValueModel>::empty().push(v@));
                            },
                            None => {},
                        }
                    },
                    Advance::Backtrack => {},
                }
            },
        }
        let mut budget: usize = depth;
        loop
            invariant
                ready(runtime, context),
                runtime.input() == input,
                budget <= depth,
                goal == body_eval(
                    program,
                    self,
                    context,
                    main,
                    input,
                    runtime@,
                    models(results@),
                    budget as nat,
                ),
                frozen(old(runtime)@.memo, runtime@.memo),
            decreases budget,
        {
            let start = runtime.reader.position();
            let ghost gathered = models(results@);
            let result = self.body.run(program, runtime, &context, budget);
            let accepted = result.is_ok();
            match self.step(main, results.len() > 0, result, &runtime.reader) {
                Advance::Return(out) => {
                    return self.leave(runtime, &context, out);
                },
                Advance::Continue(value) => {
                    match value {
                        Some(v) => {
                            results.push(v);
                            assert(models(results@) =~= gathered.push(v@));
                        },
                        None => {},
                    }
                    if main && accepted && runtime.reader.position() == start {
                        runtime.advance();
                    }
                },
                Advance::Backtrack => {
                    runtime.advance();
                },
            }
            if runtime.reader.eof() {
                return self.finish(program, runtime, &context, main, results, budget);
            }
            if budget == 0 {
                let out = fail(runtime, "Recursion limit reached");
                return self.leave(runtime, &context, out);
            }
            budget = budget - 1;
        }
    }
}

} // verus!
