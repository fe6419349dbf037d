//! Programs: a table of statics and the parselet to start with.

use vstd::prelude::*;
use vstd::string::*;

use crate::capture::{
    outcome_of, Accept, AcceptModel, Capture, CaptureModel, Outcome, Reject, RejectModel,
};
use crate::error::{Error, ErrorModel};
use crate::finalize::{bodies_of, flags_of, moved_in_round, passes, same_but_flags, settled};
use crate::number::{
    blocks_in, counted, counting, ids_of, lemma_counting_joins, lemma_numbered_ids, numbered_from,
};
use crate::eval::{
    callee_of, frozen, invoke, lawful, memo_wf, nargs_model, parselet_eval, static_callee,
};
use crate::parselet::Parselet;
use crate::reader::Reader;
use crate::run::{fail, kept, ready};
use crate::runtime::{Context, Runtime, State};
use crate::value::{group_value_models, Dict, Value, ValueModel};

verus! {

/// An entry of a program's table: a value, or a parselet.
#[derive(Debug)]
pub enum Static {
    Value(Value),
    Parselet(Parselet),
}

/// A program, as a compiler hands it over.
#[derive(Debug)]
pub struct Program {
    pub statics: Vec<Static>,
    /// The address of the main parselet, where the program has a parselet.
    pub main: Option<usize>,
}

/// The address of the last parselet among the first `n` statics.
pub open spec fn last_parselet(statics: Seq<Static>, n: int) -> Option<usize>
    decreases n,
{
    if n <= 0 || n > statics.len() {
        None
    } else if statics[n - 1] is Parselet {
        Some((n - 1) as usize)
    } else {
        last_parselet(statics, n - 1)
    }
}

/// The message of the error that a run ends in where the main parselet fails.
pub open spec fn runtime_error(reject: RejectModel) -> Seq<char> {
    match reject {
        RejectModel::Next => "Runtime error Next"@,
        RejectModel::Return => "Runtime error Return"@,
        RejectModel::Main => "Runtime error Main"@,
        RejectModel::Error(error) => error.message,
    }
}

/// The result of a run from the outcome of the main parselet: a pushed value
/// that is not void is the result, an error is handed on, any other failure
/// becomes an error without a place, and anything else gives nothing.
pub open spec fn folded(out: Outcome) -> Result<Option<ValueModel>, ErrorModel> {
    match out {
        Ok(AcceptModel::Push(CaptureModel::Value(value, _))) => if value is Void {
            Ok(None)
        } else {
            Ok(Some(value))
        },
        Ok(_) => Ok(None),
        Err(RejectModel::Error(error)) => Err(error),
        Err(reject) => Err(ErrorModel { offset: None, message: runtime_error(reject) }),
    }
}

/// The model of the result of a run.
pub open spec fn result_model(result: Result<Option<Value>, Error>) -> Result<
    Option<ValueModel>,
    ErrorModel,
> {
    match result {
        Ok(value) => Ok(crate::capture::option_model(value)),
        Err(error) => Err(error@),
    }
}

/// A run of a program: its main parselet runs in main mode on an empty
/// frame. A program without a parselet gives nothing.
pub open spec fn program_eval(program: &Program, input: Seq<char>, st: State, depth: nat) -> (
    State,
    Result<Option<ValueModel>, ErrorModel>,
) {
    match program.main {
        Some(main) => if main < program.statics.len() && program.statics[main as int] is Parselet {
            let run = parselet_eval(
                program,
                &program.statics[main as int]->Parselet_0,
                0,
                None,
                true,
                input,
                st,
                depth,
            );
            (run.0, folded(run.1))
        } else {
            (st, Err(ErrorModel { offset: None, message: "Main is no parselet"@ }))
        },
        None => (st, Ok(None)),
    }
}

/// The number of blocks in an entry of a program's table.
pub open spec fn entry_blocks(entry: Static) -> nat {
    match entry {
        Static::Parselet(parselet) => blocks_in(&parselet.begin) + blocks_in(&parselet.end)
            + blocks_in(&parselet.body),
        _ => 0,
    }
}

/// The number of blocks in the first `n` entries of a program's table.
pub open spec fn blocks_before(statics: Seq<Static>, n: int) -> nat
    decreases n,
{
    if n <= 0 || n > statics.len() {
        0
    } else {
        blocks_before(statics, n - 1) + entry_blocks(statics[n - 1])
    }
}

/// Whether `after` is the entry `before` with its blocks numbered from
/// `first` on: those of `begin`, then those of `end`, then those of the body.
pub open spec fn entry_numbered(before: Static, after: Static, first: int) -> bool {
    match (before, after) {
        (Static::Value(a), Static::Value(b)) => a == b,
        (Static::Parselet(p), Static::Parselet(q)) => {
            &&& q.name == p.name
            &&& q.signature == p.signature
            &&& q.locals == p.locals
            &&& q.leftrec == p.leftrec
            &&& q.nullable == p.nullable
            &&& q.severity == p.severity
            &&& q.silent == p.silent
            &&& numbered_from(&p.begin, &q.begin, first)
            &&& numbered_from(&p.end, &q.end, first + blocks_in(&p.begin))
            &&& numbered_from(&p.body, &q.body, first + blocks_in(&p.begin) + blocks_in(&p.end))
        },
        _ => false,
    }
}

/// The identities of the blocks of an entry: those of `begin`, of `end` and of the body.
pub open spec fn entry_ids(entry: Static) -> Seq<usize> {
    match entry {
        Static::Parselet(parselet) => ids_of(&parselet.begin) + ids_of(&parselet.end) + ids_of(
            &parselet.body,
        ),
        _ => Seq::empty(),
    }
}

/// The identities of the blocks in the first `n` entries of a program's table.
pub open spec fn program_ids(statics: Seq<Static>, n: int) -> Seq<usize>
    decreases n,
{
    if n <= 0 || n > statics.len() {
        Seq::empty()
    } else {
        program_ids(statics, n - 1) + entry_ids(statics[n - 1])
    }
}

/// The blocks of a numbered table have the numbers from 0 on, each once: no
/// two blocks of a program share an identity.
pub proof fn lemma_program_ids(before: Seq<Static>, after: Seq<Static>, n: int)
    requires
        after.len() == before.len(),
        0 <= n <= before.len(),
        blocks_before(before, n) <= usize::MAX,
        forall|j: int|
            0 <= j < n ==> entry_numbered(
                before[j],
                #[trigger] after[j],
                blocks_before(before, j) as int,
            ),
    ensures
        program_ids(after, n) == counting(0, blocks_before(before, n)),
    decreases n,
{
    if n > 0 {
        lemma_blocks_before_grow(before, n - 1, n);
        lemma_program_ids(before, after, n - 1);
        let first = blocks_before(before, n - 1) as int;
        assert(entry_numbered(before[n - 1], after[n - 1], first));
        match (before[n - 1], after[n - 1]) {
            (Static::Parselet(p), Static::Parselet(q)) => {
                let a = blocks_in(&p.begin);
                let b = blocks_in(&p.end);
                let c = blocks_in(&p.body);
                lemma_numbered_ids(&p.begin, &q.begin, first);
                lemma_numbered_ids(&p.end, &q.end, first + a);
                lemma_numbered_ids(&p.body, &q.body, first + a + b);
                lemma_counting_joins(first, a, b);
                lemma_counting_joins(first, a + b, c);
                lemma_counting_joins(0, first as nat, a + b + c);
            },
            _ => {
                lemma_counting_joins(0, first as nat, 0);
                assert(entry_ids(after[n - 1]) =~= counting(first, 0));
            },
        }
    } else {
        assert(program_ids(after, n) =~= counting(0, 0));
    }
}

proof fn lemma_blocks_before_grow(statics: Seq<Static>, k: int, n: int)
    requires
        0 <= k <= n <= statics.len(),
    ensures
        blocks_before(statics, k) <= blocks_before(statics, n),
    decreases n - k,
{
    if k < n {
        lemma_blocks_before_grow(statics, k, n - 1);
    }
}

proof fn lemma_last_parselet_alike(a: Seq<Static>, b: Seq<Static>, n: int)
    requires
        a.len() == b.len(),
        0 <= n <= a.len(),
        forall|j: int| 0 <= j < a.len() ==> (#[trigger] a[j] is Parselet) == (b[j] is Parselet),
    ensures
        last_parselet(a, n) == last_parselet(b, n),
    decreases n,
{
    if n > 0 {
        assert((a[n - 1] is Parselet) == (b[n - 1] is Parselet));
        lemma_last_parselet_alike(a, b, n - 1);
    }
}

/// The entry with its blocks numbered from `next` on, and the next free number.
fn number_entry(entry: Static, next: usize) -> (done: (Static, usize))
    ensures
        done.1 == counted(next, entry_blocks(entry)),
        (done.0 is Parselet) == (entry is Parselet),
        next + entry_blocks(entry) <= usize::MAX ==> entry_numbered(entry, done.0, next as int),
{
    match entry {
        Static::Parselet(parselet) => {
            let Parselet {
                name,
                signature,
                locals,
                begin,
                end,
                body,
                leftrec,
                nullable,
                severity,
                silent,
            } = parselet;
            let begin = begin.number(next);
            let end = end.number(begin.1);
            let body = body.number(end.1);
            (
                Static::Parselet(
                    Parselet {
                        name,
                        signature,
                        locals,
                        begin: begin.0,
                        end: end.0,
                        body: body.0,
                        leftrec,
                        nullable,
                        severity,
                        silent,
                    },
                ),
                body.1,
            )
        },
        other => (other, next),
    }
}

impl Program {
    /// The program of these statics. Its main parselet is the last parselet
    /// among them, and its blocks are numbered from 0 on, entry by entry, so
    /// that no two blocks share an identity.
    #[verifier::loop_isolation(false)]
    pub fn new(statics: Vec<Static>) -> (program: Program)
        ensures
            program.statics@.len() == statics@.len(),
            program.main == last_parselet(statics@, statics@.len() as int),
            program.main == last_parselet(program.statics@, statics@.len() as int),
            blocks_before(statics@, statics@.len() as int) <= usize::MAX ==> forall|j: int|
                0 <= j < statics@.len() ==> entry_numbered(
                    statics@[j],
                    #[trigger] program.statics@[j],
                    blocks_before(statics@, j) as int,
                ),
            blocks_before(statics@, statics@.len() as int) <= usize::MAX ==> program_ids(
                program.statics@,
                statics@.len() as int,
            ) == counting(0, blocks_before(statics@, statics@.len() as int)),
    {
        let ghost given = statics@;
        let ghost total = blocks_before(given, given.len() as int);
        let mut rest = statics;
        let mut done: Vec<Static> = Vec::new();
        let mut free: usize = 0;
        while rest.len() > 0
            invariant
                done.len() + rest.len() == given.len(),
                forall|k: int| 0 <= k < rest.len() ==> rest@[k] == #[trigger] given[done.len() + k],
                free == counted(0, blocks_before(given, done.len() as int)),
                blocks_before(given, done.len() as int) <= total,
                forall|k: int|
                    0 <= k < done.len() ==> (#[trigger] done@[k] is Parselet) == (
                    given[k] is Parselet),
                total <= usize::MAX ==> forall|k: int|
                    0 <= k < done.len() ==> entry_numbered(
                        given[k],
                        #[trigger] done@[k],
                        blocks_before(given, k) as int,
                    ),
            decreases rest.len(),
        {
            let ghost at = done.len() as int;
            let entry = rest.remove(0);
            assert(entry == given[at + 0]);
            proof {
                lemma_blocks_before_grow(given, at + 1, given.len() as int);
            }
            let numbered = number_entry(entry, free);
            free = numbered.1;
            done.push(numbered.0);
            assert forall|k: int| 0 <= k < rest.len() implies rest@[k] == #[trigger] given[done.len()
                + k] by {
                assert(given[at + (k + 1)] == given[done.len() + k]);
            }
        }
        let statics = done;
        proof {
            assert forall|j: int| 0 <= j < given.len() implies (#[trigger] given[j] is Parselet)
                == (statics@[j] is Parselet) by {
                assert((statics@[j] is Parselet) == (given[j] is Parselet));
            }
            lemma_last_parselet_alike(given, statics@, given.len() as int);
            if total <= usize::MAX {
                lemma_program_ids(given, statics@, given.len() as int);
            }
        }
        let mut main: Option<usize> = None;
        let mut i: usize = statics.len();
        while i > 0 && main.is_none()
            invariant
                i <= statics.len(),
                last_parselet(statics@, statics@.len() as int) == match main {
                    Some(found) => Some(found),
                    None => last_parselet(statics@, i as int),
                },
            decreases i,
        {
            i = i - 1;
            match &statics[i] {
                Static::Parselet(_) => {
                    main = Some(i);
                },
                _ => {},
            }
        }
        Program { statics, main }
    }

    /// Finds the flags of the program's parselets and sets the flags
    /// inside their bodies. The result is the number of passes it took.
    pub fn finalize(&mut self) -> (loops: usize)
        ensures
            final(self).main == old(self).main,
            final(self).statics.len() == old(self).statics.len(),
            forall|j: int|
                0 <= j < old(self).statics.len() ==> same_but_flags(
                    old(self).statics@[j],
                    #[trigger] final(self).statics@[j],
                ),
            forall|j: int|
                0 <= j < final(self).statics.len() ==> settled(final(self).statics@, j),
            1 <= loops <= 2 * old(self).statics.len() + 1,
            loops < usize::MAX ==> flags_of(final(self).statics@) == passes(
                bodies_of(old(self).statics@),
                flags_of(old(self).statics@),
                loops as nat,
            ),
            loops < usize::MAX ==> passes(
                bodies_of(old(self).statics@),
                flags_of(old(self).statics@),
                loops as nat,
            ) == passes(
                bodies_of(old(self).statics@),
                flags_of(old(self).statics@),
                (loops - 1) as nat,
            ),
            loops < usize::MAX ==> forall|r: nat|
                1 <= r < loops ==> #[trigger] moved_in_round(
                    bodies_of(old(self).statics@),
                    flags_of(old(self).statics@),
                    r,
                ),
    {
        Parselet::finalize(&mut self.statics)
    }

    /// Runs the program on `runtime`, with the budget that the runtime gives.
    pub fn run(&self, runtime: &mut Runtime) -> (result: Result<Option<Value>, Error>)
        requires
            old(runtime).wf(),
            memo_wf(old(runtime)@.memo),
        ensures
            kept(old(runtime), final(runtime)),
            (final(runtime)@, result_model(result)) == program_eval(
                self,
                old(runtime).input(),
                old(runtime)@,
                old(runtime).limit as nat,
            ),
            frozen(old(runtime)@.memo, final(runtime)@.memo),
            final(runtime)@.stack.len() == old(runtime)@.stack.len(),
    {
        let main = match self.main {
            Some(main) => main,
            None => {
                return Ok(None);
            },
        };
        let parselet = match self.parselet(main) {
            Some(parselet) => parselet,
            None => {
                return Err(Error::from_message("Main is no parselet"));
            },
        };
        let depth = runtime.limit;
        match parselet.run(self, runtime, 0, None, true, depth) {
            Ok(Accept::Push(Capture::Value(value, _))) => {
                if value.is_void() {
                    Ok(None)
                } else {
                    Ok(Some(value))
                }
            },
            Ok(_) => Ok(None),
            Err(Reject::Error(error)) => Err(error),
            Err(Reject::Next) => Err(Error::from_message("Runtime error Next")),
            Err(Reject::Return) => Err(Error::from_message("Runtime error Return")),
            Err(Reject::Main) => Err(Error::from_message("Runtime error Main")),
        }
    }

    /// Runs the program on the input of `reader`.
    pub fn run_from_reader(&self, reader: Reader) -> (result: Result<Option<Value>, Error>)
        requires
            reader.wf(),
        ensures
            result_model(result) == program_eval(
                self,
                reader.input(),
                (State { pos: reader.pos(), stack: Seq::empty(), memo: Map::empty() }),
                usize::MAX as nat,
            ).1,
    {
        let mut runtime = Runtime::new(reader);
        self.run(&mut runtime)
    }

    /// Runs the program on `src`.
    pub fn run_from_str(&self, src: &str) -> (result: Result<Option<Value>, Error>)
        requires
            src@.len() < usize::MAX,
        ensures
            result_model(result) == program_eval(
                self,
                src@,
                (State { pos: 0, stack: Seq::empty(), memo: Map::empty() }),
                usize::MAX as nat,
            ).1,
    {
        self.run_from_reader(Reader::new(src))
    }

    /// Runs the program on `src`.
    pub fn run_from_string(&self, src: String) -> (result: Result<Option<Value>, Error>)
        requires
            src@.len() < usize::MAX,
        ensures
            result_model(result) == program_eval(
                self,
                src@,
                (State { pos: 0, stack: Seq::empty(), memo: Map::empty() }),
                usize::MAX as nat,
            ).1,
    {
        self.run_from_reader(Reader::new(src.as_str()))
    }

    /// The address of the parselet that a call of `value` runs.
    pub fn callee(&self, value: &Value) -> (target: Option<usize>)
        ensures
            target == callee_of(self, value@),
    {
        broadcast use group_value_models;

        match value {
            Value::Parselet(addr) => {
                if *addr < self.statics.len() {
                    match &self.statics[*addr] {
                        Static::Parselet(_) => Some(*addr),
                        _ => None,
                    }
                } else {
                    None
                }
            },
            _ => None,
        }
    }

    /// The address of the parselet that a call of the static at `addr` runs.
    pub fn static_callee(&self, addr: usize) -> (target: Option<usize>)
        ensures
            target == static_callee(self, addr),
    {
        if addr < self.statics.len() {
            match &self.statics[addr] {
                Static::Parselet(_) => Some(addr),
                Static::Value(value) => self.callee(value),
            }
        } else {
            None
        }
    }

    /// The parselet at `target`, where there is one.
    pub fn parselet(&self, target: usize) -> (parselet: Option<&Parselet>)
        ensures
            match parselet {
                Some(found) => target < self.statics.len() && self.statics[target as int]
                    == Static::Parselet(*found),
                None => target >= self.statics.len() || !(self.statics[target as int] is Parselet),
            },
    {
        if target < self.statics.len() {
            match &self.statics[target] {
                Static::Parselet(parselet) => Some(parselet),
                _ => None,
            }
        } else {
            None
        }
    }

    /// Calls the parselet at `target` with the top `argc` values of the
    /// stack as its arguments.
    pub fn invoke(
        &self,
        target: Option<usize>,
        argc: usize,
        nargs: Option<Dict>,
        runtime: &mut Runtime,
        context: &Context,
        depth: usize,
    ) -> (result: Result<Accept, Reject>)
        requires
            ready(old(runtime), *context),
            argc <= old(runtime).stack.len() - context.capture_start,
        ensures
            kept(old(runtime), final(runtime)),
            (final(runtime)@, outcome_of(result)) == invoke(
                self,
                target,
                argc,
                nargs_model(nargs),
                old(runtime).input(),
                old(runtime)@,
                depth as nat,
            ),
            lawful(argc == 0, *context, old(runtime)@, final(runtime)@, outcome_of(result)),
        decreases depth, 0nat,
    {
        match target {
            Some(addr) => {
                if addr < self.statics.len() {
                    match &self.statics[addr] {
                        Static::Parselet(parselet) => {
                            if depth == 0 {
                                fail(runtime, "Recursion limit reached")
                            } else {
                                parselet.run(self, runtime, argc, nargs, false, depth - 1)
                            }
                        },
                        _ => fail(runtime, "Value cannot be called"),
                    }
                } else {
                    fail(runtime, "Value cannot be called")
                }
            },
            None => fail(runtime, "Value cannot be called"),
        }
    }
}

} // verus!
