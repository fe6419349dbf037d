//! What resolution asks of a compiler: the addresses of the names it knows.

use vstd::prelude::*;
use vstd::string::*;

use crate::iml::{found_from, ImlValue};
use crate::value::str_eq;

verus! {

/// The names that a compiler knows, each kind in the order of definition. A
/// later definition of a name stands for the earlier ones.
#[derive(Debug)]
pub struct Compiler {
    /// Constants, each with the address of its static.
    pub constants: Vec<(String, usize)>,
    /// Local variables of the parselet that is compiled, each with its slot.
    pub locals: Vec<(String, usize)>,
    /// Global variables, each with its slot.
    pub globals: Vec<(String, usize)>,
    /// The identity that the next parselet gets.
    pub next_id: usize,
    /// The statics of the program that is built; no value is held twice.
    pub values: Vec<ImlValue>,
}

/// The address under the last of the first `n` definitions of `name`.
pub open spec fn looked_up(names: Seq<(String, usize)>, name: Seq<char>, n: int) -> Option<usize>
    decreases n,
{
    if n <= 0 || n > names.len() {
        None
    } else if names[n - 1].0@ == name {
        Some(names[n - 1].1)
    } else {
        looked_up(names, name, n - 1)
    }
}

/// Whether `after` is `before` with one more definition, of `name` at `addr`.
pub open spec fn defined(
    before: Seq<(String, usize)>,
    after: Seq<(String, usize)>,
    name: Seq<char>,
    addr: usize,
) -> bool {
    &&& after.len() == before.len() + 1
    &&& after.subrange(0, before.len() as int) == before
    &&& after.last().0@ == name
    &&& after.last().1 == addr
}

/// A further definition changes nothing about the definitions before it.
pub proof fn lemma_looked_up_push(
    names: Seq<(String, usize)>,
    entry: (String, usize),
    name: Seq<char>,
    n: int,
)
    requires
        0 <= n <= names.len(),
    ensures
        looked_up(names.push(entry), name, n) == looked_up(names, name, n),
    decreases n,
{
    if n > 0 {
        lemma_looked_up_push(names, entry, name, n - 1);
        assert(names.push(entry)[n - 1] == names[n - 1]);
    }
}

fn look_up(names: &Vec<(String, usize)>, name: &str) -> (addr: Option<usize>)
    ensures
        addr == looked_up(names@, name@, names@.len() as int),
{
    let mut i: usize = names.len();
    while i > 0
        invariant
            i <= names.len(),
            looked_up(names@, name@, names@.len() as int) == looked_up(names@, name@, i as int),
        decreases i,
    {
        i = i - 1;
        if str_eq(names[i].0.as_str(), name) {
            return Some(names[i].1);
        }
    }
    None
}

impl Compiler {
    /// A compiler that knows no name.
    pub fn new() -> (compiler: Compiler)
        ensures
            compiler.constants@.len() == 0,
            compiler.locals@.len() == 0,
            compiler.globals@.len() == 0,
            compiler.next_id == 0,
            compiler.values@.len() == 0,
    {
        Compiler {
            constants: Vec::new(),
            locals: Vec::new(),
            globals: Vec::new(),
            next_id: 0,
            values: Vec::new(),
        }
    }

    /// The address of `value` among the statics: that of the first static
    /// that is the same value, or a new one at the end.
    pub fn define_value(&mut self, value: ImlValue) -> (addr: usize)
        ensures
            final(self).constants == old(self).constants,
            final(self).locals == old(self).locals,
            final(self).globals == old(self).globals,
            final(self).next_id == old(self).next_id,
            addr == found_from(old(self).values@, &value, 0),
            final(self).values@ == (if addr < old(self).values@.len() {
                old(self).values@
            } else {
                old(self).values@.push(value)
            }),
    {
        let mut i: usize = 0;
        while i < self.values.len()
            invariant
                i <= self.values.len(),
                *self == *old(self),
                found_from(self.values@, &value, 0) == found_from(self.values@, &value, i as int),
            decreases self.values.len() - i,
        {
            if self.values[i].same(&value) {
                return i;
            }
            i = i + 1;
        }
        self.values.push(value);
        i
    }

    /// An identity for a parselet: one that no parselet before has got, as
    /// long as identities last.
    pub fn new_id(&mut self) -> (id: usize)
        ensures
            id == old(self).next_id,
            final(self).constants == old(self).constants,
            final(self).locals == old(self).locals,
            final(self).globals == old(self).globals,
            final(self).values == old(self).values,
            final(self).next_id == (if old(self).next_id < usize::MAX {
                old(self).next_id + 1
            } else {
                old(self).next_id as int
            }),
    {
        let id = self.next_id;
        if id < usize::MAX {
            self.next_id = id + 1;
        }
        id
    }

    /// The constant of this name.
    pub open spec fn constant(&self, name: Seq<char>) -> Option<usize> {
        looked_up(self.constants@, name, self.constants@.len() as int)
    }

    /// The local variable of this name.
    pub open spec fn local(&self, name: Seq<char>) -> Option<usize> {
        looked_up(self.locals@, name, self.locals@.len() as int)
    }

    /// The global variable of this name.
    pub open spec fn global(&self, name: Seq<char>) -> Option<usize> {
        looked_up(self.globals@, name, self.globals@.len() as int)
    }

    /// The address of the static that the constant `name` stands for.
    pub fn get_constant(&self, name: &str) -> (addr: Option<usize>)
        ensures
            addr == self.constant(name@),
    {
        look_up(&self.constants, name)
    }

    /// The slot of the local variable `name`.
    pub fn get_local(&self, name: &str) -> (addr: Option<usize>)
        ensures
            addr == self.local(name@),
    {
        look_up(&self.locals, name)
    }

    /// The slot of the global variable `name`.
    pub fn get_global(&self, name: &str) -> (addr: Option<usize>)
        ensures
            addr == self.global(name@),
    {
        look_up(&self.globals, name)
    }

    /// Defines the constant `name` as the static at `addr`.
    pub fn set_constant(&mut self, name: &str, addr: usize)
        ensures
            final(self).locals == old(self).locals,
            final(self).globals == old(self).globals,
            final(self).next_id == old(self).next_id,
            final(self).values == old(self).values,
            defined(old(self).constants@, final(self).constants@, name@, addr),
            final(self).constant(name@) == Some(addr),
            forall|other: Seq<char>|
                other != name@ ==> final(self).constant(other) == old(self).constant(other),
    {
        let entry = (String::from_str(name), addr);
        let ghost before = self.constants@;
        self.constants.push(entry);
        proof {
            assert(self.constants@.subrange(0, before.len() as int) =~= before);
            assert(self.constants@[before.len() as int] == entry);
            assert forall|other: Seq<char>| other != name@ implies looked_up(
                self.constants@,
                other,
                self.constants@.len() as int,
            ) == looked_up(before, other, before.len() as int) by {
                lemma_looked_up_push(before, entry, other, before.len() as int);
            }
        }
    }

    /// Defines the local variable `name` in the slot `addr`.
    pub fn set_local(&mut self, name: &str, addr: usize)
        ensures
            final(self).constants == old(self).constants,
            final(self).globals == old(self).globals,
            final(self).next_id == old(self).next_id,
            final(self).values == old(self).values,
            defined(old(self).locals@, final(self).locals@, name@, addr),
            final(self).local(name@) == Some(addr),
            forall|other: Seq<char>|
                other != name@ ==> final(self).local(other) == old(self).local(other),
    {
        let entry = (String::from_str(name), addr);
        let ghost before = self.locals@;
        self.locals.push(entry);
        proof {
            assert(self.locals@.subrange(0, before.len() as int) =~= before);
            assert(self.locals@[before.len() as int] == entry);
            assert forall|other: Seq<char>| other != name@ implies looked_up(
                self.locals@,
                other,
                self.locals@.len() as int,
            ) == looked_up(before, other, before.len() as int) by {
                lemma_looked_up_push(before, entry, other, before.len() as int);
            }
        }
    }

    /// Defines the global variable `name` in the slot `addr`.
    pub fn set_global(&mut self, name: &str, addr: usize)
        ensures
            final(self).constants == old(self).constants,
            final(self).locals == old(self).locals,
            final(self).next_id == old(self).next_id,
            final(self).values == old(self).values,
            defined(old(self).globals@, final(self).globals@, name@, addr),
            final(self).global(name@) == Some(addr),
            forall|other: Seq<char>|
                other != name@ ==> final(self).global(other) == old(self).global(other),
    {
        let entry = (String::from_str(name), addr);
        let ghost before = self.globals@;
        self.globals.push(entry);
        proof {
            assert(self.globals@.subrange(0, before.len() as int) =~= before);
            assert(self.globals@[before.len() as int] == entry);
            assert forall|other: Seq<char>| other != name@ implies looked_up(
                self.globals@,
                other,
                self.globals@.len() as int,
            ) == looked_up(before, other, before.len() as int) by {
                lemma_looked_up_push(before, entry, other, before.len() as int);
            }
        }
    }
}

} // verus!
