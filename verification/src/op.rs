//! Operations: the instructions of the machine and the parsers built from them.

use vstd::prelude::*;
use vstd::string::*;

use crate::ccl::Ccl;
use crate::text::chars_of;

verus! {

/// An operation of the machine.
#[derive(Debug)]
pub enum Op {
    /// Does nothing.
    Nop,
    /// Gives a placeholder capture.
    Empty,
    /// Runs the operation and puts the reader back.
    Peek(Box<Op>),
    /// Succeeds where the operation fails, and the other way round.
    Not(Box<Op>),
    /// Turns a local failure of the operation into an error.
    Expect(Box<Op>),
    Char(Char),
    Match(Match),
    Repeat(Box<Repeat>),
    Sequence(Sequence),
    Block(Block),
    /// A name that is not resolved yet.
    Symbol(String),
    /// Takes the top value and calls it where it can be called without arguments.
    TryCall,
    /// Takes the top value and calls it.
    Call,
    /// Calls the static at the address.
    CallStatic(usize),
    /// Calls the static at the address with this many arguments from the stack.
    CallStaticArg(usize, usize),
    /// As `CallStaticArg`, with a dictionary of named arguments on top of the arguments.
    CallStaticArgNamed(usize, usize),
    /// Fails with an error of this message.
    Error(String),
    /// Leaves the parselet with a node of this name made of the frame's captures.
    Create(String),
    /// Leaves the parselet with a node of this name made of the text read so far.
    Lexeme(String),
    Skip,
    LoadAccept,
    Reject,
    LoadStatic(usize),
    Push0,
    Push1,
    PushVoid,
    PushNull,
    PushTrue,
    PushFalse,
    LoadGlobal(usize),
    LoadFast(usize),
    StoreGlobal(usize),
    StoreFast(usize),
    LoadFastCapture(usize),
    LoadCapture,
    StoreFastCapture(usize),
    StoreCapture,
    Add,
    Sub,
    Div,
    Mul,
}

/// Matches one character of a class, or as many as follow one another. The
/// span is pushed at severity 5 whether the parser is silent or not; the
/// mark is kept for who builds the program.
#[derive(Debug)]
pub struct Char {
    pub accept: Ccl,
    pub repeats: bool,
    pub silent: bool,
}

/// Matches an exact run of characters. `chars` holds the characters of `text`.
#[derive(Debug)]
pub struct Match {
    pub text: String,
    pub chars: Vec<char>,
    pub silent: bool,
}

/// Runs a parser again and again: at least `min` times, and at most `max`
/// times where `max` is not 0.
#[derive(Debug)]
pub struct Repeat {
    pub parser: Op,
    pub min: usize,
    pub max: usize,
    pub silent: bool,
}

/// Runs its items one after the other; each may give its capture a name.
#[derive(Debug)]
pub struct Sequence {
    pub leftrec: bool,
    pub nullable: bool,
    pub items: Vec<(Op, Option<String>)>,
}

/// Tries its alternatives in order. Each alternative is marked as
/// left-recursive or not; `id` tells the block from the others of a program.
#[derive(Debug)]
pub struct Block {
    pub id: usize,
    pub leftrec: bool,
    pub all_leftrec: bool,
    pub items: Vec<(Op, bool)>,
}

/// What can be made into an operation.
pub trait Parser: Sized {
    /// The operation that holds the parser.
    fn into_op(self) -> Op;
}

impl Parser for Char {
    fn into_op(self) -> (op: Op)
        ensures
            op == Op::Char(self),
    {
        Op::Char(self)
    }
}

impl Parser for Match {
    fn into_op(self) -> (op: Op)
        ensures
            op == Op::Match(self),
    {
        Op::Match(self)
    }
}

impl Parser for Repeat {
    fn into_op(self) -> (op: Op)
        ensures
            op == Op::Repeat(Box::new(self)),
    {
        Op::Repeat(Box::new(self))
    }
}

impl Parser for Sequence {
    fn into_op(self) -> (op: Op)
        ensures
            op == Op::Sequence(self),
    {
        Op::Sequence(self)
    }
}

impl Parser for Block {
    fn into_op(self) -> (op: Op)
        ensures
            op == Op::Block(self),
    {
        Op::Block(self)
    }
}

impl Op {
    /// The operation in a box.
    pub fn into_box(self) -> (boxed: Box<Op>)
        ensures
            *boxed == self,
    {
        Box::new(self)
    }

    /// The operation any number of times.
    pub fn into_kleene(self) -> (op: Op)
        ensures
            op == Op::Repeat(Box::new(Repeat { parser: self, min: 0, max: 0, silent: false })),
    {
        Repeat::kleene(self)
    }

    /// The operation once or more.
    pub fn into_positive(self) -> (op: Op)
        ensures
            op == Op::Repeat(Box::new(Repeat { parser: self, min: 1, max: 0, silent: false })),
    {
        Repeat::positive(self)
    }

    /// The operation once or not at all.
    pub fn into_optional(self) -> (op: Op)
        ensures
            op == Op::Repeat(Box::new(Repeat { parser: self, min: 0, max: 1, silent: false })),
    {
        Repeat::optional(self)
    }
}

impl Char {
    fn _new(accept: Ccl, repeats: bool, silent: bool) -> (op: Op)
        ensures
            op == Op::Char(Char { accept, repeats, silent }),
    {
        Char { accept, repeats, silent }.into_op()
    }

    /// One character of the class, silently.
    pub fn new_silent(accept: Ccl) -> (op: Op)
        ensures
            op == Op::Char(Char { accept, repeats: false, silent: true }),
    {
        Char::_new(accept, false, true)
    }

    /// One character of the class.
    pub fn new(accept: Ccl) -> (op: Op)
        ensures
            op == Op::Char(Char { accept, repeats: false, silent: false }),
    {
        Char::_new(accept, false, false)
    }

    /// Any one character, silently.
    pub fn any() -> (op: Op)
        ensures
            op matches Op::Char(parser) && !parser.repeats && parser.silent && forall|ch: char|
                parser.accept.accepts(ch),
    {
        let mut any = Ccl::new();
        any.negate();
        Char::new_silent(any)
    }

    /// The character `ch`, silently.
    pub fn char(ch: char) -> (op: Op)
        ensures
            op matches Op::Char(parser) && !parser.repeats && parser.silent && forall|other: char|
                parser.accept.accepts(other) == (other == ch),
    {
        let only = Ccl::from_range(ch, ch);
        assert forall|other: char| only.accepts(other) == (other == ch) by {
            assert((other as int == ch as int) == (other == ch));
        }
        Char::new_silent(only)
    }

    /// As many characters of the class as follow one another, at least one.
    pub fn span(ccl: Ccl) -> (op: Op)
        ensures
            op == Op::Char(Char { accept: ccl, repeats: true, silent: false }),
    {
        Char::_new(ccl, true, false)
    }

    /// As many characters as come before the next `ch`, at least one.
    pub fn until(ch: char) -> (op: Op)
        ensures
            op matches Op::Char(parser) && parser.repeats && !parser.silent && forall|other: char|
                parser.accept.accepts(other) == (other != ch),
    {
        let mut other = Ccl::from_range(ch, ch);
        other.negate();
        assert forall|c: char| other.accepts(c) == (c != ch) by {
            assert((c as int == ch as int) == (c == ch));
        }
        Char::span(other)
    }
}

impl Match {
    /// The match of exactly these characters.
    pub fn new(string: &str) -> (op: Op)
        ensures
            op matches Op::Match(parser) && parser.text@ == string@ && parser.chars@ == string@
                && !parser.silent,
    {
        Match { text: String::from_str(string), chars: chars_of(string), silent: false }.into_op()
    }

    /// The silent match of exactly these characters.
    pub fn new_silent(string: &str) -> (op: Op)
        ensures
            op matches Op::Match(parser) && parser.text@ == string@ && parser.chars@ == string@
                && parser.silent,
    {
        Match { text: String::from_str(string), chars: chars_of(string), silent: true }.into_op()
    }
}

impl Repeat {
    /// The parser at least `min` times, and at most `max` times where `max` is not 0.
    pub fn new(parser: Op, min: usize, max: usize, silent: bool) -> (op: Op)
        requires
            max == 0 || max >= min,
        ensures
            op == Op::Repeat(Box::new(Repeat { parser, min, max, silent })),
    {
        Repeat { parser, min, max, silent }.into_op()
    }

    /// The parser any number of times.
    pub fn kleene(parser: Op) -> (op: Op)
        ensures
            op == Op::Repeat(Box::new(Repeat { parser, min: 0, max: 0, silent: false })),
    {
        Repeat::new(parser, 0, 0, false)
    }

    /// The parser once or more.
    pub fn positive(parser: Op) -> (op: Op)
        ensures
            op == Op::Repeat(Box::new(Repeat { parser, min: 1, max: 0, silent: false })),
    {
        Repeat::new(parser, 1, 0, false)
    }

    /// The parser once or not at all.
    pub fn optional(parser: Op) -> (op: Op)
        ensures
            op == Op::Repeat(Box::new(Repeat { parser, min: 0, max: 1, silent: false })),
    {
        Repeat::new(parser, 0, 1, false)
    }

    /// The parser any number of times, keeping no captures.
    pub fn kleene_silent(parser: Op) -> (op: Op)
        ensures
            op == Op::Repeat(Box::new(Repeat { parser, min: 0, max: 0, silent: true })),
    {
        Repeat::new(parser, 0, 0, true)
    }

    /// The parser once or more, keeping no captures.
    pub fn positive_silent(parser: Op) -> (op: Op)
        ensures
            op == Op::Repeat(Box::new(Repeat { parser, min: 1, max: 0, silent: true })),
    {
        Repeat::new(parser, 1, 0, true)
    }

    /// The parser once or not at all, keeping no captures.
    pub fn optional_silent(parser: Op) -> (op: Op)
        ensures
            op == Op::Repeat(Box::new(Repeat { parser, min: 0, max: 1, silent: true })),
    {
        Repeat::new(parser, 0, 1, true)
    }
}

impl Sequence {
    /// The sequence of these items, each with its alias where it has one.
    pub fn new(items: Vec<(Op, Option<String>)>) -> (op: Op)
        ensures
            op == Op::Sequence(Sequence { leftrec: false, nullable: true, items }),
    {
        Sequence { leftrec: false, nullable: true, items }.into_op()
    }
}

impl Block {
    /// The block of these alternatives, none marked as left-recursive yet, with the identity 0.
    pub fn new(items: Vec<Op>) -> (op: Op)
        ensures
            op matches Op::Block(block) && block.id == 0 && !block.leftrec && !block.all_leftrec
                && block.items@.len() == items@.len() && forall|i: int|
                0 <= i < items@.len() ==> #[trigger] block.items@[i] == (items@[i], false),
    {
        Block::with_id(0, items)
    }

    /// The block of these alternatives with the identity `id`.
    pub fn with_id(id: usize, items: Vec<Op>) -> (op: Op)
        ensures
            op matches Op::Block(block) && block.id == id && !block.leftrec && !block.all_leftrec
                && block.items@.len() == items@.len() && forall|i: int|
                0 <= i < items@.len() ==> #[trigger] block.items@[i] == (items@[i], false),
    {
        let mut marked: Vec<(Op, bool)> = Vec::new();
        let ghost all = items@;
        for item in it: items
            invariant
                it.seq() == all,
                marked@.len() == it.history().len(),
                forall|i: int|
                    0 <= i < marked@.len() ==> #[trigger] marked@[i] == (it.history()[i], false),
        {
            marked.push((item, false));
        }
        Block { id, leftrec: false, all_leftrec: false, items: marked }.into_op()
    }
}

} // verus!
