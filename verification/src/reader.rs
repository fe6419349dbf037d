//! The input reader: a cursor over a fixed sequence of characters.
//!
//! Positions count characters from the start of the input. Rows and columns
//! are derived from a position and start at 1.

use vstd::prelude::*;
use vstd::string::*;

verus! {

/// A place in the input: the position, and the row and column it falls on.
#[derive(Clone, Copy, Debug, PartialEq, Eq, Structural)]
pub struct Offset {
    pub offset: usize,
    pub row: usize,
    pub col: usize,
}

/// A half-open span `[start, end)` of input positions.
#[derive(Clone, Copy, Debug, PartialEq, Eq, Structural)]
pub struct Range {
    pub start: usize,
    pub end: usize,
}

/// The row of position `pos`: one more than the line feeds before it.
pub open spec fn row_of(input: Seq<char>, pos: int) -> int
    decreases pos,
{
    if pos <= 0 || pos > input.len() {
        1
    } else if input[pos - 1] == '\n' {
        row_of(input, pos - 1) + 1
    } else {
        row_of(input, pos - 1)
    }
}

/// The column of position `pos`: one more than the characters since the last line feed.
pub open spec fn col_of(input: Seq<char>, pos: int) -> int
    decreases pos,
{
    if pos <= 0 || pos > input.len() {
        1
    } else if input[pos - 1] == '\n' {
        1
    } else {
        col_of(input, pos - 1) + 1
    }
}

/// The offset that belongs to position `pos` of `input`.
pub open spec fn offset_of(input: Seq<char>, pos: usize) -> Offset {
    Offset { offset: pos, row: row_of(input, pos as int) as usize, col: col_of(input, pos as int) as usize }
}

/// A position cut down to the length of the input.
pub open spec fn clamp(input: Seq<char>, pos: usize) -> usize {
    if pos <= input.len() {
        pos
    } else {
        input.len() as usize
    }
}

/// The characters that `range` covers, with both ends cut down to the input
/// and an inverted range taken as empty.
pub open spec fn slice_of(input: Seq<char>, range: Range) -> Seq<char> {
    let end = clamp(input, range.end);
    let start = if range.start <= end {
        range.start
    } else {
        end
    };
    input.subrange(start as int, end as int)
}

/// The span from `start` up to `pos`; a start beyond `pos` gives the empty span at `pos`.
pub open spec fn range_from(start: usize, pos: usize) -> Range {
    Range { start: if start <= pos { start } else { pos }, end: pos }
}

/// The span of the `n` positions before `pos`, or of all of them where there are fewer.
pub open spec fn range_last(n: usize, pos: usize) -> Range {
    Range { start: if n <= pos { (pos - n) as usize } else { 0 }, end: pos }
}

pub proof fn lemma_row_col_bounds(input: Seq<char>, pos: int)
    ensures
        1 <= row_of(input, pos) <= pos + 1 || pos < 0,
        1 <= col_of(input, pos) <= pos + 1 || pos < 0,
        1 <= row_of(input, pos),
        1 <= col_of(input, pos),
    decreases pos,
{
    if pos > 0 && pos <= input.len() {
        lemma_row_col_bounds(input, pos - 1);
    }
}

pub struct Reader {
    buffer: Vec<char>,
    text: String,
    position: usize,
}

impl Reader {
    /// The whole input.
    pub closed spec fn input(&self) -> Seq<char> {
        self.buffer@
    }

    /// The current position.
    pub closed spec fn pos(&self) -> usize {
        self.position
    }

    /// The position lies within the input, and the input is short enough to count rows in.
    pub closed spec fn wf(&self) -> bool {
        &&& self.position <= self.buffer@.len()
        &&& self.buffer@.len() < usize::MAX
        &&& self.text@ == self.buffer@
    }

    pub proof fn lemma_wf(&self)
        requires
            self.wf(),
        ensures
            self.pos() <= self.input().len() < usize::MAX,
    {
    }

    /// A reader at the start of `input`.
    pub fn new(input: &str) -> (reader: Reader)
        requires
            input@.len() < usize::MAX,
        ensures
            reader.wf(),
            reader.input() == input@,
            reader.pos() == 0,
    {
        let mut buffer: Vec<char> = Vec::new();
        for ch in it: input.chars()
            invariant
                buffer@ == it.history(),
                it.seq() == input@,
        {
            buffer.push(ch);
        }
        assert(buffer@ =~= input@);
        Reader { buffer, text: String::from_str(input), position: 0 }
    }

    /// The current position.
    pub fn position(&self) -> (pos: usize)
        ensures
            pos == self.pos(),
    {
        self.position
    }

    /// The number of characters in the input.
    pub fn len(&self) -> (len: usize)
        ensures
            len == self.input().len(),
    {
        self.buffer.len()
    }

    /// The current position with its row and column.
    pub fn tell(&self) -> (offset: Offset)
        requires
            self.wf(),
        ensures
            offset == offset_of(self.input(), self.pos()),
    {
        let mut row: usize = 1;
        let mut col: usize = 1;
        let mut i: usize = 0;
        while i < self.position
            invariant
                self.wf(),
                i <= self.position,
                row == row_of(self.buffer@, i as int),
                col == col_of(self.buffer@, i as int),
            decreases self.position - i,
        {
            proof {
                lemma_row_col_bounds(self.buffer@, i as int);
            }
            if self.buffer[i] == '\n' {
                row = row + 1;
                col = 1;
            } else {
                col = col + 1;
            }
            i = i + 1;
        }
        Offset { offset: self.position, row, col }
    }

    /// Moves to `position`, or to the end of the input where `position` lies beyond it.
    pub fn reset(&mut self, position: usize)
        requires
            old(self).wf(),
        ensures
            final(self).wf(),
            final(self).input() == old(self).input(),
            final(self).pos() == clamp(old(self).input(), position),
    {
        if position <= self.buffer.len() {
            self.position = position;
        } else {
            self.position = self.buffer.len();
        }
    }

    /// The character at the current position, if the input has not ended.
    pub fn peek(&self) -> (ch: Option<char>)
        requires
            self.wf(),
        ensures
            ch == if self.pos() < self.input().len() {
                Some(self.input()[self.pos() as int])
            } else {
                None
            },
    {
        if self.position < self.buffer.len() {
            Some(self.buffer[self.position])
        } else {
            None
        }
    }

    /// Takes the character at the current position and moves past it.
    pub fn next(&mut self) -> (ch: Option<char>)
        requires
            old(self).wf(),
        ensures
            final(self).wf(),
            final(self).input() == old(self).input(),
            old(self).pos() < old(self).input().len() ==> ch == Some(
                old(self).input()[old(self).pos() as int],
            ) && final(self).pos() == old(self).pos() + 1,
            old(self).pos() >= old(self).input().len() ==> ch is None && final(self).pos() == old(
                self,
            ).pos(),
    {
        if self.position < self.buffer.len() {
            let ch = self.buffer[self.position];
            self.position = self.position + 1;
            Some(ch)
        } else {
            None
        }
    }

    /// Whether the input has ended.
    pub fn eof(&self) -> (end: bool)
        requires
            self.wf(),
        ensures
            end == (self.pos() >= self.input().len()),
    {
        self.position >= self.buffer.len()
    }

    /// The span from `start` to the current position.
    pub fn capture_from(&self, start: usize) -> (range: Range)
        ensures
            range == range_from(start, self.pos()),
    {
        Range { start: if start <= self.position { start } else { self.position }, end: self.position }
    }

    /// The span of the last `n` positions before the current one.
    pub fn capture_last(&self, n: usize) -> (range: Range)
        ensures
            range == range_last(n, self.pos()),
    {
        Range { start: if n <= self.position { self.position - n } else { 0 }, end: self.position }
    }

    /// The text that `range` covers.
    pub fn extract(&self, range: &Range) -> (text: String)
        requires
            self.wf(),
        ensures
            text@ == slice_of(self.input(), *range),
    {
        let len = self.buffer.len();
        let end = if range.end <= len { range.end } else { len };
        let start = if range.start <= end { range.start } else { end };
        String::from_str(self.text.as_str().substring_char(start, end))
    }
}

} // verus!
