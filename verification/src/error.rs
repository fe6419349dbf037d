//! Errors: a message, and the place in the input it refers to where that is known.

use vstd::prelude::*;
use vstd::string::*;

use crate::reader::Offset;
use crate::text::{digits_of, push_digits};

verus! {

/// An error of a program's compilation or run.
#[derive(Debug, PartialEq, Eq)]
pub struct Error {
    pub offset: Option<Offset>,
    pub message: String,
}

/// The mathematical content of an [`Error`].
pub struct ErrorModel {
    pub offset: Option<Offset>,
    pub message: Seq<char>,
}

impl View for Error {
    type V = ErrorModel;

    open spec fn view(&self) -> ErrorModel {
        ErrorModel { offset: self.offset, message: self.message@ }
    }
}

/// An error as it is shown: the message, after its line and column where they are known.
pub open spec fn rendered(error: ErrorModel) -> Seq<char> {
    match error.offset {
        Some(offset) => "Line "@ + digits_of(offset.row as nat) + ", column "@ + digits_of(
            offset.col as nat,
        ) + ": "@ + error.message,
        None => error.message,
    }
}

impl Error {
    /// An error with a message and, where it is known, its place.
    pub fn new(offset: Option<Offset>, message: String) -> (error: Error)
        ensures
            error.offset == offset,
            error.message == message,
            error@ == (ErrorModel { offset, message: message@ }),
    {
        Error { offset, message }
    }

    /// An error with a message and no place.
    pub fn from_message(message: &str) -> (error: Error)
        ensures
            error@ == (ErrorModel { offset: None, message: message@ }),
    {
        Error { offset: None, message: String::from_str(message) }
    }

    /// Gives the error a place where it has none yet.
    pub fn patch_offset(&mut self, offset: Offset)
        ensures
            final(self).message == old(self).message,
            final(self).offset == match old(self).offset {
                Some(known) => Some(known),
                None => Some(offset),
            },
    {
        if self.offset.is_none() {
            self.offset = Some(offset);
        }
    }

    /// The error as it is shown.
    pub fn to_string(&self) -> (text: String)
        ensures
            text@ == rendered(self@),
    {
        match self.offset {
            Some(offset) => {
                let mut text = String::from_str("Line ");
                push_digits(&mut text, offset.row as u64);
                text.append(", column ");
                push_digits(&mut text, offset.col as u64);
                text.append(": ");
                text.append(self.message.as_str());
                assert(text@ =~= rendered(self@));
                text
            },
            None => self.message.clone(),
        }
    }
}

impl Clone for Error {
    fn clone(&self) -> (copy: Error)
        ensures
            copy@ == self@,
    {
        Error { offset: self.offset, message: self.message.clone() }
    }
}

} // verus!
