//! Captures, and the outcomes of running an operation.

use vstd::prelude::*;
use vstd::string::*;

use crate::error::{Error, ErrorModel};
use crate::reader::{slice_of, Range};
use crate::runtime::Runtime;
use crate::value::{Value, ValueModel};

verus! {

/// An entry of the capture stack.
#[derive(Debug, PartialEq, Eq)]
pub enum Capture {
    /// A placeholder, passed over when captures are collected.
    Empty,
    /// A span of matched input, and its severity.
    Range(Range, u8),
    /// A value, and its severity.
    Value(Value, u8),
    /// A capture under a name.
    Named(Box<Capture>, String),
}

/// The mathematical content of a [`Capture`].
pub enum CaptureModel {
    Empty,
    Range(Range, u8),
    Value(ValueModel, u8),
    Named(Box<CaptureModel>, Seq<char>),
}

/// A success.
#[derive(Debug, PartialEq, Eq)]
pub enum Accept {
    /// Go on; nothing was captured.
    Next,
    /// Succeed at the enclosing parselet and keep no captures.
    Skip,
    /// Succeed with one capture for the caller's stack.
    Push(Capture),
    /// One round of a main loop is done; its value, if any, joins the results.
    Repeat(Option<Value>),
    /// Leave the enclosing parselet with this value.
    Return(Option<Value>),
}

/// A failure.
#[derive(Debug, PartialEq, Eq)]
pub enum Reject {
    /// A local failure: backtrack and try the next alternative.
    Next,
    /// Leave the enclosing parselet as failed.
    Return,
    /// Leave every parselet but the main one.
    Main,
    /// A hard error, handed up unchanged.
    Error(Error),
}

pub enum AcceptModel {
    Next,
    Skip,
    Push(CaptureModel),
    Repeat(Option<ValueModel>),
    Return(Option<ValueModel>),
}

pub enum RejectModel {
    Next,
    Return,
    Main,
    Error(ErrorModel),
}

/// What running an operation gives, as mathematics.
pub type Outcome = Result<AcceptModel, RejectModel>;

impl Capture {
    pub open spec fn model(self) -> CaptureModel
        decreases self,
    {
        match self {
            Capture::Empty => CaptureModel::Empty,
            Capture::Range(range, severity) => CaptureModel::Range(range, severity),
            Capture::Value(value, severity) => CaptureModel::Value(value@, severity),
            Capture::Named(capture, name) => CaptureModel::Named(Box::new((*capture).model()), name@),
        }
    }
}

impl View for Capture {
    type V = CaptureModel;

    open spec fn view(&self) -> CaptureModel {
        self.model()
    }
}

/// The model of a value that may be absent.
pub open spec fn option_model(value: Option<Value>) -> Option<ValueModel> {
    match value {
        Some(v) => Some(v@),
        None => None,
    }
}

impl View for Accept {
    type V = AcceptModel;

    open spec fn view(&self) -> AcceptModel {
        match self {
            Accept::Next => AcceptModel::Next,
            Accept::Skip => AcceptModel::Skip,
            Accept::Push(capture) => AcceptModel::Push(capture@),
            Accept::Repeat(value) => AcceptModel::Repeat(option_model(*value)),
            Accept::Return(value) => AcceptModel::Return(option_model(*value)),
        }
    }
}

impl View for Reject {
    type V = RejectModel;

    open spec fn view(&self) -> RejectModel {
        match self {
            Reject::Next => RejectModel::Next,
            Reject::Return => RejectModel::Return,
            Reject::Main => RejectModel::Main,
            Reject::Error(error) => RejectModel::Error(error@),
        }
    }
}

/// The model of an outcome.
pub open spec fn outcome_of(result: Result<Accept, Reject>) -> Outcome {
    match result {
        Ok(accept) => Ok(accept@),
        Err(reject) => Err(reject@),
    }
}

/// The models of the captures of a stack.
pub open spec fn capture_models(stack: Seq<Capture>) -> Seq<CaptureModel> {
    Seq::new(stack.len(), |i: int| stack[i]@)
}

/// The value that a capture stands for: void for a placeholder, the matched
/// text for a span, the value itself, and for a named capture what it names.
pub open spec fn value_of(capture: CaptureModel, input: Seq<char>) -> ValueModel
    decreases capture,
{
    match capture {
        CaptureModel::Empty => ValueModel::Void,
        CaptureModel::Range(range, _) => ValueModel::Str(slice_of(input, range)),
        CaptureModel::Value(value, _) => value,
        CaptureModel::Named(inner, _) => value_of(*inner, input),
    }
}

impl Capture {
    /// The value that the capture stands for, read from the input of `runtime`.
    pub fn as_value(&self, runtime: &Runtime) -> (value: Value)
        requires
            runtime.wf(),
        ensures
            value@ == value_of(self@, runtime.input()),
        decreases self,
    {
        match self {
            Capture::Empty => Value::Void,
            Capture::Range(range, _) => Value::Str(runtime.reader.extract(range)),
            Capture::Value(value, _) => value.clone(),
            Capture::Named(capture, _) => capture.as_value(runtime),
        }
    }
}

impl Clone for Capture {
    fn clone(&self) -> (copy: Capture)
        ensures
            copy@ == self@,
        decreases self,
    {
        match self {
            Capture::Empty => Capture::Empty,
            Capture::Range(range, severity) => Capture::Range(*range, *severity),
            Capture::Value(value, severity) => Capture::Value(value.clone(), *severity),
            Capture::Named(capture, name) => {
                let inner: Capture = (**capture).clone();
                Capture::Named(Box::new(inner), name.clone())
            },
        }
    }
}

/// A copy of a value that may be absent.
pub fn clone_option(value: &Option<Value>) -> (copy: Option<Value>)
    ensures
        option_model(copy) == option_model(*value),
{
    match value {
        Some(v) => Some(v.clone()),
        None => None,
    }
}

impl Clone for Accept {
    fn clone(&self) -> (copy: Accept)
        ensures
            copy@ == self@,
    {
        match self {
            Accept::Next => Accept::Next,
            Accept::Skip => Accept::Skip,
            Accept::Push(capture) => Accept::Push(capture.clone()),
            Accept::Repeat(value) => Accept::Repeat(clone_option(value)),
            Accept::Return(value) => Accept::Return(clone_option(value)),
        }
    }
}

impl Clone for Reject {
    fn clone(&self) -> (copy: Reject)
        ensures
            copy@ == self@,
    {
        match self {
            Reject::Next => Reject::Next,
            Reject::Return => Reject::Return,
            Reject::Main => Reject::Main,
            Reject::Error(error) => Reject::Error(error.clone()),
        }
    }
}

/// A copy of an outcome.
pub fn clone_result(result: &Result<Accept, Reject>) -> (copy: Result<Accept, Reject>)
    ensures
        outcome_of(copy) == outcome_of(*result),
{
    match result {
        Ok(accept) => Ok(accept.clone()),
        Err(reject) => Err(reject.clone()),
    }
}

} // verus!
