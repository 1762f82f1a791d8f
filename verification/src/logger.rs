//! Diagnostics as plain values. Nothing here prints: an error is built,
//! returned, and rendered by whoever owns the terminal.

use crate::helpers::Pos;
use vstd::prelude::*;

verus! {

/// What went wrong.
#[derive(Debug, Clone, Copy, PartialEq, Eq, Structural)]
pub enum ErrorType {
    /// Two constraints on one type variable cannot both hold.
    TypeMismatch,
    /// A type variable has no solution.
    CannotInfer,
    /// Several declarations fit a call whose return type was left out.
    CannotInferReturnType,
    /// A literal was given a type that its lexical kind does not allow.
    BadLiteralType,
    /// The mangled key of a declaration is already taken.
    DuplicateSymbol,
    /// The signature holds something the mangling grammar has no form for,
    /// or a type that nests too deep.
    NotManglable,
    /// A text handed to the demangler is not framed as the grammar asks.
    MalformedMangledName,
}

/// How severe a message, or one of its annotations, is shown to be.
#[derive(Debug, Clone, Copy, PartialEq, Eq, Structural)]
pub enum ErrorDisplayType {
    Info,
    Warning,
    Error,
}

/// The priority class of an error within one batch. When a batch mixes
/// classes, only the errors of the highest class present are reported.
#[derive(Debug, Clone, Copy, PartialEq, Eq, Structural)]
pub enum ErrorLevel {
    NonExistentVar,
    NonExistentFunc,
    NonExistentType,
    TypeError,
    CoreError,
}

impl ErrorLevel {
    /// The rank of the class; a higher rank suppresses lower ones.
    pub open spec fn rank(self) -> nat {
        match self {
            ErrorLevel::NonExistentVar => 0,
            ErrorLevel::NonExistentFunc => 1,
            ErrorLevel::NonExistentType => 2,
            ErrorLevel::TypeError => 3,
            ErrorLevel::CoreError => 4,
        }
    }

    pub fn priority(&self) -> (p: usize)
        ensures
            p == self.rank(),
    {
        match self {
            ErrorLevel::NonExistentVar => 0,
            ErrorLevel::NonExistentFunc => 1,
            ErrorLevel::NonExistentType => 2,
            ErrorLevel::TypeError => 3,
            ErrorLevel::CoreError => 4,
        }
    }
}

/// A note attached to an error: an optional message about one source range.
#[derive(Debug, PartialEq, Eq)]
pub struct ErrorAnnotation {
    pub message: Option<String>,
    pub position: Pos,
    pub mode: ErrorDisplayType,
}

/// The mathematical content of an [`ErrorAnnotation`].
pub ghost struct ErrorAnnotationView {
    pub message: Option<Seq<char>>,
    pub position: Pos,
    pub mode: ErrorDisplayType,
}

impl View for ErrorAnnotation {
    type V = ErrorAnnotationView;

    open spec fn view(&self) -> ErrorAnnotationView {
        ErrorAnnotationView {
            message: match self.message {
                Some(m) => Some(m@),
                None => None,
            },
            position: self.position,
            mode: self.mode,
        }
    }
}

impl ErrorAnnotation {
    pub fn new(message: Option<String>, position: Pos, mode: ErrorDisplayType) -> (a: Self)
        ensures
            a.message == message,
            a.position == position,
            a.mode == mode,
    {
        ErrorAnnotation { message, position, mode }
    }
}

/// One diagnostic: a message, its kind, the range that triggered it, a
/// severity, and any number of annotated ranges.
#[derive(Debug, PartialEq, Eq)]
pub struct ErrorValue {
    pub message: String,
    pub error: ErrorType,
    pub position: Pos,
    pub mode: ErrorDisplayType,
    pub annotations: Vec<ErrorAnnotation>,
}

/// The mathematical content of an [`ErrorValue`].
pub ghost struct ErrorValueView {
    pub message: Seq<char>,
    pub error: ErrorType,
    pub position: Pos,
    pub mode: ErrorDisplayType,
    pub annotations: Seq<ErrorAnnotationView>,
}

impl View for ErrorValue {
    type V = ErrorValueView;

    open spec fn view(&self) -> ErrorValueView {
        ErrorValueView {
            message: self.message@,
            error: self.error,
            position: self.position,
            mode: self.mode,
            annotations: self.annotations@.map_values(|a: ErrorAnnotation| a@),
        }
    }
}

impl Clone for ErrorAnnotation {
    fn clone(&self) -> (copy: Self)
        ensures
            copy@ == self@,
    {
        ErrorAnnotation {
            message: match &self.message {
                Some(m) => Some(m.clone()),
                None => None,
            },
            position: self.position,
            mode: self.mode,
        }
    }
}

impl Clone for ErrorValue {
    fn clone(&self) -> (copy: Self)
        ensures
            copy@ == self@,
    {
        let mut annotations: Vec<ErrorAnnotation> = Vec::new();
        let mut i: usize = 0;
        while i < self.annotations.len()
            invariant
                i <= self.annotations.len(),
                annotations@.len() == i,
                forall|j: int| 0 <= j < i ==> annotations@[j]@ == self.annotations@[j]@,
            decreases self.annotations.len() - i,
        {
            annotations.push(self.annotations[i].clone());
            i += 1;
        }
        assert(annotations@.map_values(|a: ErrorAnnotation| a@) =~= self.annotations@.map_values(
            |a: ErrorAnnotation| a@,
        ));
        ErrorValue {
            message: self.message.clone(),
            error: self.error,
            position: self.position,
            mode: self.mode,
            annotations,
        }
    }
}

/// The views of a run of errors, in order.
pub open spec fn error_views(errors: Seq<ErrorValue>) -> Seq<ErrorValueView> {
    errors.map_values(|e: ErrorValue| e@)
}

impl ErrorValue {
    pub fn new(
        message: String,
        error: ErrorType,
        position: Pos,
        mode: ErrorDisplayType,
        annotations: Vec<ErrorAnnotation>,
    ) -> (e: Self)
        ensures
            e.message == message,
            e.error == error,
            e.position == position,
            e.mode == mode,
            e.annotations == annotations,
    {
        ErrorValue { message, error, position, mode, annotations }
    }
}

} // verus!
