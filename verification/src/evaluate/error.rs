//! What can go wrong while the evaluator runs.

use vstd::prelude::*;
use crate::object::builtin::{ExecutionError, ExecutionErrorView};

verus! {

/// A runtime error of the evaluator. Evaluation stops at the first one.
/// Texts name kinds of values, as in `INTEGER + BOOLEAN`.
#[derive(Debug, PartialEq)]
pub enum Error {
    TypeMismatch(String),
    UnknownOperator(String),
    UnknownIdentifier(String),
    NotAFunction(String),
    IndexOperatorNotSupported(String, String),
    NotHashable(String),
    WrongNumberOfArguments { expected: usize, got: usize },
    DivisionByZero,
    /// Too many calls are in progress.
    StackOverflow,
    /// A function refers to an environment that this evaluator does not own.
    UnknownEnvironment,
}

/// The mathematical value of an [`Error`].
pub enum ErrorView {
    TypeMismatch(Seq<char>),
    UnknownOperator(Seq<char>),
    UnknownIdentifier(Seq<char>),
    NotAFunction(Seq<char>),
    IndexOperatorNotSupported(Seq<char>, Seq<char>),
    NotHashable(Seq<char>),
    WrongNumberOfArguments { expected: nat, got: nat },
    DivisionByZero,
    StackOverflow,
    UnknownEnvironment,
}

/// The error of the evaluator for a failure of a built-in function.
pub open spec fn builtin_error(error: ExecutionErrorView) -> ErrorView {
    match error {
        ExecutionErrorView::TypeMismatch(kind) => ErrorView::TypeMismatch(kind),
        ExecutionErrorView::WrongNumberOfArguments { expected, got } => {
            ErrorView::WrongNumberOfArguments { expected, got }
        },
    }
}

impl View for Error {
    type V = ErrorView;

    open spec fn view(&self) -> ErrorView {
        match self {
            Error::TypeMismatch(text) => ErrorView::TypeMismatch(text@),
            Error::UnknownOperator(text) => ErrorView::UnknownOperator(text@),
            Error::UnknownIdentifier(name) => ErrorView::UnknownIdentifier(name@),
            Error::NotAFunction(kind) => ErrorView::NotAFunction(kind@),
            Error::IndexOperatorNotSupported(container, index) => {
                ErrorView::IndexOperatorNotSupported(container@, index@)
            },
            Error::NotHashable(kind) => ErrorView::NotHashable(kind@),
            Error::WrongNumberOfArguments { expected, got } => ErrorView::WrongNumberOfArguments {
                expected: *expected as nat,
                got: *got as nat,
            },
            Error::DivisionByZero => ErrorView::DivisionByZero,
            Error::StackOverflow => ErrorView::StackOverflow,
            Error::UnknownEnvironment => ErrorView::UnknownEnvironment,
        }
    }
}

impl Error {
    /// The error of the evaluator for a failure of a built-in function.
    pub fn from_builtin(error: ExecutionError) -> (r: Error)
        ensures
            r@ == builtin_error(error@),
    {
        match error {
            ExecutionError::TypeMismatch(kind) => Error::TypeMismatch(kind),
            ExecutionError::WrongNumberOfArguments { expected, got } => {
                Error::WrongNumberOfArguments { expected, got }
            },
        }
    }
}

} // verus!
