//! What can go wrong while the virtual machine runs.

use vstd::prelude::*;
use crate::code::Instruction;
use crate::object::builtin::{ExecutionError, ExecutionErrorView};
use crate::object::DataType;

verus! {

/// A runtime error of the virtual machine. The run stops at the first one.
#[derive(Debug, PartialEq)]
pub enum Error {
    /// The value stack or the frame stack is full.
    StackOverflow,
    UnknownBinaryOperator(Instruction, DataType, DataType),
    UnsupportedNegationType(DataType),
    UnhashableKey(DataType),
    IndexOperatorNotSupported(DataType, DataType),
    /// A value that is neither a closure nor a built-in function was called.
    NotCallable(DataType),
    /// A closure was asked of a constant that is no compiled function.
    NotAFunction(DataType),
    WrongNumberOfArguments { want: usize, got: usize },
    BuiltinFunction { source: ExecutionError },
    DivisionByZero,
    /// An instruction asks for what is not there: a value below the bottom
    /// of the stack, a constant, a captured value or a built-in function
    /// that does not exist, a slot beyond the stack, a return from the top
    /// level.
    InvalidBytecode,
    /// The run took more steps than the machine allows.
    StepLimitExceeded,
}

/// The mathematical value of an [`Error`].
pub enum ErrorView {
    StackOverflow,
    UnknownBinaryOperator(Instruction, DataType, DataType),
    UnsupportedNegationType(DataType),
    UnhashableKey(DataType),
    IndexOperatorNotSupported(DataType, DataType),
    NotCallable(DataType),
    NotAFunction(DataType),
    WrongNumberOfArguments { want: nat, got: nat },
    BuiltinFunction { source: ExecutionErrorView },
    DivisionByZero,
    InvalidBytecode,
    StepLimitExceeded,
}

impl View for Error {
    type V = ErrorView;

    open spec fn view(&self) -> ErrorView {
        match self {
            Error::StackOverflow => ErrorView::StackOverflow,
            Error::UnknownBinaryOperator(instruction, left, right) => {
                ErrorView::UnknownBinaryOperator(*instruction, *left, *right)
            },
            Error::UnsupportedNegationType(kind) => ErrorView::UnsupportedNegationType(*kind),
            Error::UnhashableKey(kind) => ErrorView::UnhashableKey(*kind),
            Error::IndexOperatorNotSupported(container, index) => {
                ErrorView::IndexOperatorNotSupported(*container, *index)
            },
            Error::NotCallable(kind) => ErrorView::NotCallable(*kind),
            Error::NotAFunction(kind) => ErrorView::NotAFunction(*kind),
            Error::WrongNumberOfArguments { want, got } => ErrorView::WrongNumberOfArguments {
                want: *want as nat,
                got: *got as nat,
            },
            Error::BuiltinFunction { source } => ErrorView::BuiltinFunction { source: source@ },
            Error::DivisionByZero => ErrorView::DivisionByZero,
            Error::InvalidBytecode => ErrorView::InvalidBytecode,
            Error::StepLimitExceeded => ErrorView::StepLimitExceeded,
        }
    }
}

} // verus!
