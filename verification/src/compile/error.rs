//! What can go wrong while compiling.

use vstd::prelude::*;

verus! {

/// A compile error.
#[derive(Debug, PartialEq, Eq)]
pub enum Error {
    /// A name is used that no scope defines.
    UndefinedSymbol(String),
}

/// The mathematical value of an [`Error`].
pub enum ErrorView {
    UndefinedSymbol(Seq<char>),
}

impl View for Error {
    type V = ErrorView;

    open spec fn view(&self) -> ErrorView {
        match self {
            Error::UndefinedSymbol(name) => ErrorView::UndefinedSymbol(name@),
        }
    }
}

} // verus!
