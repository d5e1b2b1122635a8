//! Exceptions as values: the class and the message of what a call raised.

use vstd::prelude::*;
use crate::text::text;

verus! {

/// The builtin exception classes that the API raises itself.
#[derive(Clone, Copy, Debug, PartialEq, Eq, Structural)]
pub enum ExcKind {
    TypeError,
    ValueError,
    OverflowError,
    RuntimeError,
    SystemError,
    ImportError,
    BufferError,
}

/// An exception that a call set.
#[derive(Debug)]
pub struct PyError {
    pub kind: ExcKind,
    pub msg: Vec<char>,
}

/// How a call that returns NULL (or -1) failed.
#[derive(Debug)]
pub enum Failure {
    /// NULL with no exception set by the call itself.
    Silent,
    /// NULL with an exception set.
    Raised(PyError),
}

/// The mathematical content of a [`Failure`].
#[verifier::ext_equal]
pub enum FailureView {
    Silent,
    Raised(ExcKind, Seq<char>),
}

impl View for Failure {
    type V = FailureView;

    open spec fn view(&self) -> FailureView {
        match self {
            Failure::Silent => FailureView::Silent,
            Failure::Raised(e) => FailureView::Raised(e.kind, e.msg@),
        }
    }
}

/// `r` failed by raising `kind` with the message `msg`.
pub open spec fn raises<T>(r: Result<T, Failure>, kind: ExcKind, msg: Seq<char>) -> bool {
    r is Err && r->Err_0@ == FailureView::Raised(kind, msg)
}

/// `r` has the outcome `v`: the same value, or the same failure.
pub open spec fn outcome<T>(r: Result<T, Failure>, v: Result<T, FailureView>) -> bool {
    match (r, v) {
        (Ok(a), Ok(b)) => a == b,
        (Err(e), Err(f)) => e@ == f,
        _ => false,
    }
}

/// `r` failed without setting an exception.
pub open spec fn silent<T>(r: Result<T, Failure>) -> bool {
    r is Err && r->Err_0@ == FailureView::Silent
}

/// An exception of class `kind` with a message that is already built.
pub fn raise(kind: ExcKind, msg: Vec<char>) -> (r: Failure)
    ensures
        r@ == FailureView::Raised(kind, msg@),
{
    Failure::Raised(PyError { kind, msg })
}

/// An exception of class `kind` with a literal message.
pub fn raise_str(kind: ExcKind, msg: &str) -> (r: Failure)
    ensures
        r@ == FailureView::Raised(kind, msg@),
{
    Failure::Raised(PyError { kind, msg: text(msg) })
}

} // verus!
