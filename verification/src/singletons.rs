//! The objects that exist once: `None`, `True`, `False`, `NotImplemented` and
//! `Ellipsis`. They are immortal.

use vstd::prelude::*;
use crate::object::{PyObject, IMMORTAL_REFCNT};

verus! {

/// A singleton without a body: the address that C code sees, and its head.
#[derive(Clone, Copy, Debug, PartialEq, Eq, Structural)]
pub struct Singleton {
    pub addr: usize,
    pub head: PyObject,
}

impl Singleton {
    /// An immortal singleton whose type is not known yet.
    pub fn new(addr: usize) -> (r: Singleton)
        ensures
            r.addr == addr,
            r.head.ob_refcnt == IMMORTAL_REFCNT,
            r.head.ob_type == 0,
    {
        Singleton { addr, head: PyObject { ob_refcnt: IMMORTAL_REFCNT, ob_type: 0 } }
    }

    /// The address handed to C code.
    pub fn as_ptr(&self) -> (r: usize)
        ensures
            r == self.addr,
    {
        self.addr
    }
}

/// The sign tag of a positive integer.
pub const PYLONG_SIGN_POSITIVE: usize = 0;

/// The sign tag of zero.
pub const PYLONG_SIGN_ZERO: usize = 1;

/// The sign tag of a negative integer.
pub const PYLONG_SIGN_NEGATIVE: usize = 2;

/// One digit, in the units of an integer's tag.
pub const PYLONG_ONE_DIGIT: usize = 8;

/// `True` or `False`: an integer body with at most one digit.
#[derive(Clone, Copy, Debug, PartialEq, Eq, Structural)]
pub struct BoolSingleton {
    pub addr: usize,
    pub head: PyObject,
    pub lv_tag: usize,
    pub ob_digit: u32,
}

impl BoolSingleton {
    /// The singleton of a truth value: `False` is the integer zero (no digits),
    /// `True` is one positive digit.
    pub fn new(addr: usize, value: u32) -> (r: BoolSingleton)
        ensures
            r.addr == addr,
            r.head.ob_refcnt == IMMORTAL_REFCNT,
            r.head.ob_type == 0,
            r.ob_digit == value,
            r.lv_tag == (if value == 0 {
                PYLONG_SIGN_ZERO
            } else {
                (PYLONG_ONE_DIGIT + PYLONG_SIGN_POSITIVE) as usize
            }),
    {
        let lv_tag: usize = if value == 0 {
            PYLONG_SIGN_ZERO
        } else {
            PYLONG_ONE_DIGIT + PYLONG_SIGN_POSITIVE
        };
        BoolSingleton {
            addr,
            head: PyObject { ob_refcnt: IMMORTAL_REFCNT, ob_type: 0 },
            lv_tag,
            ob_digit: value,
        }
    }

    /// The address handed to C code.
    pub fn as_ptr(&self) -> (r: usize)
        ensures
            r == self.addr,
    {
        self.addr
    }
}

/// The five singletons.
#[derive(Clone, Copy, Debug, PartialEq, Eq, Structural)]
pub struct Singletons {
    pub none: Singleton,
    pub tru: BoolSingleton,
    pub fals: BoolSingleton,
    pub not_implemented: Singleton,
    pub ellipsis: Singleton,
}

impl Singletons {
    /// Every count is the mark of immortal objects.
    pub open spec fn immortal(&self) -> bool {
        &&& self.none.head.ob_refcnt == IMMORTAL_REFCNT
        &&& self.tru.head.ob_refcnt == IMMORTAL_REFCNT
        &&& self.fals.head.ob_refcnt == IMMORTAL_REFCNT
        &&& self.not_implemented.head.ob_refcnt == IMMORTAL_REFCNT
        &&& self.ellipsis.head.ob_refcnt == IMMORTAL_REFCNT
    }

    /// The addresses are distinct and none is NULL.
    pub open spec fn wf(&self) -> bool {
        &&& self.none.addr != 0
        &&& self.tru.addr != 0
        &&& self.fals.addr != 0
        &&& self.not_implemented.addr != 0
        &&& self.ellipsis.addr != 0
        &&& self.none.addr != self.tru.addr
        &&& self.none.addr != self.fals.addr
        &&& self.none.addr != self.not_implemented.addr
        &&& self.none.addr != self.ellipsis.addr
        &&& self.tru.addr != self.fals.addr
        &&& self.tru.addr != self.not_implemented.addr
        &&& self.tru.addr != self.ellipsis.addr
        &&& self.fals.addr != self.not_implemented.addr
        &&& self.fals.addr != self.ellipsis.addr
        &&& self.not_implemented.addr != self.ellipsis.addr
    }
}

/// Give every singleton its type. Doing so again is harmless.
pub fn init_singleton_types(
    s: &mut Singletons,
    none_ty: usize,
    bool_ty: usize,
    not_impl_ty: usize,
    ellipsis_ty: usize,
)
    ensures
        final(s).none == (Singleton {
            head: PyObject { ob_type: none_ty, ..old(s).none.head },
            ..old(s).none
        }),
        final(s).tru == (BoolSingleton {
            head: PyObject { ob_type: bool_ty, ..old(s).tru.head },
            ..old(s).tru
        }),
        final(s).fals == (BoolSingleton {
            head: PyObject { ob_type: bool_ty, ..old(s).fals.head },
            ..old(s).fals
        }),
        final(s).not_implemented == (Singleton {
            head: PyObject { ob_type: not_impl_ty, ..old(s).not_implemented.head },
            ..old(s).not_implemented
        }),
        final(s).ellipsis == (Singleton {
            head: PyObject { ob_type: ellipsis_ty, ..old(s).ellipsis.head },
            ..old(s).ellipsis
        }),
{
    s.none.head.ob_type = none_ty;
    s.tru.head.ob_type = bool_ty;
    s.fals.head.ob_type = bool_ty;
    s.not_implemented.head.ob_type = not_impl_ty;
    s.ellipsis.head.ob_type = ellipsis_ty;
}

/// The address of `None`.
pub fn none_ptr(s: &Singletons) -> (r: usize)
    ensures
        r == s.none.addr,
{
    s.none.as_ptr()
}

/// The address of `True`.
pub fn true_ptr(s: &Singletons) -> (r: usize)
    ensures
        r == s.tru.addr,
{
    s.tru.as_ptr()
}

/// The address of `False`.
pub fn false_ptr(s: &Singletons) -> (r: usize)
    ensures
        r == s.fals.addr,
{
    s.fals.as_ptr()
}

/// The address of `NotImplemented`.
pub fn not_implemented_ptr(s: &Singletons) -> (r: usize)
    ensures
        r == s.not_implemented.addr,
{
    s.not_implemented.as_ptr()
}

/// The address of `Ellipsis`.
pub fn ellipsis_ptr(s: &Singletons) -> (r: usize)
    ensures
        r == s.ellipsis.addr,
{
    s.ellipsis.as_ptr()
}

/// The cell that publishes the running interpreter; zero where none runs.
#[derive(Clone, Copy, Debug, PartialEq, Eq, Structural)]
pub struct InterpreterCell {
    pub current: usize,
}

impl InterpreterCell {
    /// No interpreter runs yet.
    pub fn new() -> (r: InterpreterCell)
        ensures
            r.current == 0,
    {
        InterpreterCell { current: 0 }
    }
}

/// The running interpreter.
pub fn current_interpreter(c: &InterpreterCell) -> (r: usize)
    ensures
        r == c.current,
{
    c.current
}

/// Publish the running interpreter.
pub fn set_current_interpreter(c: &mut InterpreterCell, p: usize)
    ensures
        final(c).current == p,
{
    c.current = p;
}

} // verus!
