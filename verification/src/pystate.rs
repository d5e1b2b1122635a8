//! The thread state: a byte block with its fields at CPython's offsets, and
//! thread-specific storage keys.

use vstd::prelude::*;
use crate::bytes;
use crate::bytes::{put_u32, put_u64};

verus! {

/// Where the interpreter pointer stands.
pub const OFF_INTERP: usize = 16;

/// Where the remaining C recursion budget stands.
pub const OFF_C_RECURSION_REMAINING: usize = 52;

/// Where the pending exception stands.
pub const OFF_CURRENT_EXCEPTION: usize = 112;

/// Where the pointer to the handled-exception item stands.
pub const OFF_EXC_INFO: usize = 120;

/// Where the nesting count of the lock guards stands.
pub const OFF_GILSTATE_COUNTER: usize = 136;

/// Where the list of objects to free later stands.
pub const OFF_DELETE_LATER: usize = 168;

/// The C recursion budget of a new thread.
pub const C_RECURSION_BUDGET: u32 = 4000;

/// The size of the block.
pub const TS_BYTES: usize = 1024;

/// The state of one thread: the block at `body_addr`, and the
/// handled-exception item at `exc_info_addr`.
#[derive(Debug)]
pub struct TStateStore {
    pub body: Vec<u8>,
    pub body_addr: usize,
    pub exc_info_addr: usize,
    pub initialized: bool,
}

impl TStateStore {
    /// The block has its size and lies within the address space.
    pub open spec fn wf(&self) -> bool {
        self.body@.len() == TS_BYTES && self.body_addr + TS_BYTES <= usize::MAX
    }

    /// The state of a thread that was not touched yet.
    pub fn new(body_addr: usize, exc_info_addr: usize) -> (r: TStateStore)
        requires
            body_addr + TS_BYTES <= usize::MAX,
        ensures
            r.wf(),
            r.body@ == bytes::zeros(TS_BYTES as nat),
            r.body_addr == body_addr,
            r.exc_info_addr == exc_info_addr,
            !r.initialized,
    {
        TStateStore {
            body: bytes::zero_block(TS_BYTES),
            body_addr,
            exc_info_addr,
            initialized: false,
        }
    }
}

/// The block after the first touch: the handled-exception item, the recursion
/// budget, the interpreter and a lock count of one are filled in.
pub open spec fn wired(body: Seq<u8>, exc_info: usize, interp: usize) -> Seq<u8> {
    let a = bytes::put(body, OFF_EXC_INFO as int, bytes::le_bytes(exc_info as nat, 8));
    let b = bytes::put(
        a,
        OFF_C_RECURSION_REMAINING as int,
        bytes::le_bytes(C_RECURSION_BUDGET as nat, 4),
    );
    let c = bytes::put(b, OFF_INTERP as int, bytes::le_bytes(interp as nat, 8));
    bytes::put(c, OFF_GILSTATE_COUNTER as int, bytes::le_bytes(1, 4))
}

/// What a touch leaves behind.
pub open spec fn touched(before: TStateStore, after: TStateStore, interp: usize) -> bool {
    &&& after.initialized
    &&& after.body_addr == before.body_addr
    &&& after.exc_info_addr == before.exc_info_addr
    &&& after.body@ == if before.initialized {
        before.body@
    } else {
        wired(before.body@, before.exc_info_addr, interp)
    }
}

fn store_ptr(t: &mut TStateStore, interp: usize)
    requires
        old(t).wf(),
    ensures
        final(t).wf(),
        touched(*old(t), *final(t), interp),
{
    if !t.initialized {
        t.initialized = true;
        put_u64(&mut t.body, OFF_EXC_INFO, t.exc_info_addr as u64);
        put_u32(&mut t.body, OFF_C_RECURSION_REMAINING, C_RECURSION_BUDGET);
        put_u64(&mut t.body, OFF_INTERP, interp as u64);
        put_u32(&mut t.body, OFF_GILSTATE_COUNTER, 1);
    }
}

/// The address of this thread's state.
pub fn current_threadstate(t: &mut TStateStore, interp: usize) -> (r: usize)
    requires
        old(t).wf(),
    ensures
        final(t).wf(),
        touched(*old(t), *final(t), interp),
        r == old(t).body_addr,
{
    store_ptr(t, interp);
    t.body_addr
}

/// The address of the pending-exception field.
pub fn current_exception_slot(t: &mut TStateStore, interp: usize) -> (r: usize)
    requires
        old(t).wf(),
    ensures
        final(t).wf(),
        touched(*old(t), *final(t), interp),
        r == old(t).body_addr + OFF_CURRENT_EXCEPTION,
{
    store_ptr(t, interp);
    t.body_addr + OFF_CURRENT_EXCEPTION
}

/// The address of the handled exception, the first field of its item.
pub fn exc_info_value_slot(t: &mut TStateStore, interp: usize) -> (r: usize)
    requires
        old(t).wf(),
    ensures
        final(t).wf(),
        touched(*old(t), *final(t), interp),
        r == old(t).exc_info_addr,
{
    store_ptr(t, interp);
    t.exc_info_addr
}

/// The address of the list of objects to free later.
pub fn delete_later_slot(t: &mut TStateStore, interp: usize) -> (r: usize)
    requires
        old(t).wf(),
    ensures
        final(t).wf(),
        touched(*old(t), *final(t), interp),
        r == old(t).body_addr + OFF_DELETE_LATER,
{
    store_ptr(t, interp);
    t.body_addr + OFF_DELETE_LATER
}

/// The address of this thread's state, without a check.
pub fn PyThreadState_GetUnchecked(t: &mut TStateStore, interp: usize) -> (r: usize)
    requires
        old(t).wf(),
    ensures
        final(t).wf(),
        touched(*old(t), *final(t), interp),
        r == old(t).body_addr,
{
    current_threadstate(t, interp)
}

/// A new thread state is the calling thread's own.
pub fn PyThreadState_New(t: &mut TStateStore, interp: usize) -> (r: usize)
    requires
        old(t).wf(),
    ensures
        final(t).wf(),
        touched(*old(t), *final(t), interp),
        r == old(t).body_addr,
{
    current_threadstate(t, interp)
}

/// After the first touch each wired field reads back, and no exception is
/// pending.
pub proof fn law_wired_fields(exc_info: usize, interp: usize)
    ensures
        ({
            let b = wired(bytes::zeros(TS_BYTES as nat), exc_info, interp);
            &&& bytes::word(b, OFF_EXC_INFO as int, 8) == exc_info
            &&& bytes::word(b, OFF_INTERP as int, 8) == interp
            &&& bytes::word(b, OFF_C_RECURSION_REMAINING as int, 4) == C_RECURSION_BUDGET
            &&& bytes::word(b, OFF_GILSTATE_COUNTER as int, 4) == 1
            &&& bytes::word(b, OFF_CURRENT_EXCEPTION as int, 8) == 0
            &&& bytes::word(b, OFF_DELETE_LATER as int, 8) == 0
        }),
{
    vstd::arithmetic::power2::lemma2_to64();
    vstd::arithmetic::power2::lemma2_to64_rest();
    let z = bytes::zeros(TS_BYTES as nat);
    let w1 = bytes::le_bytes(exc_info as nat, 8);
    let w2 = bytes::le_bytes(C_RECURSION_BUDGET as nat, 4);
    let w3 = bytes::le_bytes(interp as nat, 8);
    let w4 = bytes::le_bytes(1, 4);
    bytes::lemma_le_bytes(exc_info as nat, 8);
    bytes::lemma_le_bytes(C_RECURSION_BUDGET as nat, 4);
    bytes::lemma_le_bytes(interp as nat, 8);
    bytes::lemma_le_bytes(1, 4);
    let a = bytes::put(z, OFF_EXC_INFO as int, w1);
    let b = bytes::put(a, OFF_C_RECURSION_REMAINING as int, w2);
    let c = bytes::put(b, OFF_INTERP as int, w3);
    bytes::lemma_word_put(z, OFF_EXC_INFO as int, exc_info as nat, 8);
    bytes::lemma_word_beside(a, OFF_C_RECURSION_REMAINING as int, w2, OFF_EXC_INFO as int, 8);
    bytes::lemma_word_beside(b, OFF_INTERP as int, w3, OFF_EXC_INFO as int, 8);
    bytes::lemma_word_beside(c, OFF_GILSTATE_COUNTER as int, w4, OFF_EXC_INFO as int, 8);
    bytes::lemma_word_put(a, OFF_C_RECURSION_REMAINING as int, C_RECURSION_BUDGET as nat, 4);
    bytes::lemma_word_beside(b, OFF_INTERP as int, w3, OFF_C_RECURSION_REMAINING as int, 4);
    bytes::lemma_word_beside(c, OFF_GILSTATE_COUNTER as int, w4, OFF_C_RECURSION_REMAINING as int, 4);
    bytes::lemma_word_put(b, OFF_INTERP as int, interp as nat, 8);
    bytes::lemma_word_beside(c, OFF_GILSTATE_COUNTER as int, w4, OFF_INTERP as int, 8);
    bytes::lemma_word_put(c, OFF_GILSTATE_COUNTER as int, 1, 4);
    let e = bytes::put(c, OFF_GILSTATE_COUNTER as int, w4);
    bytes::lemma_le_bytes(0, 8);
    assert(bytes::le_bytes(0, 8) =~= bytes::zeros(8)) by {
        reveal_with_fuel(bytes::le_bytes, 9);
    }
    assert(e.subrange(OFF_CURRENT_EXCEPTION as int, OFF_CURRENT_EXCEPTION + 8) =~= bytes::zeros(8));
    assert(e.subrange(OFF_DELETE_LATER as int, OFF_DELETE_LATER + 8) =~= bytes::zeros(8));
}

// ---------------------------------------------------------------------------
// Thread-specific storage
// ---------------------------------------------------------------------------

/// A key of thread-specific storage.
#[derive(Clone, Copy, Debug, PartialEq, Eq, Structural)]
pub struct PyTssT {
    pub is_initialized: i32,
    pub key: u32,
}

/// The key exists and was created.
pub open spec fn created(key: Option<PyTssT>) -> bool {
    key matches Some(k) && k.is_initialized != 0
}

/// Create a key; `native` is the key that the system would give, `None` where
/// it has none left. Creating a created key changes nothing.
pub fn PyThread_tss_create(key: &mut Option<PyTssT>, native: Option<u32>) -> (r: i32)
    ensures
        match *old(key) {
            None => r == -1 && *final(key) == *old(key),
            Some(k) => if k.is_initialized != 0 {
                r == 0 && *final(key) == *old(key)
            } else {
                match native {
                    None => r == -1 && *final(key) == *old(key),
                    Some(n) => r == 0 && *final(key) == Some(PyTssT { is_initialized: 1, key: n }),
                }
            },
        },
{
    match *key {
        None => -1,
        Some(k) => {
            if k.is_initialized != 0 {
                return 0;
            }
            match native {
                None => -1,
                Some(n) => {
                    *key = Some(PyTssT { is_initialized: 1, key: n });
                    0
                },
            }
        },
    }
}

/// Delete a key: the system's key to give back, if there is one. A key that
/// was never created is left alone.
pub fn PyThread_tss_delete(key: &mut Option<PyTssT>) -> (r: Option<u32>)
    ensures
        if created(*old(key)) {
            r == Some(old(key)->0.key) && *final(key) == Some(PyTssT { is_initialized: 0, key: 0 })
        } else {
            r is None && *final(key) == *old(key)
        },
{
    match *key {
        None => None,
        Some(k) => {
            if k.is_initialized != 0 {
                *key = Some(PyTssT { is_initialized: 0, key: 0 });
                return Some(k.key);
            }
            None
        },
    }
}

/// Store a value under a key; `stored` says whether the system took it.
pub fn PyThread_tss_set(key: Option<PyTssT>, stored: bool) -> (r: i32)
    ensures
        r == (if created(key) && stored {
            0i32
        } else {
            (-1) as i32
        }),
{
    match key {
        None => -1,
        Some(k) => {
            if k.is_initialized == 0 || !stored {
                return -1;
            }
            0
        },
    }
}

/// Read the value under a key; `stored` is what the system holds for it.
pub fn PyThread_tss_get(key: Option<PyTssT>, stored: usize) -> (r: usize)
    ensures
        r == (if created(key) {
            stored
        } else {
            0
        }),
{
    match key {
        None => 0,
        Some(k) => {
            if k.is_initialized == 0 {
                return 0;
            }
            stored
        },
    }
}

/// Whether a key was created.
pub fn PyThread_tss_is_created(key: Option<PyTssT>) -> (r: i32)
    ensures
        r == (if created(key) {
            1i32
        } else {
            0i32
        }),
{
    match key {
        None => 0,
        Some(k) => if k.is_initialized != 0 {
            1
        } else {
            0
        },
    }
}

/// A key that was not created yet.
pub fn PyThread_tss_alloc() -> (r: PyTssT)
    ensures
        r == (PyTssT { is_initialized: 0, key: 0 }),
{
    PyTssT { is_initialized: 0, key: 0 }
}

/// Free a key: the system's key to give back, if there is one. The key itself is
/// freed unless it is NULL.
pub fn PyThread_tss_free(key: &mut Option<PyTssT>) -> (r: Option<u32>)
    ensures
        *final(key) is None,
        r == (if created(*old(key)) {
            Some(old(key)->0.key)
        } else {
            None
        }),
{
    let native: Option<u32> = PyThread_tss_delete(key);
    *key = None;
    native
}

/// No modules are frozen, so a frozen program ends at once: the exit code, and
/// what is reported.
pub fn Py_FrozenMain() -> (r: (i32, &'static str))
    ensures
        r.0 == 1,
        r.1@ == "Unable to import __main__: no frozen modules are registered\n"@,
{
    (1, "Unable to import __main__: no frozen modules are registered\n")
}

/// There is one interpreter, and its number is zero.
pub fn PyInterpreterState_GetID() -> (r: i64)
    ensures
        r == 0,
{
    0
}

/// The collector counts as having been enabled.
pub fn PyGC_Enable() -> (r: i32)
    ensures
        r == 1,
{
    1
}

/// The collector counts as having been enabled.
pub fn PyGC_Disable() -> (r: i32)
    ensures
        r == 1,
{
    1
}

} // verus!
