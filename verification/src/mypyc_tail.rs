//! The operations that mypyc-compiled extensions lean on: ASCII character
//! tables, raw integer digits, the trashcan, handled exceptions, and string,
//! bytes and container helpers.

use std::collections::HashMap;
use vstd::prelude::*;
use vstd::arithmetic::power2::*;
use vstd::utf8::*;
use crate::bignum;
use crate::bignum::{big_bits, big_from, big_neg, big_or_low30, big_shl, int_from_bigint};
use crate::errors;
use crate::errors::{raise, raise_str, ExcKind, Failure};
use crate::flat;
use crate::freeing;
use crate::heap;
use crate::heap::{Event, Heap, HeapV};
use crate::lists::decref_one;
use crate::object;
use crate::object::{clone_object, clone_object_value, into_owned, PyObject};
use crate::outward;
use crate::publish;
use crate::reading;
use crate::search;
use crate::search::{count, push_piece, rfind};
use crate::strings;
use crate::strings::{push_bytes, skip_ws, trim_end_of};
use crate::text;
use crate::text::{push_all, push_str, same, slice_of};
use crate::value;
use crate::value::{copy_native, BigNum, NatV, Native, ObjV, Object};

verus! {

broadcast use vstd::std_specs::hash::group_hash_axioms;

// ---------------------------------------------------------------------------
// ASCII ctype tables
// ---------------------------------------------------------------------------

pub const PY_CTF_LOWER: u32 = 0x01;

pub const PY_CTF_UPPER: u32 = 0x02;

pub const PY_CTF_DIGIT: u32 = 0x04;

pub const PY_CTF_SPACE: u32 = 0x08;

pub const PY_CTF_XDIGIT: u32 = 0x10;

pub open spec fn ascii_lower(c: int) -> bool {
    97 <= c <= 122
}

pub open spec fn ascii_upper(c: int) -> bool {
    65 <= c <= 90
}

pub open spec fn ascii_digit(c: int) -> bool {
    48 <= c <= 57
}

/// Space, tab, line feed, vertical tab, form feed, carriage return.
pub open spec fn ctype_space(c: int) -> bool {
    c == 32 || 9 <= c <= 13
}

pub open spec fn ascii_hexdigit(c: int) -> bool {
    ascii_digit(c) || 97 <= c <= 102 || 65 <= c <= 70
}

/// The classification flags of a byte: one bit per class that it is in.
pub open spec fn ctype_flags(c: int) -> int {
    (if ascii_lower(c) {
        PY_CTF_LOWER as int
    } else {
        0
    }) + (if ascii_upper(c) {
        PY_CTF_UPPER as int
    } else {
        0
    }) + (if ascii_digit(c) {
        PY_CTF_DIGIT as int
    } else {
        0
    }) + (if ctype_space(c) {
        PY_CTF_SPACE as int
    } else {
        0
    }) + (if ascii_hexdigit(c) {
        PY_CTF_XDIGIT as int
    } else {
        0
    })
}

/// The table of classification flags.
pub fn build_ctype_table() -> (t: Vec<u32>)
    ensures
        t@.len() == 256,
        forall|c: int| 0 <= c < 256 ==> t@[c] == ctype_flags(c),
{
    let mut t: Vec<u32> = Vec::new();
    let mut c: u32 = 0;
    while c < 256
        invariant
            c <= 256,
            t@.len() == c,
            forall|k: int| 0 <= k < c ==> t@[k] == ctype_flags(k),
        decreases 256 - c,
    {
        let mut f: u32 = 0;
        if c >= 97 && c <= 122 {
            f = f + PY_CTF_LOWER;
        }
        if c >= 65 && c <= 90 {
            f = f + PY_CTF_UPPER;
        }
        if c >= 48 && c <= 57 {
            f = f + PY_CTF_DIGIT;
        }
        if c == 32 || (c >= 9 && c <= 13) {
            f = f + PY_CTF_SPACE;
        }
        if (c >= 48 && c <= 57) || (c >= 97 && c <= 102) || (c >= 65 && c <= 70) {
            f = f + PY_CTF_XDIGIT;
        }
        t.push(f);
        c = c + 1;
    }
    t
}

/// The table of ASCII lower-case forms.
pub fn build_tolower() -> (t: Vec<u8>)
    ensures
        t@.len() == 256,
        forall|c: int|
            0 <= c < 256 ==> t@[c] == (if ascii_upper(c) {
                c + 32
            } else {
                c
            }),
{
    let mut t: Vec<u8> = Vec::new();
    let mut c: u32 = 0;
    while c < 256
        invariant
            c <= 256,
            t@.len() == c,
            forall|k: int|
                0 <= k < c ==> t@[k] == (if ascii_upper(k) {
                    k + 32
                } else {
                    k
                }),
        decreases 256 - c,
    {
        if c >= 65 && c <= 90 {
            t.push((c + 32) as u8);
        } else {
            t.push(c as u8);
        }
        c = c + 1;
    }
    t
}

/// The table of ASCII upper-case forms.
pub fn build_toupper() -> (t: Vec<u8>)
    ensures
        t@.len() == 256,
        forall|c: int|
            0 <= c < 256 ==> t@[c] == (if ascii_lower(c) {
                c - 32
            } else {
                c
            }),
{
    let mut t: Vec<u8> = Vec::new();
    let mut c: u32 = 0;
    while c < 256
        invariant
            c <= 256,
            t@.len() == c,
            forall|k: int|
                0 <= k < c ==> t@[k] == (if ascii_lower(k) {
                    k - 32
                } else {
                    k
                }),
        decreases 256 - c,
    {
        if c >= 97 && c <= 122 {
            t.push((c - 32) as u8);
        } else {
            t.push(c as u8);
        }
        c = c + 1;
    }
    t
}

// ---------------------------------------------------------------------------
// Raw integers
// ---------------------------------------------------------------------------

/// Record an integer block whose digits an extension writes.
pub fn register_raw_long(h: &mut Heap, p: usize)
    ensures
        final(h)@ == (HeapV { raw_longs: old(h)@.raw_longs.insert(p), ..old(h)@ }),
{
    h.raw_longs.insert(p);
    assert(h@ =~= (HeapV { raw_longs: old(h)@.raw_longs.insert(p), ..old(h)@ }));
}

/// Whether `p` is such a block.
pub fn is_raw_long(h: &Heap, p: usize) -> (r: bool)
    ensures
        r == h@.raw_longs.contains(p),
{
    h.raw_longs.contains(&p)
}

/// Forget a block; true when it was one.
pub fn take_raw_long(h: &mut Heap, p: usize) -> (r: bool)
    ensures
        r == old(h)@.raw_longs.contains(p),
        final(h)@ == (HeapV { raw_longs: old(h)@.raw_longs.remove(p), ..old(h)@ }),
{
    let had: bool = h.raw_longs.remove(&p);
    assert(h@ =~= (HeapV { raw_longs: old(h)@.raw_longs.remove(p), ..old(h)@ }));
    had
}

/// The sign field of a tag.
pub open spec fn tag_sign(lv_tag: usize) -> int {
    lv_tag as int % 4
}

/// The digit count of a tag.
pub open spec fn tag_digits(lv_tag: usize) -> int {
    lv_tag as int / 8
}

/// The number that 30-bit digits denote, least significant first. Bits above
/// the thirtieth are ignored.
pub open spec fn digits30(d: Seq<u32>) -> nat
    decreases d.len(),
{
    if d.len() == 0 {
        0
    } else {
        (d[0] as nat % 0x4000_0000) + 0x4000_0000 * digits30(d.drop_first())
    }
}

/// The integer that a tag and its digits denote.
pub open spec fn raw_long_value(lv_tag: usize, digits: Seq<u32>) -> int {
    let mag = digits30(digits.subrange(0, tag_digits(lv_tag))) as int;
    if tag_sign(lv_tag) == 1 {
        0
    } else if tag_sign(lv_tag) == 2 {
        -mag
    } else {
        mag
    }
}

/// Decode a sign tag and 30-bit digits into a Python int.
pub fn decode_raw_long(lv_tag: usize, digits: &[u32]) -> (r: Object)
    requires
        tag_sign(lv_tag) != 1 ==> tag_digits(lv_tag) <= digits@.len(),
    ensures
        bignum::normal_int(r, raw_long_value(lv_tag, digits@)),
{
    let sign: usize = lv_tag % 4;
    if sign == 1 {
        return Object::Int(0);
    }
    let n: usize = lv_tag / 8;
    let mut mag: BigNum = big_from(0);
    let mut i: usize = n;
    assert(digits@.subrange(n as int, n as int) =~= Seq::<u32>::empty());
    while i > 0
        invariant
            i <= n <= digits@.len(),
            mag.wf(),
            mag.val() == digits30(digits@.subrange(i as int, n as int)),
        decreases i,
    {
        i = i - 1;
        let d: u32 = digits[i] % 0x4000_0000;
        let ghost tail = digits@.subrange(i + 1, n as int);
        assert(digits@.subrange(i as int, n as int).drop_first() =~= tail);
        proof {
            lemma2_to64();
        }
        let shifted: BigNum = big_shl(&mag, 30);
        assert(shifted.val() == mag.val() * 0x4000_0000);
        mag = big_or_low30(&shifted, d);
    }
    if sign == 2 {
        mag = big_neg(&mag);
    }
    int_from_bigint(mag)
}

/// What a fresh integer block is filled with.
#[derive(Debug)]
pub struct RawLongHead {
    /// Bytes to allocate, all zero at first.
    pub size: usize,
    pub ob_refcnt: isize,
    pub lv_tag: usize,
}

/// The block for an integer of `ndigits` 30-bit digits, one at least: a
/// 16-byte head, the tag, the digits, padded to the alignment of the head.
pub open spec fn raw_long_size(ndigits: int) -> int {
    32 + ((if ndigits < 1 {
        1
    } else {
        ndigits
    }) - 1) * 4
}

/// The head of an integer block of `ndigits` digits for the caller to fill.
pub fn raw_long_head(ndigits: isize) -> (r: Result<RawLongHead, Failure>)
    requires
        raw_long_size(ndigits as int) <= usize::MAX,
    ensures
        ndigits < 0 ==> errors::raises(r, ExcKind::SystemError, "_PyLong_New: negative size"@),
        ndigits >= 0 ==> r is Ok && r->Ok_0.size == raw_long_size(ndigits as int)
            && r->Ok_0.ob_refcnt == 1 && r->Ok_0.lv_tag == (if ndigits == 0 {
            1usize
        } else {
            (ndigits as usize) << 3
        }),
{
    if ndigits < 0 {
        return Err(raise_str(ExcKind::SystemError, "_PyLong_New: negative size"));
    }
    let n: usize = if ndigits < 1 {
        1
    } else {
        ndigits as usize
    };
    let lv_tag: usize = if ndigits == 0 {
        1
    } else {
        (ndigits as usize) << 3
    };
    Ok(RawLongHead { size: 32 + (n - 1) * 4, ob_refcnt: 1, lv_tag })
}

/// A block of digits that an extension writes: an integer with one reference.
pub open spec fn raw_made(h: HeapV, block: usize) -> HeapV {
    HeapV {
        heads: h.heads.insert(
            block,
            PyObject { ob_refcnt: 1, ob_type: h.facts.types.long_type },
        ),
        raw_longs: h.raw_longs.insert(block),
        ..h
    }
}

/// Take over the block that was allocated for [`raw_long_head`]; address zero is a
/// failed allocation.
pub fn _PyLong_New(h: &mut Heap, block: usize) -> (r: Result<usize, Failure>)
    ensures
        block == 0 ==> errors::raises(r, ExcKind::RuntimeError, "_PyLong_New: out of memory"@)
            && final(h)@ == old(h)@,
        block != 0 ==> r is Ok && r->Ok_0 == block && final(h)@ == raw_made(old(h)@, block),
{
    if block == 0 {
        return Err(raise_str(ExcKind::RuntimeError, "_PyLong_New: out of memory"));
    }
    let ty: usize = h.facts.types.long_type;
    h.heads.insert(block, PyObject { ob_refcnt: 1, ob_type: ty });
    register_raw_long(h, block);
    assert(h@ =~= raw_made(old(h)@, block));
    Ok(block)
}

/// A block from [`_PyLong_New`] is read as the integer in its digits, and its last
/// reference gives it back to the C allocator.
pub proof fn law_raw_block(h: HeapV, block: usize)
    requires
        flat::ordinary(h, block),
        !h.minted.contains(block),
        h.facts.raw_values@.contains_key(block),
    ensures
        ({
            let g = raw_made(h, block);
            let (after, more) = freeing::dropped(freeing::decrefed(g, block).0, block);
            &&& reading::object_at(g, block) == (g, h.facts.raw_values@[block]@)
            &&& freeing::decrefed(g, block).1
            &&& !after.raw_longs.contains(block)
            &&& !after.heads.contains_key(block)
            &&& after.events.last() == Event::LibcFree(block)
            &&& more.len() == 0
        }),
{
    reveal(reading::object_at);
}

fn bits_of(n: u64) -> (r: usize)
    ensures
        r == bignum::bit_len(n as nat),
        r <= 64,
{
    let mut left: u64 = n;
    let mut k: usize = 0;
    let ghost mut p: int = 1;
    proof {
        lemma2_to64();
    }
    while left > 0
        invariant
            k <= 64,
            bignum::bit_len(n as nat) == k + bignum::bit_len(left as nat),
            left * p <= n,
            p == pow2(k as nat),
            p >= 1,
        decreases left,
    {
        proof {
            lemma2_to64();
            if k == 64 {
                assert(left * p >= p) by (nonlinear_arith)
                    requires
                        left >= 1,
                        p >= 1,
                ;
            }
            lemma_pow2_unfold((k + 1) as nat);
            assert((left / 2) * (2 * p) <= left * p) by (nonlinear_arith)
                requires
                    p >= 1,
            ;
            p = 2 * p;
        }
        left = left / 2;
        k = k + 1;
    }
    k
}

/// The number of bits that the magnitude of an integer needs.
pub fn _PyLong_NumBits(o: &Object) -> (r: Result<usize, Failure>)
    requires
        o matches Object::Long(b) ==> bignum::bit_len(bignum::abs(b.val())) <= usize::MAX,
    ensures
        bignum::is_int(*o) ==> r is Ok && r->Ok_0 == bignum::bit_len(
            bignum::abs(bignum::int_of(*o)),
        ),
        !bignum::is_int(*o) ==> errors::raises(
            r,
            ExcKind::TypeError,
            "_PyLong_NumBits: an int is required"@,
        ),
{
    match o {
        Object::Int(i) => {
            let v: i64 = *i;
            let mag: u64 = if v >= 0 {
                v as u64
            } else {
                (-(v + 1)) as u64 + 1
            };
            Ok(bits_of(mag))
        },
        Object::Bool(b) => {
            proof {
                reveal_with_fuel(bignum::bit_len, 2);
            }
            Ok(
                if *b {
                    1
                } else {
                    0
                },
            )
        },
        Object::Long(b) => Ok(big_bits(b) as usize),
        _ => Err(raise_str(ExcKind::TypeError, "_PyLong_NumBits: an int is required")),
    }
}

// ---------------------------------------------------------------------------
// Trashcan
// ---------------------------------------------------------------------------

/// Objects whose deallocation was put off, and the field that tells C code
/// that there are some.
pub struct Trashcan {
    pub parked: Vec<usize>,
    pub delete_later: usize,
}

/// Park an object whose reference count is already zero.
pub fn _PyTrash_thread_deposit_object(t: &mut Trashcan, op: usize)
    ensures
        final(t).parked@ == old(t).parked@.push(op),
        final(t).delete_later == op,
{
    t.parked.push(op);
    t.delete_later = op;
}

/// Take the object to deallocate next, the one parked last. The field stays
/// set while others wait and is cleared with the last one. `None` ends the
/// chain.
pub fn _PyTrash_thread_destroy_chain(t: &mut Trashcan) -> (r: Option<usize>)
    ensures
        match r {
            Some(op) => old(t).parked@.len() > 0 && op == old(t).parked@.last()
                && final(t).parked@ == old(t).parked@.drop_last() && final(t).delete_later == (if old(
                t,
            ).parked@.len() == 1 {
                0
            } else {
                op
            }),
            None => old(t).parked@.len() == 0 && final(t).parked@ == old(t).parked@
                && final(t).delete_later == 0,
        },
{
    match t.parked.pop() {
        Some(op) => {
            t.delete_later = if t.parked.len() == 0 {
                0
            } else {
                op
            };
            Some(op)
        },
        None => {
            t.delete_later = 0;
            None
        },
    }
}

// ---------------------------------------------------------------------------
// Handled exceptions
// ---------------------------------------------------------------------------

/// The handled exception as a new reference: the address to return and to
/// count one more reference for, zero for none.
pub fn PyErr_GetHandledException(slot: usize) -> (r: Option<usize>)
    ensures
        r == (if slot == 0 {
            None
        } else {
            Some(slot)
        }),
{
    if slot == 0 {
        None
    } else {
        Some(slot)
    }
}

/// What the handled exception is reported as.
#[derive(Debug)]
pub struct ExcInfo {
    /// The class is handed out as a new reference.
    pub class: bool,
    /// The exception, with one more reference; zero for none.
    pub value: usize,
    /// The traceback is handed out as a new reference.
    pub traceback: bool,
}

/// The handled exception in three parts. The class and the traceback come
/// from the exception where it is an instance.
pub fn PyErr_GetExcInfo(slot: usize, is_instance: bool, has_traceback: bool) -> (r: ExcInfo)
    ensures
        r.value == slot,
        r.class == (slot != 0 && is_instance),
        r.traceback == (slot != 0 && is_instance && has_traceback),
{
    if slot == 0 {
        return ExcInfo { class: false, value: 0, traceback: false };
    }
    ExcInfo { class: is_instance, value: slot, traceback: is_instance && has_traceback }
}

/// Which references a change of the handled exception takes and releases;
/// zero stands for none.
#[derive(Debug)]
pub struct SlotChange {
    pub incref: usize,
    pub decref: usize,
}

/// Install the handled exception without stealing it. `None` (and NULL) clears
/// the slot. The slot's former reference is released.
pub fn PyErr_SetHandledException(slot: &mut usize, exc: usize, is_none: bool) -> (r: SlotChange)
    ensures
        *final(slot) == (if exc == 0 || is_none {
            0
        } else {
            exc
        }),
        r.incref == *final(slot),
        r.decref == *old(slot),
{
    let old_value: usize = *slot;
    if exc == 0 || is_none {
        *slot = 0;
        SlotChange { incref: 0, decref: old_value }
    } else {
        *slot = exc;
        SlotChange { incref: exc, decref: old_value }
    }
}

/// The non-zero ones among some addresses.
pub open spec fn live(s: Seq<usize>) -> Seq<usize>
    decreases s.len(),
{
    if s.len() == 0 {
        s
    } else if s.last() == 0 {
        live(s.drop_last())
    } else {
        live(s.drop_last()).push(s.last())
    }
}

fn push_live(v: &mut Vec<usize>, p: usize)
    ensures
        final(v)@ == (if p == 0 {
            old(v)@
        } else {
            old(v)@.push(p)
        }),
{
    if p != 0 {
        v.push(p);
    }
}

/// Install the handled exception, stealing all three references; only the
/// value is kept, and `None` counts as none. Returns the references to
/// release, in order: a `None` value, the slot's former value, the class, the
/// traceback.
pub fn PyErr_SetExcInfo(
    slot: &mut usize,
    ty: usize,
    value: usize,
    value_is_none: bool,
    traceback: usize,
) -> (r: Vec<usize>)
    ensures
        *final(slot) == (if value != 0 && value_is_none {
            0
        } else {
            value
        }),
        r@ == live(
            seq![
                if value_is_none {
                    value
                } else {
                    0
                },
                *old(slot),
                ty,
                traceback,
            ],
        ),
{
    let mut out: Vec<usize> = Vec::new();
    let old_value: usize = *slot;
    proof {
        reveal_with_fuel(live, 5);
        let s = seq![
            if value_is_none {
                value
            } else {
                0
            },
            old_value,
            ty,
            traceback,
        ];
        assert(s.drop_last().drop_last().drop_last().drop_last() =~= Seq::<usize>::empty());
    }
    if value != 0 && value_is_none {
        *slot = 0;
        push_live(&mut out, value);
    } else {
        *slot = value;
    }
    push_live(&mut out, old_value);
    push_live(&mut out, ty);
    push_live(&mut out, traceback);
    out
}

/// An exception is chained to the pending one, if there is one: the VM object behind
/// it becomes the context where the pending exception is an instance, which
/// `pending_is_instance` says. The reference to the exception is taken in every case.
pub fn _PyErr_ChainExceptions1(h: &mut Heap, exc: usize, pending_is_instance: Option<bool>) -> (r:
    Option<Native>)
    ensures
        exc == 0 ==> final(h)@ == old(h)@ && r is None,
        exc != 0 && pending_is_instance is None ==> final(h)@ == freeing::released(
            old(h)@,
            seq![exc],
        ) && r is None,
        exc != 0 && pending_is_instance is Some ==> ({
            let (h1, v) = reading::object_at(old(h)@, exc);
            &&& final(h)@ == freeing::released(reading::tidied(h1), seq![exc])
            &&& pending_is_instance->0 ==> r is Some && r->0@ == v
            &&& !pending_is_instance->0 ==> r is None
        }),
{
    if exc == 0 {
        return None;
    }
    let context: Option<Native> = match pending_is_instance {
        Some(is_instance) => {
            let v: Native = clone_object(h, exc);
            if is_instance {
                Some(v)
            } else {
                None
            }
        },
        None => None,
    };
    decref_one(h, exc);
    context
}

/// The pending exception as a generator's end sees it.
#[derive(Debug)]
pub enum Pending {
    Nothing,
    /// A `StopIteration`, with the value it carries.
    Stop(Option<usize>),
    Other,
}

/// What the end of a generator hands out.
#[derive(Debug, PartialEq, Eq, Structural)]
pub enum StopValue {
    /// NULL, successfully.
    Null,
    /// The value of a consumed `StopIteration`.
    Value(usize),
    /// `None`: a consumed `StopIteration` without a value.
    NoneValue,
    /// The pending exception stays.
    Failed,
}

/// A pending `StopIteration` is consumed and its value handed out; any other
/// pending exception stays and is a failure.
pub fn _PyGen_FetchStopIterationValue(p: &Pending) -> (r: StopValue)
    ensures
        r == (match *p {
            Pending::Nothing => StopValue::Null,
            Pending::Stop(Some(v)) => StopValue::Value(v),
            Pending::Stop(None) => StopValue::NoneValue,
            Pending::Other => StopValue::Failed,
        }),
{
    match p {
        Pending::Nothing => StopValue::Null,
        Pending::Stop(Some(v)) => StopValue::Value(*v),
        Pending::Stop(None) => StopValue::NoneValue,
        Pending::Other => StopValue::Failed,
    }
}

// ---------------------------------------------------------------------------
// Containers
// ---------------------------------------------------------------------------

/// One item of a sequence of pairs: a two-element tuple or list, or anything else.
#[derive(Debug)]
pub enum PairItem {
    /// The key (equal keys have equal numbers), the address of the value, and
    /// whether the dict can look the key up and store under it.
    Pair(u64, usize, bool, bool),
    NotPair,
}

/// The item is not merged because its key is there already.
pub open spec fn passed_over(d: Map<u64, usize>, item: PairItem, over: bool) -> bool {
    match item {
        PairItem::Pair(k, _, _, _) => !over && d.dom().contains(k),
        PairItem::NotPair => false,
    }
}

/// The item ends the merge: it is no pair, or the dict fails on its key.
pub open spec fn ends_merge(d: Map<u64, usize>, item: PairItem, over: bool) -> bool {
    match item {
        PairItem::Pair(_, _, lookup, store) => (!over && !lookup) || (!passed_over(d, item, over)
            && !store),
        PairItem::NotPair => true,
    }
}

/// Merge the first `n` items into a dict. Without `over`, keys that are there keep
/// their values.
pub open spec fn merged(
    d: Map<u64, usize>,
    items: Seq<PairItem>,
    over: bool,
    n: int,
) -> Map<u64, usize>
    decreases n,
{
    if n <= 0 {
        d
    } else {
        let before = merged(d, items, over, n - 1);
        match items[n - 1] {
            PairItem::Pair(k, v, _, _) => if passed_over(before, items[n - 1], over) {
                before
            } else {
                before.insert(k, v)
            },
            PairItem::NotPair => before,
        }
    }
}

/// The index of the first item at or after `i` that ends the merge.
pub open spec fn merge_end(d: Map<u64, usize>, items: Seq<PairItem>, over: bool, i: int) -> int
    decreases items.len() - i,
{
    if i < 0 || i >= items.len() || ends_merge(merged(d, items, over, i), items[i], over) {
        i
    } else {
        merge_end(d, items, over, i + 1)
    }
}

/// Update a dict from a sequence of pairs; a zero `over` keeps existing keys.
/// `items` is what iterating gave, `interrupted` whether an exception ended
/// it. Items before a failure stay merged. Where the dict fails on a key, it has set
/// the exception.
pub fn PyDict_MergeFromSeq2(
    d: &mut HashMap<u64, usize>,
    items: &Vec<PairItem>,
    interrupted: bool,
    over: i32,
) -> (r: Result<(), Failure>)
    ensures
        ({
            let bad = merge_end(old(d)@, items@, over != 0, 0);
            &&& final(d)@ == merged(old(d)@, items@, over != 0, bad)
            &&& if bad < items@.len() {
                if items@[bad] is NotPair {
                    errors::raises(
                        r,
                        ExcKind::ValueError,
                        "dictionary update sequence element is not a 2-sequence"@,
                    )
                } else {
                    errors::silent(r)
                }
            } else if interrupted {
                errors::silent(r)
            } else {
                r is Ok
            }
        }),
{
    let mut i: usize = 0;
    while i < items.len()
        invariant
            i <= items@.len(),
            merge_end(old(d)@, items@, over != 0, 0) == merge_end(
                old(d)@,
                items@,
                over != 0,
                i as int,
            ),
            d@ == merged(old(d)@, items@, over != 0, i as int),
        decreases items.len() - i,
    {
        match &items[i] {
            PairItem::NotPair => {
                return Err(
                    raise_str(
                        ExcKind::ValueError,
                        "dictionary update sequence element is not a 2-sequence",
                    ),
                );
            },
            PairItem::Pair(k, v, lookup, store) => {
                if over == 0 && !*lookup {
                    return Err(Failure::Silent);
                }
                if over != 0 || !d.contains_key(k) {
                    if !*store {
                        return Err(Failure::Silent);
                    }
                    d.insert(*k, *v);
                }
            },
        }
        i = i + 1;
    }
    if interrupted {
        Err(Failure::Silent)
    } else {
        Ok(())
    }
}

/// Merging without `over` never changes the value of a key that was there.
pub proof fn law_merge_keeps_existing(d: Map<u64, usize>, items: Seq<PairItem>, n: int, k: u64)
    requires
        d.dom().contains(k),
    ensures
        merged(d, items, false, n).dom().contains(k),
        merged(d, items, false, n)[k] == d[k],
    decreases n,
{
    if n > 0 {
        law_merge_keeps_existing(d, items, n - 1, k);
    }
}

/// The key that an item is merged under.
pub open spec fn keyed(item: PairItem, k: u64) -> bool {
    item matches PairItem::Pair(key, _, _, _) && key == k
}

/// Merging leaves the keys alone that no item names.
pub proof fn law_merge_leaves_other_keys(
    d: Map<u64, usize>,
    items: Seq<PairItem>,
    over: bool,
    n: int,
    k: u64,
)
    requires
        0 <= n <= items.len(),
        forall|j: int| 0 <= j < n ==> !keyed(#[trigger] items[j], k),
    ensures
        merged(d, items, over, n).contains_key(k) == d.contains_key(k),
        d.contains_key(k) ==> merged(d, items, over, n)[k] == d[k],
    decreases n,
{
    if n > 0 {
        law_merge_leaves_other_keys(d, items, over, n - 1, k);
        assert(!keyed(items[n - 1], k));
    }
}

/// Merging with `over` leaves under a key the value of the last item that names it.
pub proof fn law_merge_over_takes_the_last(
    d: Map<u64, usize>,
    items: Seq<PairItem>,
    n: int,
    i: int,
    k: u64,
    v: usize,
    lookup: bool,
    store: bool,
)
    requires
        0 <= i < n <= items.len(),
        items[i] == PairItem::Pair(k, v, lookup, store),
        forall|j: int| i < j < n ==> !keyed(#[trigger] items[j], k),
    ensures
        merged(d, items, true, n).contains_key(k),
        merged(d, items, true, n)[k] == v,
    decreases n,
{
    if n > i + 1 {
        law_merge_over_takes_the_last(d, items, n - 1, i, k, v, lookup, store);
        assert(!keyed(items[n - 1], k));
    }
}

/// Merging without `over` leaves under a new key the value of the first item that
/// names it.
pub proof fn law_merge_takes_the_first(
    d: Map<u64, usize>,
    items: Seq<PairItem>,
    n: int,
    i: int,
    k: u64,
    v: usize,
    lookup: bool,
    store: bool,
)
    requires
        0 <= i < n <= items.len(),
        !d.contains_key(k),
        items[i] == PairItem::Pair(k, v, lookup, store),
        forall|j: int| 0 <= j < i ==> !keyed(#[trigger] items[j], k),
    ensures
        merged(d, items, false, n).contains_key(k),
        merged(d, items, false, n)[k] == v,
    decreases n,
{
    if n > i + 1 {
        law_merge_takes_the_first(d, items, n - 1, i, k, v, lookup, store);
    } else {
        law_merge_leaves_other_keys(d, items, false, i, k);
    }
}

proof fn lemma_merge_goes_on(d: Map<u64, usize>, items: Seq<PairItem>, over: bool, i: int, end: int)
    requires
        0 <= i <= end <= items.len(),
        forall|j: int|
            i <= j < end ==> (#[trigger] items[j] matches PairItem::Pair(_, _, lookup, store)
                && lookup && store),
        end < items.len() ==> items[end] is NotPair,
    ensures
        merge_end(d, items, over, i) == end,
    decreases end - i,
{
    if i < end {
        assert(items[i] matches PairItem::Pair(_, _, lookup, store) && lookup && store);
        lemma_merge_goes_on(d, items, over, i + 1, end);
    }
}

/// A merge goes on as long as the items are pairs whose keys the dict can take, and
/// ends at the first item that is no pair.
pub proof fn law_merge_ends_at_no_pair(
    d: Map<u64, usize>,
    items: Seq<PairItem>,
    over: bool,
    end: int,
)
    requires
        0 <= end <= items.len(),
        forall|j: int|
            0 <= j < end ==> (#[trigger] items[j] matches PairItem::Pair(_, _, lookup, store)
                && lookup && store),
        end < items.len() ==> items[end] is NotPair,
    ensures
        merge_end(d, items, over, 0) == end,
{
    lemma_merge_goes_on(d, items, over, 0, end);
}

/// The part of a list between two indices is what is left of the list without what
/// comes before the one and from the other on. Bounds beyond an end stand for
/// that end, and nothing lies between bounds in the wrong order.
pub proof fn law_list_part(v: Seq<NatV>, low: int, high: int)
    ensures
        0 <= low <= high <= v.len() ==> v.take(low) + part_of(v, low, high) + v.skip(high) == v,
        low < 0 ==> part_of(v, low, high) == part_of(v, 0, high),
        high > v.len() ==> part_of(v, low, high) == part_of(v, low, v.len() as int),
        low >= high ==> part_of(v, low, high).len() == 0,
{
    if 0 <= low <= high <= v.len() {
        assert(v.take(low) + part_of(v, low, high) + v.skip(high) =~= v);
    }
}

/// Each address but NULL is kept, in its place among the others.
pub proof fn law_live_addresses(s: Seq<usize>, t: Seq<usize>, p: usize)
    ensures
        live(s + t) == live(s) + live(t),
        live(seq![p]) == (if p == 0 {
            Seq::<usize>::empty()
        } else {
            seq![p]
        }),
        !live(s).contains(0),
    decreases s.len() + t.len(),
{
    reveal_with_fuel(live, 2);
    assert(seq![p].drop_last() =~= Seq::<usize>::empty());
    assert(Seq::<usize>::empty().push(p) =~= seq![p]);
    if s.len() > 0 {
        law_live_addresses(s.drop_last(), Seq::empty(), p);
        let front = live(s.drop_last());
        if live(s).contains(0) {
            let i = choose|i: int| 0 <= i < live(s).len() && live(s)[i] == 0;
            if i < front.len() {
                assert(front[i] == 0);
                assert(front.contains(0));
            }
        }
    }
    if t.len() == 0 {
        assert(s + t =~= s);
        assert(live(t) =~= Seq::<usize>::empty());
        assert(live(s) + live(t) =~= live(s));
    } else {
        law_live_addresses(s, t.drop_last(), p);
        assert((s + t).drop_last() =~= s + t.drop_last());
        assert((s + t).last() == t.last());
        assert(live(s + t) =~= live(s) + live(t));
    }
}

/// The thirty low bits of a digit count, and each digit counts 2^30 times as much
/// as the one in front of it. The tag holds eight for each digit, one for zero and
/// two for a negative number.
pub proof fn law_raw_integer(d: Seq<u32>, c: u32, rest: Seq<u32>)
    requires
        8 * d.len() + 2 <= usize::MAX,
    ensures
        digits30(Seq::empty()) == 0,
        c < 0x4000_0000 ==> digits30(seq![c] + d) == c + 0x4000_0000 * digits30(d),
        raw_long_value((8 * d.len()) as usize, d + rest) == digits30(d),
        raw_long_value((8 * d.len() + 1) as usize, d + rest) == 0,
        raw_long_value((8 * d.len() + 2) as usize, d + rest) == -digits30(d),
{
    let s = seq![c] + d;
    assert(s.drop_first() =~= d);
    assert(s[0] == c);
    assert((d + rest).subrange(0, d.len() as int) =~= d);
}

/// The flags of a byte: one for a small letter, two for a capital, four for a
/// digit, eight for white space and sixteen for a hexadecimal digit.
pub proof fn law_character_classes(c: int)
    requires
        0 <= c < 256,
    ensures
        97 <= c <= 102 ==> ctype_flags(c) == 17,
        103 <= c <= 122 ==> ctype_flags(c) == 1,
        65 <= c <= 70 ==> ctype_flags(c) == 18,
        71 <= c <= 90 ==> ctype_flags(c) == 2,
        48 <= c <= 57 ==> ctype_flags(c) == 20,
        (9 <= c <= 13 || c == 32) ==> ctype_flags(c) == 8,
        c < 9 || 14 <= c < 32 || 33 <= c < 48 || 58 <= c < 65 || 91 <= c < 97 || c > 122
            ==> ctype_flags(c) == 0,
{
}

/// Remove all items of the VM list behind an object.
pub fn PyList_Clear(h: &mut Heap, list: usize) -> (r: Result<(), Failure>)
    ensures
        ({
            let (h1, v) = reading::object_at(old(h)@, list);
            let h2 = reading::tidied(h1);
            match v.val {
                ObjV::List(_) => r is Ok && final(h)@ == reading::with_cell(
                    h2,
                    v.id,
                    Seq::empty(),
                ),
                _ => final(h)@ == h2 && errors::raises(
                    r,
                    ExcKind::TypeError,
                    "PyList_Clear: expected list"@,
                ),
            }
        }),
{
    let v: Native = clone_object(h, list);
    match v.val {
        Object::List(_) => {
            let none: Vec<Native> = Vec::new();
            assert(value::seq_deep(none@) =~= Seq::<NatV>::empty());
            h.put_cell(v.id, none);
            Ok(())
        },
        _ => Err(raise_str(ExcKind::TypeError, "PyList_Clear: expected list")),
    }
}

/// A bound brought into the range of a sequence.
pub open spec fn into_range(i: int, n: int) -> int {
    if i < 0 {
        0
    } else if i > n {
        n
    } else {
        i
    }
}

/// The elements from one index to before another. Bounds are clamped; an inverted
/// range is empty.
pub open spec fn part_of(v: Seq<NatV>, low: int, high: int) -> Seq<NatV> {
    let lo = into_range(low, v.len() as int);
    let hi = into_range(high, v.len() as int);
    if lo < hi {
        v.subrange(lo, hi)
    } else {
        Seq::empty()
    }
}

fn clamp(i: isize, n: usize) -> (r: usize)
    ensures
        r == into_range(i as int, n as int),
{
    if i < 0 {
        0
    } else if i as usize > n {
        n
    } else {
        i as usize
    }
}

/// A new list of the elements of a list from one index to before another: a new
/// object that C code owns.
pub fn PyList_GetSlice(h: &mut Heap, list: usize, low: isize, high: isize) -> (r: Result<
    usize,
    Failure,
>)
    ensures
        ({
            let (h1, v) = reading::object_at(old(h)@, list);
            match v.val {
                ObjV::List(items) => {
                    let (h2, id) = heap::new_cell(reading::tidied(h1));
                    let part = part_of(items, low as int, high as int);
                    r is Ok && (final(h)@, r->Ok_0) == publish::handed(
                        outward::out(h2, NatV { id, val: ObjV::List(part) }),
                    )
                },
                _ => final(h)@ == reading::tidied(h1) && errors::raises(
                    r,
                    ExcKind::TypeError,
                    "PyList_GetSlice: expected list"@,
                ),
            }
        }),
{
    let items: Vec<Native> = match clone_object(h, list).val {
        Object::List(items) => items,
        _ => {
            return Err(raise_str(ExcKind::TypeError, "PyList_GetSlice: expected list"));
        },
    };
    proof {
        value::lemma_seq_deep(items@);
    }
    let ghost all = value::seq_deep(items@);
    let lo: usize = clamp(low, items.len());
    let hi: usize = clamp(high, items.len());
    let mut part: Vec<Native> = Vec::new();
    let mut i: usize = lo;
    assert(value::seq_deep(part@) =~= Seq::<NatV>::empty());
    while i < hi
        invariant
            lo <= hi ==> lo <= i <= hi,
            lo > hi ==> i == lo,
            hi <= items@.len(),
            all == value::seq_deep(items@),
            all.len() == items@.len(),
            value::seq_deep(part@) == (if lo < hi {
                all.subrange(lo as int, i as int)
            } else {
                Seq::empty()
            }),
        decreases hi - i,
    {
        let c: Native = copy_native(&items[i]);
        proof {
            value::lemma_seq_deep(items@);
            value::lemma_seq_deep_push(part@, c);
            assert(all[i as int] == items@[i as int]@);
        }
        part.push(c);
        i = i + 1;
        assert(value::seq_deep(part@) =~= all.subrange(lo as int, i as int));
    }
    let id: usize = h.fresh_cell();
    Ok(into_owned(h, &Native { id, val: Object::List(part) }))
}

// ---------------------------------------------------------------------------
// Functions and modules
// ---------------------------------------------------------------------------

/// One pinned annotations dict per function.
pub struct AnnotationsCache {
    map: HashMap<usize, usize>,
}

impl View for AnnotationsCache {
    type V = Map<usize, usize>;

    closed spec fn view(&self) -> Map<usize, usize> {
        self.map@
    }
}

impl AnnotationsCache {
    /// Nothing is pinned.
    pub fn new() -> (r: AnnotationsCache)
        ensures
            r@ == Map::<usize, usize>::empty(),
    {
        AnnotationsCache { map: HashMap::new() }
    }
}

/// The annotations dict of a function: the pinned one, or the one that looking
/// the attribute up gives (`found`, zero for none), which is pinned.
pub fn PyFunction_GetAnnotations(cache: &mut AnnotationsCache, func: usize, found: usize) -> (r:
    usize)
    ensures
        old(cache)@.dom().contains(func) ==> r == old(cache)@[func] && final(cache)@ == old(cache)@,
        !old(cache)@.dom().contains(func) ==> r == found && final(cache)@ == (if found == 0 {
            old(cache)@
        } else {
            old(cache)@.insert(func, found)
        }),
{
    if let Some(p) = cache.map.get(&func) {
        return *p;
    }
    if found != 0 {
        cache.map.insert(func, found);
    }
    found
}

/// The `__file__` of a module, where it is a str.
pub fn PyModule_GetFilenameObject(file: Option<&Object>) -> (r: Result<Vec<char>, Failure>)
    ensures
        strings::is_str(file) ==> r is Ok && r->Ok_0@ == strings::str_of(file),
        !strings::is_str(file) ==> errors::raises(
            r,
            ExcKind::SystemError,
            "module filename missing"@,
        ),
{
    match file {
        Some(Object::Str(s)) => {
            assert(s@.subrange(0, s@.len() as int) =~= s@);
            Ok(slice_of(s.as_slice(), 0, s.len()))
        },
        _ => Err(raise_str(ExcKind::SystemError, "module filename missing")),
    }
}

// ---------------------------------------------------------------------------
// str / bytes operations
// ---------------------------------------------------------------------------

/// A str argument, or the exception that `who` raises for anything else.
pub fn str_arg<'a>(o: &'a Object, who: &str) -> (r: Result<&'a Vec<char>, Failure>)
    ensures
        match *o {
            Object::Str(s) => r is Ok && *r->Ok_0 == s,
            _ => errors::raises(r, ExcKind::TypeError, who@ + ": expected str"@),
        },
{
    match o {
        Object::Str(s) => Ok(s),
        _ => {
            let mut m: Vec<char> = text::text(who);
            push_str(&mut m, ": expected str");
            Err(raise(ExcKind::TypeError, m))
        },
    }
}

/// The builtin value behind an object, and the heap after it was read.
pub open spec fn value_behind(h: HeapV, p: usize) -> (HeapV, ObjV) {
    let (h1, v) = reading::object_at(h, p);
    (reading::tidied(h1), object::plain_value(v).val)
}

/// Two texts are joined in place: the heap, what the place of the left one holds then,
/// and whether both were texts. The reference to the left one is released; where one
/// of them is no text, NULL takes its place.
pub open spec fn joined(h: HeapV, left: usize, right: usize) -> (HeapV, usize, bool) {
    let (h1, a) = value_behind(h, left);
    let (h2, b) = value_behind(h1, right);
    match (a, b) {
        (ObjV::Str(s), ObjV::Str(t)) => {
            let (h3, id) = heap::new_cell(h2);
            let (h4, p) = publish::handed(
                outward::out(h3, NatV { id, val: ObjV::Str(s + t) }),
            );
            (freeing::released(h4, seq![left]), p, true)
        },
        _ => (freeing::released(h2, seq![left]), 0, false),
    }
}

/// Append a text to the one whose object a place holds. What the place holds
/// afterwards is returned, and what failed. `place` is none for a NULL place; a NULL
/// object on either side changes nothing.
pub fn PyUnicode_Append(h: &mut Heap, place: Option<usize>, right: usize) -> (r: (
    Option<usize>,
    Result<(), Failure>,
))
    ensures
        match place {
            None => final(h)@ == old(h)@ && r.0 is None && r.1 is Ok,
            Some(left) => if left == 0 || right == 0 {
                final(h)@ == old(h)@ && r.0 == Some(left) && r.1 is Ok
            } else {
                let (h1, p, both) = joined(old(h)@, left, right);
                &&& final(h)@ == h1
                &&& r.0 == Some(p)
                &&& both ==> r.1 is Ok
                &&& !both ==> errors::raises(
                    r.1,
                    ExcKind::TypeError,
                    "PyUnicode_Append"@ + ": expected str"@,
                )
            },
        },
{
    let left: usize = match place {
        None => {
            return (None, Ok(()));
        },
        Some(left) => left,
    };
    if left == 0 || right == 0 {
        return (Some(left), Ok(()));
    }
    let a: Native = clone_object_value(h, left);
    let b: Native = clone_object_value(h, right);
    let text: Result<Vec<char>, Failure> = match str_arg(&a.val, "PyUnicode_Append") {
        Ok(s) => match str_arg(&b.val, "PyUnicode_Append") {
            Ok(t) => {
                let mut out: Vec<char> = slice_of(s.as_slice(), 0, s.len());
                push_all(&mut out, t.as_slice());
                assert(out@ =~= s@ + t@);
                Ok(out)
            },
            Err(e) => Err(e),
        },
        Err(e) => Err(e),
    };
    match text {
        Ok(s) => {
            let id: usize = h.fresh_cell();
            let p: usize = into_owned(h, &Native { id, val: Object::Str(s) });
            decref_one(h, left);
            (Some(p), Ok(()))
        },
        Err(e) => {
            decref_one(h, left);
            (Some(0), Err(e))
        },
    }
}

/// A start bound: counted from the end where it is negative, not below zero.
pub open spec fn adjusted_start(len: int, start: int) -> int {
    if start >= 0 {
        start
    } else if start + len < 0 {
        0
    } else {
        start + len
    }
}

/// An end bound: counted from the end where it is negative, and clamped.
pub open spec fn adjusted_end(len: int, end: int) -> int {
    if end > len {
        len
    } else {
        adjusted_start(len, end)
    }
}

/// Clamp slice-style bounds (in code points) onto a length. A start beyond the
/// length stays.
pub fn adjust_indices(len: isize, start: isize, end: isize) -> (r: (usize, usize))
    requires
        len >= 0,
    ensures
        r.0 == adjusted_start(len as int, start as int),
        r.1 == adjusted_end(len as int, end as int),
{
    let mut e: isize = end;
    if e > len {
        e = len;
    } else if e < 0 {
        e = e + len;
        if e < 0 {
            e = 0;
        }
    }
    let mut s: isize = start;
    if s < 0 {
        s = s + len;
        if s < 0 {
            s = 0;
        }
    }
    (s as usize, e as usize)
}

/// The number of non-overlapping occurrences of `n` in `h[start..end]`. The
/// empty string occurs once more often than there are code points, and once in
/// an empty or inverted range that starts within the string.
pub open spec fn count_spec(h: Seq<char>, n: Seq<char>, start: int, end: int) -> int {
    let lo = adjusted_start(h.len() as int, start);
    let hi = adjusted_end(h.len() as int, end);
    if n.len() == 0 {
        if lo <= hi {
            hi - lo + 1
        } else if lo <= h.len() {
            1
        } else {
            0
        }
    } else if lo < hi {
        search::count_from(h.subrange(lo, hi), n, 0) as int
    } else {
        0
    }
}

/// Count the non-overlapping occurrences of a substring in a range.
pub fn PyUnicode_Count(s: &Object, needle: &Object, start: isize, end: isize) -> (r: Result<
    usize,
    Failure,
>)
    requires
        s matches Object::Str(h) ==> h@.len() < isize::MAX,
    ensures
        *s is Str && *needle is Str ==> r is Ok && r->Ok_0 == count_spec(
            s->Str_0@,
            needle->Str_0@,
            start as int,
            end as int,
        ),
        !(*s is Str && *needle is Str) ==> errors::raises(
            r,
            ExcKind::TypeError,
            "PyUnicode_Count"@ + ": expected str"@,
        ),
{
    let h = match str_arg(s, "PyUnicode_Count") {
        Ok(a) => a,
        Err(e) => {
            return Err(e);
        },
    };
    let n = match str_arg(needle, "PyUnicode_Count") {
        Ok(b) => b,
        Err(e) => {
            return Err(e);
        },
    };
    let (lo, hi) = adjust_indices(h.len() as isize, start, end);
    if n.len() == 0 {
        if lo <= hi {
            return Ok(hi - lo + 1);
        }
        return Ok(
            if lo <= h.len() {
                1
            } else {
                0
            },
        );
    }
    if lo >= hi {
        return Ok(0);
    }
    let w: Vec<char> = slice_of(h.as_slice(), lo, hi);
    Ok(count(w.as_slice(), n.as_slice()))
}

/// The pieces of `rest` from the right, at most `limit` splits at `n`, the
/// rightmost piece first.
pub open spec fn rsplit_rev(rest: Seq<char>, n: Seq<char>, limit: nat) -> Seq<Seq<char>>
    decreases limit,
{
    if limit == 0 {
        seq![rest]
    } else {
        match search::rfind_spec(rest, n) {
            Some(i) => seq![rest.subrange(i + n.len(), rest.len() as int)] + rsplit_rev(
                rest.subrange(0, i),
                n,
                (limit - 1) as nat,
            ),
            None => seq![rest],
        }
    }
}

/// The last whitespace at or below `i`.
pub open spec fn last_ws(s: Seq<char>, i: int) -> int
    decreases i + 1,
{
    if i < 0 || i >= s.len() || strings::char_is_whitespace(s[i]) {
        i
    } else {
        last_ws(s, i - 1)
    }
}

/// The words of `rest` (which has no whitespace at its end) from the right, at
/// most `limit` splits, the rightmost word first.
pub open spec fn rwords_rev(rest: Seq<char>, limit: nat) -> Seq<Seq<char>>
    decreases limit,
{
    if rest.len() == 0 {
        Seq::empty()
    } else if limit == 0 {
        seq![rest]
    } else {
        let i = last_ws(rest, rest.len() - 1);
        if i < 0 {
            seq![rest]
        } else {
            seq![rest.subrange(i + 1, rest.len() as int)] + rwords_rev(
                strings::trim_end(rest.subrange(0, i)),
                (limit - 1) as nat,
            )
        }
    }
}

/// The number of splits that an argument allows.
pub open spec fn split_limit(maxsplit: isize) -> nat {
    if maxsplit < 0 {
        usize::MAX as nat
    } else {
        maxsplit as nat
    }
}

fn reverse_pieces(v: Vec<Vec<char>>) -> (r: Vec<Vec<char>>)
    ensures
        search::texts(r@) == search::texts(v@).reverse(),
{
    let mut out: Vec<Vec<char>> = Vec::new();
    let mut i: usize = v.len();
    while i > 0
        invariant
            i <= v@.len(),
            search::texts(out@).len() == v@.len() - i,
            forall|k: int|
                0 <= k < v@.len() - i ==> search::texts(out@)[k] == v@[v@.len() - 1 - k]@,
        decreases i,
    {
        i = i - 1;
        assert(v@[i as int]@.subrange(0, v@[i as int]@.len() as int) =~= v@[i as int]@);
        push_piece(&mut out, slice_of(v[i].as_slice(), 0, v[i].len()));
    }
    assert(search::texts(out@) =~= search::texts(v@).reverse());
    out
}

fn rsplit_at(h: &Vec<char>, n: &Vec<char>, limit: usize) -> (r: Vec<Vec<char>>)
    ensures
        search::texts(r@) == rsplit_rev(h@, n@, limit as nat).reverse(),
{
    let mut parts: Vec<Vec<char>> = Vec::new();
    let mut rest: Vec<char> = slice_of(h.as_slice(), 0, h.len());
    assert(rest@ =~= h@);
    let mut left: usize = limit;
    let ghost whole = rsplit_rev(h@, n@, limit as nat);
    assert(search::texts(parts@) + whole =~= whole);
    loop
        invariant_except_break
            whole == search::texts(parts@) + rsplit_rev(rest@, n@, left as nat),
        ensures
            whole == search::texts(parts@).push(rest@),
        decreases left,
    {
        let ghost before = search::texts(parts@);
        if left == 0 {
            assert(before + seq![rest@] =~= before.push(rest@));
            break;
        }
        let end: usize = rest.len();
        match rfind(rest.as_slice(), n.as_slice()) {
            Some(i) => {
                push_piece(&mut parts, slice_of(rest.as_slice(), i + n.len(), end));
                let shorter: Vec<char> = slice_of(rest.as_slice(), 0, i);
                assert(before + rsplit_rev(rest@, n@, left as nat) =~= search::texts(parts@)
                    + rsplit_rev(shorter@, n@, (left - 1) as nat));
                rest = shorter;
                left = left - 1;
            },
            None => {
                assert(before + seq![rest@] =~= before.push(rest@));
                break;
            },
        }
    }
    push_piece(&mut parts, rest);
    reverse_pieces(parts)
}

fn find_last_ws(s: &Vec<char>) -> (r: Option<usize>)
    requires
        s@.len() > 0,
    ensures
        match r {
            Some(i) => i < s@.len() && i == last_ws(s@, s@.len() - 1),
            None => last_ws(s@, s@.len() - 1) < 0,
        },
{
    let mut i: usize = s.len();
    while i > 0
        invariant
            i <= s@.len(),
            s@.len() > 0,
            last_ws(s@, s@.len() - 1) == last_ws(s@, i - 1),
        decreases i,
    {
        let at: usize = skip_ws(s, i - 1, true);
        if at == i - 1 {
            return Some(at);
        }
        i = i - 1;
    }
    None
}

fn rwords(h: &Vec<char>, limit: usize) -> (r: Vec<Vec<char>>)
    ensures
        search::texts(r@) == rwords_rev(strings::trim_end(h@), limit as nat).reverse(),
{
    let mut parts: Vec<Vec<char>> = Vec::new();
    let mut rest: Vec<char> = trim_end_of(h.as_slice());
    let mut left: usize = limit;
    let ghost whole = rwords_rev(rest@, limit as nat);
    assert(search::texts(parts@) + whole =~= whole);
    while rest.len() > 0 && left > 0
        invariant_except_break
            whole == search::texts(parts@) + rwords_rev(rest@, left as nat),
        ensures
            whole == (if rest@.len() == 0 {
                search::texts(parts@)
            } else {
                search::texts(parts@).push(rest@)
            }),
        decreases left,
    {
        let ghost before = search::texts(parts@);
        match find_last_ws(&rest) {
            Some(i) => {
                push_piece(&mut parts, slice_of(rest.as_slice(), i + 1, rest.len()));
                let head: Vec<char> = slice_of(rest.as_slice(), 0, i);
                let shorter: Vec<char> = trim_end_of(head.as_slice());
                assert(before + rwords_rev(rest@, left as nat) =~= search::texts(parts@)
                    + rwords_rev(shorter@, (left - 1) as nat));
                rest = shorter;
                left = left - 1;
            },
            None => {
                assert(before + seq![rest@] =~= before.push(rest@));
                break;
            },
        }
        proof {
            if rest@.len() == 0 {
                assert(search::texts(parts@) + rwords_rev(rest@, left as nat) =~= search::texts(
                    parts@,
                ));
            } else if left == 0 {
                assert(search::texts(parts@) + seq![rest@] =~= search::texts(parts@).push(rest@));
            }
        }
    }
    if rest.len() > 0 {
        push_piece(&mut parts, rest);
    }
    reverse_pieces(parts)
}

/// `str.rsplit`; without a separator it splits on runs of whitespace.
pub fn PyUnicode_RSplit(s: &Object, sep: Option<&Object>, maxsplit: isize) -> (r: Result<
    Vec<Vec<char>>,
    Failure,
>)
    ensures
        match *s {
            Object::Str(h) => match sep {
                None => r is Ok && search::texts(r->Ok_0@) == rwords_rev(
                    strings::trim_end(h@),
                    split_limit(maxsplit),
                ).reverse(),
                Some(Object::Str(n)) => if n@.len() == 0 {
                    errors::raises(r, ExcKind::ValueError, "empty separator"@)
                } else {
                    r is Ok && search::texts(r->Ok_0@) == rsplit_rev(
                        h@,
                        n@,
                        split_limit(maxsplit),
                    ).reverse()
                },
                Some(_) => errors::raises(
                    r,
                    ExcKind::TypeError,
                    "PyUnicode_RSplit"@ + ": expected str"@,
                ),
            },
            _ => errors::raises(r, ExcKind::TypeError, "PyUnicode_RSplit"@ + ": expected str"@),
        },
{
    let h = match str_arg(s, "PyUnicode_RSplit") {
        Ok(a) => a,
        Err(e) => {
            return Err(e);
        },
    };
    let limit: usize = if maxsplit < 0 {
        usize::MAX
    } else {
        maxsplit as usize
    };
    match sep {
        None => Ok(rwords(h, limit)),
        Some(o) => {
            let n = match str_arg(o, "PyUnicode_RSplit") {
                Ok(b) => b,
                Err(e) => {
                    return Err(e);
                },
            };
            if n.len() == 0 {
                return Err(raise_str(ExcKind::ValueError, "empty separator"));
            }
            Ok(rsplit_at(h, n, limit))
        },
    }
}

/// The number of bytes of the UTF-8 character that starts at byte `i`; one at
/// the end of the text.
pub fn char_len_at(s: &[u8], i: usize) -> (r: usize)
    requires
        i <= s@.len(),
        valid_utf8(s@.subrange(i as int, s@.len() as int)),
    ensures
        r == (if i == s@.len() {
            1
        } else {
            length_of_first_scalar(s@.subrange(i as int, s@.len() as int))
        }),
{
    if i == s.len() {
        return 1;
    }
    let b: u8 = s[i];
    assert(b == s@.subrange(i as int, s@.len() as int)[0]);
    if b <= 0x7f {
        1
    } else if b >= 0xc0 && b <= 0xdf {
        2
    } else if b >= 0xe0 && b <= 0xef {
        3
    } else {
        4
    }
}

/// String equality: the same object, or two equal strs.
pub fn _PyUnicode_Equal(a: &Object, b: &Object, same_object: bool) -> (r: bool)
    ensures
        r == (same_object || (*a is Str && *b is Str && a->Str_0@ == b->Str_0@)),
{
    if same_object {
        return true;
    }
    match (a, b) {
        (Object::Str(x), Object::Str(y)) => same(x.as_slice(), y.as_slice()),
        _ => false,
    }
}

/// The index of the first item at or after `i` that is not bytes-like.
pub open spec fn first_not_bytes(items: Seq<Object>, i: int) -> int
    decreases items.len() - i,
{
    if i < 0 || i >= items.len() || strings::bytes_like(Some(&items[i])) is None {
        i
    } else {
        first_not_bytes(items, i + 1)
    }
}

/// The contents of the first `n` items with `sep` between each two.
pub open spec fn bytes_joined(sep: Seq<u8>, items: Seq<Object>, n: int) -> Seq<u8>
    decreases n,
{
    if n <= 0 {
        Seq::empty()
    } else {
        let chunk = strings::bytes_like(Some(&items[n - 1]))->0;
        if n == 1 {
            chunk
        } else {
            bytes_joined(sep, items, n - 1) + sep + chunk
        }
    }
}

/// `sep.join(items)` over bytes-like objects. `items` is what iterating gave,
/// `interrupted` whether an exception ended it.
pub fn _PyBytes_Join(sep: &Object, items: &Vec<Object>, interrupted: bool) -> (r: Result<
    Vec<u8>,
    Failure,
>)
    ensures
        match *sep {
            Object::Bytes(b) => {
                let bad = first_not_bytes(items@, 0);
                if bad < items@.len() {
                    errors::raises(
                        r,
                        ExcKind::TypeError,
                        "sequence item: expected a bytes-like object"@,
                    )
                } else if interrupted {
                    errors::silent(r)
                } else {
                    r is Ok && r->Ok_0@ == bytes_joined(b@, items@, items@.len() as int)
                }
            },
            _ => errors::raises(r, ExcKind::TypeError, "_PyBytes_Join: sep must be bytes"@),
        },
{
    let sep_b = match sep {
        Object::Bytes(b) => b,
        _ => {
            return Err(raise_str(ExcKind::TypeError, "_PyBytes_Join: sep must be bytes"));
        },
    };
    let mut out: Vec<u8> = Vec::new();
    let mut i: usize = 0;
    while i < items.len()
        invariant
            i <= items@.len(),
            *sep == Object::Bytes(*sep_b),
            first_not_bytes(items@, 0) == first_not_bytes(items@, i as int),
            out@ == bytes_joined(sep_b@, items@, i as int),
        decreases items.len() - i,
    {
        let chunk = match &items[i] {
            Object::Bytes(b) => b,
            Object::ByteArray(b) => b,
            _ => {
                return Err(
                    raise_str(ExcKind::TypeError, "sequence item: expected a bytes-like object"),
                );
            },
        };
        if i > 0 {
            push_bytes(&mut out, sep_b.as_slice());
        }
        push_bytes(&mut out, chunk.as_slice());
        assert(out@ =~= bytes_joined(sep_b@, items@, i + 1));
        i = i + 1;
    }
    if interrupted {
        Err(Failure::Silent)
    } else {
        Ok(out)
    }
}

/// A negative number of splits sets no limit; any other one is the limit.
pub proof fn law_split_limit(n: isize)
    ensures
        n >= 0 ==> split_limit(n) == n,
        n < 0 ==> split_limit(n) >= isize::MAX,
{
}

proof fn lemma_bytes_so_far(items: Seq<Object>, i: int, n: int)
    requires
        0 <= i <= n <= items.len(),
        forall|k: int| i <= k < n ==> #[trigger] items[k] is Bytes || items[k] is ByteArray,
        n < items.len() ==> !(items[n] is Bytes || items[n] is ByteArray),
    ensures
        first_not_bytes(items, i) == n,
    decreases n - i,
{
    if i < n {
        assert(items[i] is Bytes || items[i] is ByteArray);
        lemma_bytes_so_far(items, i + 1, n);
    }
}

/// The first item of a join that is neither bytes nor a byte array is found behind those in
/// front of it; where all are one of the two, there is none.
pub proof fn law_first_that_is_no_bytes(items: Seq<Object>, n: int)
    requires
        0 <= n <= items.len(),
        forall|k: int| 0 <= k < n ==> #[trigger] items[k] is Bytes || items[k] is ByteArray,
        n < items.len() ==> !(items[n] is Bytes || items[n] is ByteArray),
    ensures
        first_not_bytes(items, 0) == n,
{
    lemma_bytes_so_far(items, 0, n);
}

/// A block for an integer has room for the head, the tag and the digits, and for one digit
/// at least.
pub proof fn law_raw_block_size(n: int)
    ensures
        raw_long_size(n) >= 24 + 4 * n,
        raw_long_size(n) >= 32,
        n >= 1 ==> raw_long_size(n + 1) == raw_long_size(n) + 4,
        raw_long_size(1) == 32,
{
}

/// Two texts are joined exactly where both are texts, and the reference to the left one
/// is released either way.
pub proof fn law_joined(h: HeapV, left: usize, right: usize)
    ensures
        ({
            let (h1, a) = value_behind(h, left);
            let (h2, b) = value_behind(h1, right);
            let (g, p, both) = joined(h, left, right);
            &&& both <==> a is Str && b is Str
            &&& !both ==> p == 0 && g == freeing::released(h2, seq![left])
            &&& both ==> {
                let (h3, id) = heap::new_cell(h2);
                let (h4, q) = publish::handed(
                    outward::out(h3, NatV { id, val: ObjV::Str(a->Str_0 + b->Str_0) }),
                );
                p == q && g == freeing::released(h4, seq![left])
            }
        }),
{
}

} // verus!
