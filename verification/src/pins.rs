//! Scalars that stay alive after C code let go of them, and interned texts.

use vstd::prelude::*;
use vstd::utf8::*;
use crate::heap;
use crate::heap::{Heap, HeapV, ScalarPinKey, StoreV};
use crate::freeing;
use crate::mirror;
use crate::freeing::{free_mirror, strong_of};
use crate::object::Py_IncRef;
use crate::text::same;
use crate::utf8::encode;
use crate::value;
use crate::value::{NatV, Native, ObjV, Object};

verus! {

broadcast use vstd::std_specs::hash::group_hash_axioms;

/// So many pins make a sweep due.
pub const SCALAR_PIN_HWM: usize = 65536;

/// So many bytes behind pins make a sweep due.
pub const SCALAR_PIN_BYTE_HWM: usize = 524288;

/// What makes a scalar the same scalar again: its value where it is small, else
/// the address of its cell. No other object is pinned.
pub open spec fn pin_key(n: NatV) -> Option<ScalarPinKey> {
    match n.val {
        ObjV::Int(i) => Some(ScalarPinKey::Int(i)),
        ObjV::Float(f) => Some(ScalarPinKey::FloatBits(f)),
        ObjV::Long(_, _) => Some(ScalarPinKey::Rc(1, n.id)),
        ObjV::Complex(_, _) => Some(ScalarPinKey::Rc(2, n.id)),
        ObjV::Str(_) => Some(ScalarPinKey::Rc(3, n.id)),
        ObjV::Bytes(_) => Some(ScalarPinKey::Rc(5, n.id)),
        ObjV::Tuple(_) => Some(ScalarPinKey::Rc(6, n.id)),
        _ => None,
    }
}

/// The key under which an object is pinned, if it can be.
pub fn scalar_pin_key(n: &Native) -> (r: Option<ScalarPinKey>)
    ensures
        r == pin_key(n@),
{
    match &n.val {
        Object::Int(i) => Some(ScalarPinKey::Int(*i)),
        Object::Float(f) => Some(ScalarPinKey::FloatBits(*f)),
        Object::Long(_) => Some(ScalarPinKey::Rc(1, n.id)),
        Object::Complex(_, _) => Some(ScalarPinKey::Rc(2, n.id)),
        Object::Str(_) => Some(ScalarPinKey::Rc(3, n.id)),
        Object::Bytes(_) => Some(ScalarPinKey::Rc(5, n.id)),
        Object::Tuple(_) => Some(ScalarPinKey::Rc(6, n.id)),
        _ => None,
    }
}

/// About how many bytes a pinned object keeps alive: five for each byte of a
/// text, one for each byte of bytes, and for a tuple sixteen for each element
/// and what the elements keep alive.
pub open spec fn payload(n: NatV) -> nat
    decreases n,
{
    match n.val {
        ObjV::Str(s) => 5 * encode_utf8(s).len(),
        ObjV::Bytes(b) => b.len(),
        ObjV::Tuple(t) => payloads(t),
        _ => 16,
    }
}

/// What the elements of a tuple keep alive, sixteen bytes more for each.
pub open spec fn payloads(s: Seq<NatV>) -> nat
    decreases s,
{
    if s.len() == 0 {
        0
    } else {
        payloads(s.drop_last()) + 16 + payload(s.last())
    }
}

/// A count, at most the largest that a machine word holds.
pub open spec fn capped(n: nat) -> usize {
    if n <= usize::MAX {
        n as usize
    } else {
        usize::MAX
    }
}

fn sum(a: usize, b: usize) -> (r: usize)
    ensures
        r == capped((a + b) as nat),
{
    if a <= usize::MAX - b {
        a + b
    } else {
        usize::MAX
    }
}

/// About how many bytes a pinned object keeps alive.
pub fn pin_payload_bytes(n: &Native) -> (r: usize)
    ensures
        r == capped(payload(n@)),
    decreases *n,
{
    match &n.val {
        Object::Str(s) => {
            let len: usize = encode(s.as_slice()).len();
            if len <= usize::MAX / 5 {
                len * 5
            } else {
                usize::MAX
            }
        },
        Object::Bytes(b) => b.len(),
        Object::Tuple(v) => elements_payload(v),
        _ => 16,
    }
}

fn elements_payload(v: &Vec<Native>) -> (r: usize)
    ensures
        r == capped(payloads(value::seq_deep(v@))),
    decreases v@,
{
    let mut total: usize = 0;
    let mut i: usize = 0;
    let ghost all = value::seq_deep(v@);
    proof {
        value::lemma_seq_deep(v@);
    }
    assert(all.subrange(0, 0) =~= Seq::<NatV>::empty());
    while i < v.len()
        invariant
            i <= v@.len(),
            all == value::seq_deep(v@),
            all.len() == v@.len(),
            total == capped(payloads(all.subrange(0, i as int))),
        decreases v.len() - i,
    {
        let own: usize = pin_payload_bytes(&v[i]);
        proof {
            value::lemma_seq_deep(v@);
            assert(all[i as int] == v@[i as int]@);
            assert(all.subrange(0, i + 1).drop_last() =~= all.subrange(0, i as int));
        }
        total = sum(total, sum(16, own));
        i = i + 1;
    }
    assert(all.subrange(0, all.len() as int) =~= all);
    total
}

// ---------------------------------------------------------------------------
// The table of pins
// ---------------------------------------------------------------------------

/// The pinned object for a key.
pub open spec fn pin_at(pins: Seq<(ScalarPinKey, usize)>, key: ScalarPinKey) -> Option<usize>
    decreases pins.len(),
{
    if pins.len() == 0 {
        None
    } else if pins.last().0 == key {
        Some(pins.last().1)
    } else {
        pin_at(pins.drop_last(), key)
    }
}

/// A key that is not in the table goes in at its end, and is found there.
pub proof fn lemma_pin_goes_in(pins: Seq<(ScalarPinKey, usize)>, key: ScalarPinKey, p: usize)
    requires
        pin_at(pins, key) is None,
    ensures
        pins_without(pins, key) == pins,
        pin_at(pins.push((key, p)), key) == Some(p),
    decreases pins.len(),
{
    assert(pins.push((key, p)).drop_last() =~= pins);
    if pins.len() > 0 {
        lemma_pin_goes_in(pins.drop_last(), key, p);
        assert(pins.drop_last().push(pins.last()) =~= pins);
    }
}

/// The table without a key.
pub open spec fn pins_without(
    pins: Seq<(ScalarPinKey, usize)>,
    key: ScalarPinKey,
) -> Seq<(ScalarPinKey, usize)>
    decreases pins.len(),
{
    if pins.len() == 0 {
        pins
    } else if pins.last().0 == key {
        pins_without(pins.drop_last(), key)
    } else {
        pins_without(pins.drop_last(), key).push(pins.last())
    }
}

fn find_pin(pins: &Vec<(ScalarPinKey, usize)>, key: ScalarPinKey) -> (r: Option<usize>)
    ensures
        r == pin_at(pins@, key),
{
    let mut i: usize = pins.len();
    assert(pins@.subrange(0, i as int) =~= pins@);
    while i > 0
        invariant
            i <= pins@.len(),
            pin_at(pins@, key) == pin_at(pins@.subrange(0, i as int), key),
        decreases i,
    {
        assert(pins@.subrange(0, i as int).drop_last() =~= pins@.subrange(0, i - 1));
        i = i - 1;
        if pins[i].0 == key {
            return Some(pins[i].1);
        }
    }
    None
}

fn drop_pin(pins: &mut Vec<(ScalarPinKey, usize)>, key: ScalarPinKey)
    ensures
        final(pins)@ == pins_without(old(pins)@, key),
{
    let mut out: Vec<(ScalarPinKey, usize)> = Vec::new();
    let mut i: usize = 0;
    assert(pins@.subrange(0, 0) =~= Seq::<(ScalarPinKey, usize)>::empty());
    while i < pins.len()
        invariant
            i <= pins@.len(),
            pins@ == old(pins)@,
            out@ == pins_without(pins@.subrange(0, i as int), key),
        decreases pins.len() - i,
    {
        assert(pins@.subrange(0, i + 1).drop_last() =~= pins@.subrange(0, i as int));
        if pins[i].0 != key {
            out.push(pins[i]);
        }
        i = i + 1;
    }
    assert(pins@.subrange(0, pins@.len() as int) =~= pins@);
    *pins = out;
}

/// The pins that C code no longer refers to.
pub open spec fn dead_pins(
    h: HeapV,
    pins: Seq<(ScalarPinKey, usize)>,
) -> Seq<(ScalarPinKey, usize)>
    decreases pins.len(),
{
    if pins.len() == 0 {
        pins
    } else if heap::refcnt_at(h, pins.last().1) <= 0 {
        dead_pins(h, pins.drop_last()).push(pins.last())
    } else {
        dead_pins(h, pins.drop_last())
    }
}

fn find_dead(h: &Heap) -> (r: Vec<(ScalarPinKey, usize)>)
    ensures
        r@ == dead_pins(h@, h@.pins),
{
    let mut out: Vec<(ScalarPinKey, usize)> = Vec::new();
    let mut i: usize = 0;
    assert(h.pins@.subrange(0, 0) =~= Seq::<(ScalarPinKey, usize)>::empty());
    while i < h.pins.len()
        invariant
            i <= h.pins@.len(),
            out@ == dead_pins(h@, h.pins@.subrange(0, i as int)),
        decreases h.pins.len() - i,
    {
        assert(h.pins@.subrange(0, i + 1).drop_last() =~= h.pins@.subrange(0, i as int));
        if h.get_refcnt(h.pins[i].1) <= 0 {
            out.push(h.pins[i]);
        }
        i = i + 1;
    }
    assert(h.pins@.subrange(0, h.pins@.len() as int) =~= h.pins@);
    out
}

/// The heap with the pin flag of an object set or cleared.
pub open spec fn flagged(h: HeapV, p: usize, on: bool) -> HeapV {
    heap::with_store(h, p, StoreV { scalar_pinned: on, ..h.mem[p] })
}

pub(crate) fn set_flag(h: &mut Heap, p: usize, on: bool)
    requires
        old(h)@.mem.contains_key(p),
    ensures
        final(h)@ == flagged(old(h)@, p, on),
{
    let ghost h0 = h@;
    if let Some(mut s) = h.take_store(p) {
        s.scalar_pinned = on;
        h.put_store(p, s);
        assert(h@.mem =~= h0.mem.insert(p, s@));
    }
}

fn bytes_behind(h: &Heap, p: usize) -> (r: usize)
    requires
        h@.mem.contains_key(p),
    ensures
        r == capped(payload(h@.mem[p].obj)),
{
    match h.store(p) {
        Some(s) => pin_payload_bytes(&s.obj),
        None => 0,
    }
}

/// So many bytes less, none where there are fewer.
pub open spec fn less(a: usize, b: usize) -> usize {
    if a >= b {
        (a - b) as usize
    } else {
        0
    }
}

fn minus(a: usize, b: usize) -> (r: usize)
    ensures
        r == less(a, b),
{
    if a >= b {
        a - b
    } else {
        0
    }
}

/// Take a pin that C code no longer refers to out of the table and free its
/// object.
pub open spec fn swept_one(h: HeapV, key: ScalarPinKey, p: usize) -> HeapV {
    let h1 = HeapV { pins: pins_without(h.pins, key), ..h };
    if h.mem.contains_key(p) {
        freeing::mirror_freed(
            flagged(
                HeapV { pin_bytes: less(h.pin_bytes, capped(payload(h.mem[p].obj))), ..h1 },
                p,
                false,
            ),
            p,
        )
    } else {
        h1
    }
}

/// Take these pins out of the table, first to last, and free their objects.
pub open spec fn swept(h: HeapV, dead: Seq<(ScalarPinKey, usize)>) -> HeapV
    decreases dead.len(),
{
    if dead.len() == 0 {
        h
    } else {
        swept_one(swept(h, dead.drop_last()), dead.last().0, dead.last().1)
    }
}

/// Free every pinned object that C code no longer refers to.
pub fn sweep_scalar_pins(h: &mut Heap)
    ensures
        final(h)@ == swept(old(h)@, dead_pins(old(h)@, old(h)@.pins)),
{
    let dead: Vec<(ScalarPinKey, usize)> = find_dead(h);
    let mut i: usize = 0;
    assert(dead@.subrange(0, 0) =~= Seq::<(ScalarPinKey, usize)>::empty());
    while i < dead.len()
        invariant
            i <= dead@.len(),
            h@ == swept(old(h)@, dead@.subrange(0, i as int)),
        decreases dead.len() - i,
    {
        assert(dead@.subrange(0, i + 1).drop_last() =~= dead@.subrange(0, i as int));
        let ghost h0 = h@;
        let (key, p): (ScalarPinKey, usize) = dead[i];
        drop_pin(&mut h.pins, key);
        if h.mem.contains_key(&p) {
            h.pin_bytes = minus(h.pin_bytes, bytes_behind(h, p));
            assert(h@ =~= (HeapV {
                pins: pins_without(h0.pins, key),
                pin_bytes: less(h0.pin_bytes, capped(payload(h0.mem[p].obj))),
                ..h0
            }));
            set_flag(h, p, false);
            free_mirror(h, p);
        } else {
            assert(h@ =~= (HeapV { pins: pins_without(h0.pins, key), ..h0 }));
        }
        i = i + 1;
    }
    assert(dead@.subrange(0, dead@.len() as int) =~= dead@);
}

/// Clear an object's pin flag and free it where C code no longer refers to it.
pub open spec fn unpinned(h: HeapV, p: usize) -> HeapV {
    let h1 = flagged(h, p, false);
    if heap::refcnt_at(h1, p) <= 0 {
        freeing::mirror_freed(h1, p)
    } else {
        h1
    }
}

fn unpin_scalar_box(h: &mut Heap, p: usize)
    requires
        old(h)@.mem.contains_key(p),
    ensures
        final(h)@ == unpinned(old(h)@, p),
{
    set_flag(h, p, false);
    if h.get_refcnt(p) <= 0 {
        free_mirror(h, p);
    }
}

/// The table is so full that it is swept before another pin goes in.
pub open spec fn sweep_due(h: HeapV, n: usize) -> bool {
    h.pins.len() >= SCALAR_PIN_HWM || h.pin_bytes + n > SCALAR_PIN_BYTE_HWM
}

/// Pin an object under a key. Where the table is full it is swept first. An
/// object that had the key before is unpinned.
#[verifier::opaque]
pub open spec fn pinned(h: HeapV, key: ScalarPinKey, p: usize) -> HeapV {
    let h1 = flagged(h, p, true);
    let n = capped(payload(h1.mem[p].obj));
    let h2 = if sweep_due(h1, n) {
        swept(h1, dead_pins(h1, h1.pins))
    } else {
        h1
    };
    let h3 = HeapV {
        pins: pins_without(h2.pins, key).push((key, p)),
        pin_bytes: capped((h2.pin_bytes + n) as nat),
        ..h2
    };
    match pin_at(h2.pins, key) {
        None => h3,
        Some(q) => if q == p {
            HeapV { pin_bytes: less(h3.pin_bytes, n), ..h3 }
        } else if h3.mem.contains_key(q) {
            unpinned(
                HeapV { pin_bytes: less(h3.pin_bytes, capped(payload(h3.mem[q].obj))), ..h3 },
                q,
            )
        } else {
            h3
        },
    }
}

/// Pin an object under a key.
pub fn register_scalar_pin(h: &mut Heap, key: ScalarPinKey, p: usize)
    requires
        old(h)@.mem.contains_key(p),
    ensures
        final(h)@ == pinned(old(h)@, key, p),
{
    proof {
        reveal(pinned);
    }
    set_flag(h, p, true);
    let n: usize = bytes_behind(h, p);
    if h.pins.len() >= SCALAR_PIN_HWM || h.pin_bytes as u128 + n as u128
        > SCALAR_PIN_BYTE_HWM as u128 {
        sweep_scalar_pins(h);
    }
    let ghost h2 = h@;
    let old_pin: Option<usize> = find_pin(&h.pins, key);
    drop_pin(&mut h.pins, key);
    h.pins.push((key, p));
    h.pin_bytes = sum(h.pin_bytes, n);
    let ghost h3 = HeapV {
        pins: pins_without(h2.pins, key).push((key, p)),
        pin_bytes: capped((h2.pin_bytes + n) as nat),
        ..h2
    };
    assert(h@ =~= h3);
    if let Some(q) = old_pin {
        if q == p {
            h.pin_bytes = minus(h.pin_bytes, n);
            assert(h@ =~= (HeapV { pin_bytes: less(h3.pin_bytes, n), ..h3 }));
        } else if h.mem.contains_key(&q) {
            h.pin_bytes = minus(h.pin_bytes, bytes_behind(h, q));
            assert(h@ =~= (HeapV {
                pin_bytes: less(h3.pin_bytes, capped(payload(h3.mem[q].obj))),
                ..h3
            }));
            unpin_scalar_box(h, q);
        }
    }
}

/// The pinned object for a key, where it has this type.
pub open spec fn pin_hit(h: HeapV, key: ScalarPinKey, ty: usize) -> Option<usize> {
    match pin_at(h.pins, key) {
        Some(p) => if heap::type_at(h, p) == ty {
            Some(p)
        } else {
            None
        },
        None => None,
    }
}

/// One more reference to the pinned object for a key, where it has this type.
pub fn cached_scalar_pin(h: &mut Heap, key: ScalarPinKey, ty: usize) -> (r: Option<usize>)
    ensures
        r == pin_hit(old(h)@, key, ty),
        final(h)@ == (match r {
            Some(p) => heap::increfed(old(h)@, p),
            None => old(h)@,
        }),
{
    match find_pin(&h.pins, key) {
        Some(p) => {
            if h.get_type(p) == ty {
                Py_IncRef(h, p);
                Some(p)
            } else {
                None
            }
        },
        None => None,
    }
}

/// Whether an object outlives its last reference from C code.
pub fn is_scalar_pinned(h: &Heap, p: usize) -> (r: bool)
    requires
        h@.mem.contains_key(p),
    ensures
        r == h@.mem[p].scalar_pinned,
{
    match h.store(p) {
        Some(s) => s.scalar_pinned,
        None => false,
    }
}

// ---------------------------------------------------------------------------
// What dead pins still hold
// ---------------------------------------------------------------------------

/// Two references lead to the same object, for the kinds that can be pinned.
pub open spec fn same_identity(a: NatV, b: NatV) -> bool {
    a.id == b.id && match (a.val, b.val) {
        (ObjV::Instance(_), ObjV::Instance(_)) => true,
        (ObjV::Tuple(_), ObjV::Tuple(_)) => true,
        (ObjV::Bytes(_), ObjV::Bytes(_)) => true,
        (ObjV::Str(_), ObjV::Str(_)) => true,
        (ObjV::Long(_, _), ObjV::Long(_, _)) => true,
        (ObjV::Complex(_, _), ObjV::Complex(_, _)) => true,
        _ => false,
    }
}

/// Whether two references lead to the same object, for the kinds that can be
/// pinned.
pub fn same_native_identity(a: &Native, b: &Native) -> (r: bool)
    ensures
        r == same_identity(a@, b@),
{
    a.id == b.id && match (&a.val, &b.val) {
        (Object::Instance(_), Object::Instance(_)) => true,
        (Object::Tuple(_), Object::Tuple(_)) => true,
        (Object::Bytes(_), Object::Bytes(_)) => true,
        (Object::Str(_), Object::Str(_)) => true,
        (Object::Long(_), Object::Long(_)) => true,
        (Object::Complex(_, _), Object::Complex(_, _)) => true,
        _ => false,
    }
}

/// The object is among the elements.
pub open spec fn occurs_in(target: NatV, s: Seq<NatV>) -> bool {
    exists|k: int| 0 <= k < s.len() && #[trigger] same_identity(s[k], target)
}

fn occurs(target: &Native, v: &Vec<Native>) -> (r: bool)
    ensures
        r == occurs_in(target@, value::seq_deep(v@)),
{
    let mut i: usize = 0;
    let ghost all = value::seq_deep(v@);
    proof {
        value::lemma_seq_deep(v@);
    }
    while i < v.len()
        invariant
            i <= v@.len(),
            all == value::seq_deep(v@),
            all.len() == v@.len(),
            forall|k: int| 0 <= k < v@.len() ==> #[trigger] all[k] == value::nat_deep(v@[k]),
            forall|k: int| 0 <= k < i ==> !#[trigger] same_identity(all[k], target@),
        decreases v.len() - i,
    {
        assert(all[i as int] == v@[i as int]@);
        if same_native_identity(&v[i], target) {
            return true;
        }
        i = i + 1;
    }
    false
}

/// A pin that C code no longer refers to holds the object: it is the object, or
/// it is a tuple that nothing else owns and the object is an element.
pub open spec fn holds_clone(h: HeapV, p: usize, target: NatV) -> bool {
    h.mem.contains_key(p) && heap::refcnt_at(h, p) <= 0 && {
        let o = h.mem[p].obj;
        ||| same_identity(o, target)
        ||| match o.val {
            ObjV::Tuple(t) => freeing::strong_refs(h, o.id) == 1 && occurs_in(target, t),
            _ => false,
        }
    }
}

/// How many of these pins hold the object without C code referring to them.
pub open spec fn clones_in(h: HeapV, pins: Seq<(ScalarPinKey, usize)>, target: NatV) -> nat
    decreases pins.len(),
{
    if pins.len() == 0 {
        0
    } else {
        clones_in(h, pins.drop_last(), target) + if holds_clone(h, pins.last().1, target) {
            1nat
        } else {
            0nat
        }
    }
}

fn pin_holds(h: &Heap, p: usize, target: &Native) -> (r: bool)
    ensures
        r == holds_clone(h@, p, target@),
{
    match h.store(p) {
        None => false,
        Some(s) => {
            if h.get_refcnt(p) > 0 {
                return false;
            }
            if same_native_identity(&s.obj, target) {
                return true;
            }
            match &s.obj.val {
                Object::Tuple(t) => strong_of(h, s.obj.id) == 1 && occurs(target, t),
                _ => false,
            }
        },
    }
}

/// How many references to an object are held only by pins that C code no longer
/// refers to.
pub fn dead_pin_clones_of(h: &Heap, target: &Native) -> (r: usize)
    ensures
        r == clones_in(h@, h@.pins, target@),
{
    let mut n: usize = 0;
    let mut i: usize = 0;
    assert(h.pins@.subrange(0, 0) =~= Seq::<(ScalarPinKey, usize)>::empty());
    while i < h.pins.len()
        invariant
            n <= i <= h.pins@.len(),
            n == clones_in(h@, h.pins@.subrange(0, i as int), target@),
        decreases h.pins.len() - i,
    {
        assert(h.pins@.subrange(0, i + 1).drop_last() =~= h.pins@.subrange(0, i as int));
        if pin_holds(h, h.pins[i].1, target) {
            n = n + 1;
        }
        i = i + 1;
    }
    assert(h.pins@.subrange(0, h.pins@.len() as int) =~= h.pins@);
    n
}

/// How often an address occurs.
pub open spec fn times(s: Seq<usize>, p: usize) -> nat
    decreases s.len(),
{
    if s.len() == 0 {
        0
    } else {
        times(s.drop_last(), p) + if s.last() == p {
            1nat
        } else {
            0nat
        }
    }
}

fn count_of(v: &Vec<usize>, p: usize) -> (r: usize)
    ensures
        r == times(v@, p),
{
    let mut n: usize = 0;
    let mut i: usize = 0;
    assert(v@.subrange(0, 0) =~= Seq::<usize>::empty());
    while i < v.len()
        invariant
            n <= i <= v@.len(),
            n == times(v@.subrange(0, i as int), p),
        decreases v.len() - i,
    {
        assert(v@.subrange(0, i + 1).drop_last() =~= v@.subrange(0, i as int));
        if v[i] == p {
            n = n + 1;
        }
        i = i + 1;
    }
    assert(v@.subrange(0, v@.len() as int) =~= v@);
    n
}

/// The references to an object in the slots of a pinned tuple that C code no
/// longer refers to, and in those recorded beside it.
pub open spec fn slot_refs(h: HeapV, p: usize, bp: usize) -> nat {
    if h.mem.contains_key(p) && heap::refcnt_at(h, p) <= 0 && h.mem[p].obj.val is Tuple {
        times(mirror::tuple_ptrs_of(h.mem[p]), bp) + times(mirror::snapshot_of(h.mem[p]), bp)
    } else {
        0
    }
}

/// The references to an object from the pinned tuples among these pins.
pub open spec fn refs_in(h: HeapV, pins: Seq<(ScalarPinKey, usize)>, bp: usize) -> nat
    decreases pins.len(),
{
    if pins.len() == 0 {
        0
    } else {
        refs_in(h, pins.drop_last(), bp) + slot_refs(h, pins.last().1, bp)
    }
}

/// How many of the references from C code to an object are held only by pinned
/// tuples that C code no longer refers to.
pub fn dead_pin_c_refs_to(h: &Heap, bp: usize) -> (r: usize)
    ensures
        r == capped(refs_in(h@, h@.pins, bp)),
{
    let mut n: usize = 0;
    let mut i: usize = 0;
    assert(h.pins@.subrange(0, 0) =~= Seq::<(ScalarPinKey, usize)>::empty());
    while i < h.pins.len()
        invariant
            i <= h.pins@.len(),
            n == capped(refs_in(h@, h.pins@.subrange(0, i as int), bp)),
        decreases h.pins.len() - i,
    {
        assert(h.pins@.subrange(0, i + 1).drop_last() =~= h.pins@.subrange(0, i as int));
        let p: usize = h.pins[i].1;
        if let Some(s) = h.store(p) {
            if h.get_refcnt(p) <= 0 && matches!(s.obj.val, Object::Tuple(_)) {
                let inside: usize = count_of(&s.tuple_slots(), bp);
                let beside: usize = count_of(&s.snapshot(), bp);
                n = sum(n, sum(inside, beside));
            }
        }
        i = i + 1;
    }
    assert(h.pins@.subrange(0, h.pins@.len() as int) =~= h.pins@);
    n
}

// ---------------------------------------------------------------------------
// Scopes
// ---------------------------------------------------------------------------

/// A region in which arguments cross to C code.
#[derive(Debug)]
pub struct ArgPinGuard(());

/// A region in which texts cross as interned texts.
#[derive(Debug)]
pub struct InternGuard(());

/// One level deeper. The count stops at the largest one.
pub open spec fn deeper(depth: usize) -> usize {
    if depth < usize::MAX {
        (depth + 1) as usize
    } else {
        depth
    }
}

/// Begin a region in which arguments cross to C code: scalars are pinned.
pub fn enter_arg_pin(h: &mut Heap) -> (r: ArgPinGuard)
    ensures
        final(h)@ == (HeapV { arg_depth: deeper(old(h)@.arg_depth), ..old(h)@ }),
{
    if h.arg_depth < usize::MAX {
        h.arg_depth = h.arg_depth + 1;
    }
    assert(h@ =~= (HeapV { arg_depth: deeper(old(h)@.arg_depth), ..old(h)@ }));
    ArgPinGuard(())
}

impl ArgPinGuard {
    /// End the region.
    pub fn leave(self, h: &mut Heap)
        ensures
            final(h)@ == (HeapV { arg_depth: less(old(h)@.arg_depth, 1), ..old(h)@ }),
    {
        h.arg_depth = minus(h.arg_depth, 1);
        assert(h@ =~= (HeapV { arg_depth: less(old(h)@.arg_depth, 1), ..old(h)@ }));
    }
}

/// Whether arguments are crossing.
pub fn arg_pin_active(h: &Heap) -> (r: bool)
    ensures
        r == (h@.arg_depth > 0),
{
    h.arg_depth > 0
}

/// Begin a region in which texts cross as interned texts.
pub fn enter_intern_scope(h: &mut Heap) -> (r: InternGuard)
    ensures
        final(h)@ == (HeapV { intern_depth: deeper(old(h)@.intern_depth), ..old(h)@ }),
{
    if h.intern_depth < usize::MAX {
        h.intern_depth = h.intern_depth + 1;
    }
    assert(h@ =~= (HeapV { intern_depth: deeper(old(h)@.intern_depth), ..old(h)@ }));
    InternGuard(())
}

impl InternGuard {
    /// End the region.
    pub fn leave(self, h: &mut Heap)
        ensures
            final(h)@ == (HeapV { intern_depth: less(old(h)@.intern_depth, 1), ..old(h)@ }),
    {
        h.intern_depth = minus(h.intern_depth, 1);
        assert(h@ =~= (HeapV { intern_depth: less(old(h)@.intern_depth, 1), ..old(h)@ }));
    }
}

/// Whether texts cross as interned texts.
pub fn intern_scope_active(h: &Heap) -> (r: bool)
    ensures
        r == (h@.intern_depth > 0),
{
    h.intern_depth > 0
}

/// Leaving a region that was entered restores the heap.
pub proof fn law_scopes_balance(h: HeapV)
    requires
        h.arg_depth < usize::MAX,
        h.intern_depth < usize::MAX,
    ensures
        ({
            let inside = HeapV { arg_depth: deeper(h.arg_depth), ..h };
            HeapV { arg_depth: less(inside.arg_depth, 1), ..inside } == h
        }),
        ({
            let inside = HeapV { intern_depth: deeper(h.intern_depth), ..h };
            HeapV { intern_depth: less(inside.intern_depth, 1), ..inside } == h
        }),
{
}

// ---------------------------------------------------------------------------
// Interned texts
// ---------------------------------------------------------------------------

/// The object of an interned text.
pub open spec fn interned_at(texts: Seq<(Seq<char>, usize)>, s: Seq<char>) -> Option<usize>
    decreases texts.len(),
{
    if texts.len() == 0 {
        None
    } else if texts.last().0 == s {
        Some(texts.last().1)
    } else {
        interned_at(texts.drop_last(), s)
    }
}

/// The object of an interned text.
pub fn find_interned(h: &Heap, s: &Vec<char>) -> (r: Option<usize>)
    ensures
        r == interned_at(h@.interned, s@),
{
    let mut i: usize = h.interned.len();
    let ghost all = h@.interned;
    assert(all.subrange(0, i as int) =~= all);
    while i > 0
        invariant
            i <= h.interned@.len(),
            all == heap::interned_texts(h.interned@),
            interned_at(all, s@) == interned_at(all.subrange(0, i as int), s@),
        decreases i,
    {
        assert(all.subrange(0, i as int).drop_last() =~= all.subrange(0, i - 1));
        i = i - 1;
        assert(all[i as int] == (h.interned@[i as int].0@, h.interned@[i as int].1));
        if same(h.interned[i].0.as_slice(), s.as_slice()) {
            return Some(h.interned[i].1);
        }
    }
    None
}

/// Two objects are the same where they are of one kind and in one cell. It does not
/// matter which of them comes first.
pub proof fn law_same_object(a: NatV, b: NatV)
    ensures
        same_identity(a, b) == same_identity(b, a),
        a.id != b.id ==> !same_identity(a, b),
        a.id == b.id && a.val == b.val && (a.val is Instance || a.val is Tuple || a.val is Bytes
            || a.val is Str || a.val is Long || a.val is Complex) ==> same_identity(a, b),
{
}

/// Every dead pin that holds a clone counts once, and so does every reference from one.
pub proof fn law_dead_pins(
    h: HeapV,
    a: Seq<(ScalarPinKey, usize)>,
    k: ScalarPinKey,
    p: usize,
    target: NatV,
    bp: usize,
)
    ensures
        clones_in(h, Seq::empty(), target) == 0,
        refs_in(h, Seq::empty(), bp) == 0,
        holds_clone(h, p, target) ==> clones_in(h, a.push((k, p)), target) == clones_in(
            h,
            a,
            target,
        ) + 1,
        !holds_clone(h, p, target) ==> clones_in(h, a.push((k, p)), target) == clones_in(
            h,
            a,
            target,
        ),
        heap::refcnt_at(h, p) > 0 ==> refs_in(h, a.push((k, p)), bp) == refs_in(h, a, bp),
        h.mem.contains_key(p) && heap::refcnt_at(h, p) <= 0 && h.mem[p].obj.val is Tuple
            ==> refs_in(h, a.push((k, p)), bp) == refs_in(h, a, bp) + times(
            mirror::tuple_ptrs_of(h.mem[p]),
            bp,
        ) + times(mirror::snapshot_of(h.mem[p]), bp),
{
    assert(a.push((k, p)).drop_last() =~= a);
}

} // verus!
