//! Objects as C code refers to them: heads, reference counts, crossing and
//! deallocation.

use std::collections::HashMap;
use vstd::prelude::*;
use crate::argpins;
use crate::argpins::free_owned_storage;
use crate::bodies;
use crate::bodies::is_instance_body;
use crate::crossing;
use crate::crossing::{copied, new_box};
use crate::freeing;
use crate::heap;
use crate::heap::{Event, Heap, HeapV, StoreV};
use crate::lists::decref_one;
use crate::mirror;
use crate::mirror::{is_mirror, type_is_faithful};
use crate::outward;
use crate::outward::{cross, cross_instance, cross_mirror, fill_exception_tail};
use crate::pins;
use crate::pins::{dead_pin_c_refs_to, dead_pin_clones_of, same_native_identity};
use crate::publish;
use crate::publish::publish_due;
use crate::reading;
use crate::reading::{native_of, read_object, tidy};
use crate::value;
use crate::value::{copy_native, NatV, Native, ObjV, Object};

verus! {

broadcast use vstd::std_specs::hash::group_hash_axioms;

/// The common head of every object: its reference count and its type.
#[derive(Clone, Copy, Debug, PartialEq, Eq, Structural)]
pub struct PyObject {
    pub ob_refcnt: i64,
    pub ob_type: usize,
}

/// The fields that an exception shows to C code. All are NULL unless the object
/// is an exception.
#[derive(Clone, Copy, Debug, PartialEq, Eq, Structural)]
pub struct ExcFields {
    pub dict: usize,
    pub args: usize,
    pub notes: usize,
    pub traceback: usize,
    pub context: usize,
    pub cause: usize,
    pub suppress_context: u8,
    pub value: usize,
}

/// No field is set.
pub open spec fn no_exc() -> ExcFields {
    ExcFields {
        dict: 0,
        args: 0,
        notes: 0,
        traceback: 0,
        context: 0,
        cause: 0,
        suppress_context: 0,
        value: 0,
    }
}

impl Default for ExcFields {
    fn default() -> (r: ExcFields)
        ensures
            r == no_exc(),
    {
        ExcFields {
            dict: 0,
            args: 0,
            notes: 0,
            traceback: 0,
            context: 0,
            cause: 0,
            suppress_context: 0,
            value: 0,
        }
    }
}

impl ExcFields {
    /// The references that the fields own; either may be NULL.
    pub open spec fn owned(&self) -> Seq<usize> {
        seq![self.args, self.value]
    }

    /// The references that the fields own.
    pub fn owned_fields(&self) -> (r: Vec<usize>)
        ensures
            r@ == self.owned(),
    {
        let mut out: Vec<usize> = Vec::new();
        out.push(self.args);
        out.push(self.value);
        assert(out@ =~= self.owned());
        out
    }
}

/// The reference count of an object that is never freed.
pub const IMMORTAL_REFCNT: i64 = 0xFFFF_FFFF;

/// A reference count is immortal when bit 31 is set.
pub open spec fn immortal(refcnt: i64) -> bool {
    (refcnt as int % 0x1_0000_0000) >= 0x8000_0000
}

/// Whether a reference count marks an object that is never freed.
pub fn is_immortal_refcnt(refcnt: i64) -> (r: bool)
    ensures
        r == immortal(refcnt),
{
    let low: i128 = refcnt as i128 + 0x8000_0000_0000_0000;
    low % 0x1_0000_0000 >= 0x8000_0000
}

/// One more reference to an object. Nothing happens for NULL and for an
/// immortal object.
pub fn Py_IncRef(h: &mut Heap, op: usize)
    ensures
        final(h)@ == heap::increfed(old(h)@, op),
{
    if op == 0 {
        return;
    }
    let head: PyObject = match h.heads.get(&op) {
        Some(o) => *o,
        None => {
            return;
        },
    };
    if is_immortal_refcnt(head.ob_refcnt) {
        return;
    }
    assert(head.ob_refcnt < i64::MAX);
    h.heads.insert(op, PyObject { ob_refcnt: head.ob_refcnt + 1, ob_type: head.ob_type });
    assert(h@ =~= heap::increfed(old(h)@, op));
}

/// One more reference to an object, and the object.
pub fn Py_NewRef(h: &mut Heap, op: usize) -> (r: usize)
    ensures
        final(h)@ == heap::increfed(old(h)@, op),
        r == op,
{
    Py_IncRef(h, op);
    op
}

/// One more reference to an object, if there is one, and the object.
pub fn Py_XNewRef(h: &mut Heap, op: usize) -> (r: usize)
    ensures
        final(h)@ == heap::increfed(old(h)@, op),
        r == op,
{
    if op != 0 {
        Py_IncRef(h, op);
    }
    op
}

/// Whether an object can be freed.
pub fn is_heap_object(h: &Heap, op: usize) -> (r: bool)
    ensures
        r == (op != 0 && h@.heads.contains_key(op) && !immortal(h@.heads[op].ob_refcnt)),
{
    if op == 0 {
        return false;
    }
    match h.heads.get(&op) {
        Some(o) => !is_immortal_refcnt(o.ob_refcnt),
        None => false,
    }
}

/// One reference less to an object. Nothing happens for NULL and for an immortal
/// object; an object that loses its last reference is freed, and so is
/// everything that only it referred to.
pub fn Py_DecRef(h: &mut Heap, op: usize)
    ensures
        final(h)@ == freeing::released(old(h)@, seq![op]),
{
    decref_one(h, op);
}

// ---------------------------------------------------------------------------
// Addresses that were handed out
// ---------------------------------------------------------------------------

/// Record an address as handed out.
pub fn register_minted(h: &mut Heap, p: usize)
    ensures
        final(h)@ == (if p == 0 {
            old(h)@
        } else {
            HeapV { minted: old(h)@.minted.insert(p), ..old(h)@ }
        }),
{
    if p == 0 {
        return;
    }
    h.minted.insert(p);
    assert(h@ =~= (HeapV { minted: old(h)@.minted.insert(p), ..old(h)@ }));
}

/// Forget an address whose storage is released.
pub fn unregister_minted(h: &mut Heap, p: usize)
    ensures
        final(h)@ == (if p == 0 {
            old(h)@
        } else {
            HeapV { minted: old(h)@.minted.remove(p), ..old(h)@ }
        }),
{
    if p == 0 {
        return;
    }
    h.minted.remove(&p);
    assert(h@ =~= (HeapV { minted: old(h)@.minted.remove(p), ..old(h)@ }));
}

/// The address was handed out and its storage is not released.
pub open spec fn owned_at(h: HeapV, p: usize) -> bool {
    p != 0 && h.minted.contains(p)
}

/// Whether an address was handed out and its storage is not released.
pub fn is_weavepy_owned(h: &Heap, p: usize) -> (r: bool)
    ensures
        r == owned_at(h@, p),
{
    p != 0 && h.minted.contains(&p)
}

/// An address is owned from when it is recorded until it is forgotten, and no
/// other address is affected.
pub proof fn law_minted(h: HeapV, p: usize, q: usize)
    requires
        p != 0,
    ensures
        owned_at(HeapV { minted: h.minted.insert(p), ..h }, p),
        !owned_at(HeapV { minted: h.minted.remove(p), ..h }, p),
        q != p ==> owned_at(HeapV { minted: h.minted.insert(p), ..h }, q) == owned_at(h, q),
        q != p ==> owned_at(HeapV { minted: h.minted.remove(p), ..h }, q) == owned_at(h, q),
{
}

// ---------------------------------------------------------------------------
// Laws of reference counts
// ---------------------------------------------------------------------------

/// A reference that is taken and given back leaves the heap as it was, where the
/// object is known and mortal, still has a reference, and nothing waits to be
/// released.
pub proof fn law_take_and_give_back(h: HeapV, p: usize)
    requires
        h.heads.contains_key(p),
        p != 0,
        0 < h.heads[p].ob_refcnt,
        !immortal(h.heads[p].ob_refcnt),
        !immortal((h.heads[p].ob_refcnt + 1) as i64),
        h.pending.len() == 0,
        h.mem.dom().finite(),
    ensures
        freeing::released(heap::increfed(h, p), seq![p]) == h,
{
    let h1 = heap::increfed(h, p);
    let (h2, last) = freeing::decrefed(h1, p);
    assert(h2.heads =~= h.heads);
    assert(h2 =~= h);
    freeing::lemma_release_one(h1, p);
}

/// The reference count of an immortal object never changes, and it is never
/// freed, where nothing waits to be released.
pub proof fn law_immortal_stays(h: HeapV, p: usize)
    requires
        h.heads.contains_key(p),
        immortal(h.heads[p].ob_refcnt),
        h.pending.len() == 0,
        h.mem.dom().finite(),
    ensures
        heap::increfed(h, p) == h,
        freeing::released(h, seq![p]) == h,
{
    freeing::lemma_release_one(h, p);
}

/// The five objects that exist once are not NULL and all different, and their counts
/// stay at the mark of immortal objects, whatever references are taken and given
/// back, and whatever waits to be released.
pub proof fn law_singletons_stay(h: HeapV, p: usize, ps: Seq<usize>)
    requires
        h.facts.singles.wf(),
        h.facts.singles.immortal(),
    ensures
        ({
            let s = h.facts.singles;
            &&& heap::increfed(h, p).facts.singles == s
            &&& freeing::released(h, ps).facts.singles == s
            &&& immortal(s.none.head.ob_refcnt) && s.none.head.ob_refcnt == 0xFFFF_FFFF
            &&& immortal(s.tru.head.ob_refcnt) && s.tru.head.ob_refcnt == 0xFFFF_FFFF
            &&& immortal(s.fals.head.ob_refcnt) && s.fals.head.ob_refcnt == 0xFFFF_FFFF
            &&& immortal(s.not_implemented.head.ob_refcnt) && s.not_implemented.head.ob_refcnt
                == 0xFFFF_FFFF
            &&& immortal(s.ellipsis.head.ob_refcnt) && s.ellipsis.head.ob_refcnt == 0xFFFF_FFFF
        }),
{
    freeing::lemma_worked_facts(h, freeing::refs(ps));
}

/// The count that marks an immortal object is immortal.
pub proof fn law_immortal_mark()
    ensures
        immortal(IMMORTAL_REFCNT),
{
}

// ---------------------------------------------------------------------------
// Counting the VM's references to extension objects
// ---------------------------------------------------------------------------

/// How many references the VM has to each object of an extension, while that is
/// being counted.
#[derive(Debug)]
pub struct Souls {
    pub enabled: bool,
    pub counts: HashMap<usize, u32>,
}

impl Souls {
    /// How many references are counted.
    pub open spec fn count(&self, p: usize) -> u32 {
        if self.enabled && p != 0 && self.counts@.contains_key(p) {
            self.counts@[p]
        } else {
            0
        }
    }
}

/// Count one more reference.
pub fn soul_inc(s: &mut Souls, p: usize)
    requires
        old(s).enabled && p != 0 ==> old(s).count(p) < u32::MAX,
    ensures
        final(s).enabled == old(s).enabled,
        final(s).counts@ == (if !old(s).enabled || p == 0 {
            old(s).counts@
        } else {
            old(s).counts@.insert(p, (old(s).count(p) + 1) as u32)
        }),
{
    if !s.enabled || p == 0 {
        return;
    }
    let n: u32 = match s.counts.get(&p) {
        Some(c) => *c,
        None => 0,
    };
    s.counts.insert(p, n + 1);
}

/// Count one reference less; an object whose count reaches zero is forgotten.
pub fn soul_dec(s: &mut Souls, p: usize)
    ensures
        final(s).enabled == old(s).enabled,
        final(s).counts@ == (if !old(s).enabled || p == 0 || !old(s).counts@.contains_key(p) {
            old(s).counts@
        } else if old(s).counts@[p] <= 1 {
            old(s).counts@.remove(p)
        } else {
            old(s).counts@.insert(p, (old(s).counts@[p] - 1) as u32)
        }),
{
    if !s.enabled || p == 0 {
        return;
    }
    let n: u32 = match s.counts.get(&p) {
        Some(c) => *c,
        None => {
            return;
        },
    };
    if n <= 1 {
        s.counts.remove(&p);
    } else {
        s.counts.insert(p, n - 1);
    }
}

/// How many references are counted.
pub fn soul_count(s: &Souls, p: usize) -> (r: u32)
    ensures
        r == s.count(p),
{
    if !s.enabled || p == 0 {
        return 0;
    }
    match s.counts.get(&p) {
        Some(c) => *c,
        None => 0,
    }
}

// ---------------------------------------------------------------------------
// Crossing
// ---------------------------------------------------------------------------

/// A VM object crosses to C code, which then owns one reference to it.
pub fn into_owned(h: &mut Heap, n: &Native) -> (r: usize)
    ensures
        (final(h)@, r) == publish::handed(outward::out(old(h)@, n@)),
{
    let p: usize = cross(h, n);
    publish_due(h);
    p
}

/// A VM object crosses to C code under a type of the caller's. What has an
/// address of its own crosses as that, whatever the type.
pub open spec fn typed_out(h: HeapV, n: NatV, ty: usize) -> (HeapV, usize) {
    match n.val {
        ObjV::Foreign(p) => (heap::increfed(h, p), p),
        ObjV::Type(p) => (heap::increfed(h, p), p),
        _ => if mirror::faithful(h.facts.types, ty) {
            outward::mirrored(h, n, ty)
        } else {
            match n.val {
                ObjV::Capsule(p) => (heap::increfed(h, p), p),
                ObjV::Instance(i) => outward::instance_out(h, n, ty, i),
                _ => crossing::boxed(h, n, ty, 1),
            }
        },
    }
}

fn cross_typed(h: &mut Heap, n: &Native, ty: usize) -> (r: usize)
    ensures
        (final(h)@, r) == typed_out(old(h)@, n@, ty),
{
    match &n.val {
        Object::Foreign(p) => {
            Py_IncRef(h, *p);
            return *p;
        },
        Object::Type(p) => {
            Py_IncRef(h, *p);
            return *p;
        },
        _ => {},
    }
    if type_is_faithful(&h.facts.types, ty) {
        return cross_mirror(h, n, ty);
    }
    match &n.val {
        Object::Capsule(p) => {
            Py_IncRef(h, *p);
            *p
        },
        Object::Instance(i) => cross_instance(h, n, ty, i),
        _ => match new_box(h, n, ty, 1) {
            Some(p) => p,
            None => 0,
        },
    }
}

/// A VM object crosses to C code under a type of the caller's.
pub fn into_owned_with_type(h: &mut Heap, n: &Native, ty: usize) -> (r: usize)
    ensures
        (final(h)@, r) == publish::handed(typed_out(old(h)@, n@, ty)),
{
    let p: usize = cross_typed(h, n, ty);
    publish_due(h);
    p
}

/// An instance of a type without inline storage crosses as a new plain object
/// that is not remembered; anything else as ever.
pub open spec fn uncached_out(h: HeapV, n: NatV, ty: usize) -> (HeapV, usize) {
    match n.val {
        ObjV::Instance(i) => if mirror::mirror_type(h.facts, ty) {
            typed_out(h, n, ty)
        } else if !heap::has_room(h, crossing::BOX_SIZE as nat) {
            (h, 0)
        } else {
            let (h1, p) = crossing::boxed(h, n, ty, 1);
            (outward::exc_filled(h1, p, i), p)
        },
        _ => typed_out(h, n, ty),
    }
}

/// A VM object crosses to C code under a type of the caller's, an instance as an
/// object of its own.
pub fn into_owned_with_type_uncached(h: &mut Heap, n: &Native, ty: usize) -> (r: usize)
    ensures
        (final(h)@, r) == publish::handed(uncached_out(old(h)@, n@, ty)),
{
    let p: usize = match &n.val {
        Object::Instance(i) => {
            if h.facts.is_mirror_type(ty) {
                cross_typed(h, n, ty)
            } else {
                match new_box(h, n, ty, 1) {
                    Some(p) => {
                        fill_exception_tail(h, p, i);
                        p
                    },
                    None => 0,
                }
            }
        },
        _ => cross_typed(h, n, ty),
    };
    publish_due(h);
    p
}

/// The VM object behind a C object, whose reference count stays as it is.
pub fn clone_object(h: &mut Heap, p: usize) -> (r: Native)
    ensures
        ({
            let (h1, v) = reading::object_at(old(h)@, p);
            final(h)@ == reading::tidied(h1) && r@ == v
        }),
{
    let v: Native = read_object(h, p);
    tidy(h);
    v
}

/// The builtin value that an object is: of an instance the value behind it,
/// where it has one.
pub open spec fn plain_value(n: NatV) -> NatV {
    match n.val {
        ObjV::Instance(i) => if i.native.len() > 0 {
            i.native[0]
        } else {
            n
        },
        _ => n,
    }
}

/// The builtin value behind a C object.
pub fn clone_object_value(h: &mut Heap, p: usize) -> (r: Native)
    ensures
        ({
            let (h1, v) = reading::object_at(old(h)@, p);
            final(h)@ == reading::tidied(h1) && r@ == plain_value(v)
        }),
{
    let v: Native = clone_object(h, p);
    if let Object::Instance(i) = &v.val {
        proof {
            value::lemma_seq_deep(i.native@);
        }
        if i.native.len() > 0 {
            return copy_native(&i.native[0]);
        }
    }
    v
}

/// The VM object that an object holds, a staged tuple still as a list; `None` for
/// NULL, for a singleton and where there is no object.
pub open spec fn payload_of(h: HeapV, p: usize) -> (HeapV, Option<NatV>) {
    let s = h.facts.singles;
    if p == 0 || p == s.none.addr || p == s.tru.addr || p == s.fals.addr
        || !h.mem.contains_key(p) {
        (h, None)
    } else if mirror::mirror_at(h, p) {
        let (h1, v) = reading::native_at(h, p);
        (reading::tidied(h1), Some(v))
    } else {
        (h, Some(h.mem[p].obj))
    }
}

/// The VM object that an object holds.
pub fn raw_payload(h: &mut Heap, p: usize) -> (r: Option<Native>)
    ensures
        final(h)@ == payload_of(old(h)@, p).0,
        match r {
            Some(v) => payload_of(old(h)@, p).1 == Some(v@),
            None => payload_of(old(h)@, p).1 is None,
        },
{
    if p == 0 || p == h.facts.singles.none.addr || p == h.facts.singles.tru.addr || p
        == h.facts.singles.fals.addr || !h.mem.contains_key(&p) {
        return None;
    }
    if is_mirror(h, p) {
        return Some(native_of(h, p));
    }
    match h.store(p) {
        Some(s) => Some(copy_native(&s.obj)),
        None => None,
    }
}

/// Let an object hold another VM object.
pub fn set_payload(h: &mut Heap, p: usize, n: Native)
    requires
        old(h)@.mem.contains_key(p),
    ensures
        final(h)@ == heap::with_store(old(h)@, p, StoreV { obj: n@, ..old(h)@.mem[p] }),
{
    let ghost h0 = h@;
    if let Some(mut s) = h.take_store(p) {
        s.obj = n;
        h.put_store(p, s);
        assert(h@.mem =~= h0.mem.insert(p, s@));
    }
}

// ---------------------------------------------------------------------------
// Deallocation
// ---------------------------------------------------------------------------

/// The deallocator of the builtin types: free an object that lost its last
/// reference.
pub fn _PyWeavePy_Dealloc(h: &mut Heap, op: usize)
    ensures
        final(h)@ == (if op == 0 {
            old(h)@
        } else {
            argpins::box_freed(old(h)@, op)
        }),
{
    if op == 0 {
        return;
    }
    free_owned_storage(h, op);
}

/// Free an object that lost its last reference: the body of an instance goes
/// back to its instance, an object whose type has a deallocator is given to it
/// outside, and anything else is freed.
pub fn _Py_Dealloc(h: &mut Heap, op: usize, has_dealloc: bool)
    ensures
        final(h)@ == (if op == 0 {
            old(h)@
        } else if bodies::body_at(old(h)@, op) {
            argpins::box_freed(old(h)@, op)
        } else if heap::type_at(old(h)@, op) != 0 && has_dealloc {
            HeapV { events: old(h)@.events.push(Event::Dealloc(op)), ..old(h)@ }
        } else {
            argpins::box_freed(old(h)@, op)
        }),
{
    if op == 0 {
        return;
    }
    if !is_instance_body(h, op) && h.get_type(op) != 0 && has_dealloc {
        h.events.push(Event::Dealloc(op));
        assert(h@ =~= (HeapV { events: old(h)@.events.push(Event::Dealloc(op)), ..old(h)@ }));
        return;
    }
    free_owned_storage(h, op);
}

// ---------------------------------------------------------------------------
// What reference counting in the VM leaves out or adds
// ---------------------------------------------------------------------------

/// The object of a pinned instance holds a reference that no program can see:
/// C code does not refer to it, or only dead pinned tuples do.
pub open spec fn parked_clone(h: HeapV, p: usize, target: NatV) -> bool {
    h.mem.contains_key(p) && pins::same_identity(h.mem[p].obj, target) && (heap::refcnt_at(h, p)
        <= 0 || heap::refcnt_at(h, p) as nat <= pins::capped(
        pins::refs_in(h, h.pins, p),
    ) as nat)
}

/// How many of these objects hold such a reference.
pub open spec fn parked_in(h: HeapV, ps: Seq<usize>, target: NatV) -> nat
    decreases ps.len(),
{
    if ps.len() == 0 {
        0
    } else {
        parked_in(h, ps.drop_last(), target) + if parked_clone(h, ps.last(), target) {
            1nat
        } else {
            0nat
        }
    }
}

fn is_parked(h: &Heap, p: usize, target: &Native) -> (r: bool)
    ensures
        r == parked_clone(h@, p, target@),
{
    match h.store(p) {
        None => false,
        Some(s) => {
            if !same_native_identity(&s.obj, target) {
                return false;
            }
            let rc: i64 = h.get_refcnt(p);
            rc <= 0 || rc as u64 <= dead_pin_c_refs_to(h, p) as u64
        },
    }
}

/// How many of the VM's references to an object are held only by pins that no
/// program can see.
pub fn pin_clone_count_hook(h: &Heap, target: &Native) -> (r: usize)
    ensures
        r == pins::capped(
            parked_in(h@, h@.arg_pins, target@) + pins::clones_in(h@, h@.pins, target@),
        ),
{
    let mut n: usize = 0;
    let mut i: usize = 0;
    assert(h.arg_pins@.subrange(0, 0) =~= Seq::<usize>::empty());
    while i < h.arg_pins.len()
        invariant
            n <= i <= h.arg_pins@.len(),
            n == parked_in(h@, h.arg_pins@.subrange(0, i as int), target@),
        decreases h.arg_pins.len() - i,
    {
        assert(h.arg_pins@.subrange(0, i + 1).drop_last() =~= h.arg_pins@.subrange(0, i as int));
        if is_parked(h, h.arg_pins[i], target) {
            n = n + 1;
        }
        i = i + 1;
    }
    assert(h.arg_pins@.subrange(0, h.arg_pins@.len() as int) =~= h.arg_pins@);
    let more: usize = dead_pin_clones_of(h, target);
    if n <= usize::MAX - more {
        n + more
    } else {
        usize::MAX
    }
}

/// The object that C code has for an instance.
pub open spec fn c_object(h: HeapV, n: NatV) -> Option<usize> {
    match n.val {
        ObjV::Instance(i) => if i.body != 0 {
            Some(i.body)
        } else {
            crossing::entry(h.c_body, n.id)
        },
        _ => None,
    }
}

/// The references from C code to an instance that the VM does not count: all but
/// one, and not those that only dead pinned tuples hold.
pub open spec fn surplus(h: HeapV, n: NatV) -> nat {
    match c_object(h, n) {
        None => 0,
        Some(p) => {
            let rc = heap::refcnt_at(h, p);
            let dead = pins::capped(pins::refs_in(h, h.pins, p));
            if rc <= 1 || rc - 1 <= dead {
                0
            } else {
                (rc - 1 - dead) as nat
            }
        },
    }
}

/// The references from C code to an instance that the VM does not count.
pub fn extra_c_refs_hook(h: &Heap, target: &Native) -> (r: u64)
    ensures
        r == surplus(h@, target@),
{
    let p: usize = match &target.val {
        Object::Instance(i) => {
            if i.body != 0 {
                i.body
            } else {
                match copied(&h.c_body, target.id) {
                    Some(p) => p,
                    None => {
                        return 0;
                    },
                }
            }
        },
        _ => {
            return 0;
        },
    };
    let rc: i64 = h.get_refcnt(p);
    if rc <= 1 {
        return 0;
    }
    let dead: u64 = dead_pin_c_refs_to(h, p) as u64;
    let most: u64 = (rc - 1) as u64;
    if most <= dead {
        0
    } else {
        most - dead
    }
}

/// An object of an extension, and a type, cross as themselves with one more reference,
/// whatever type is asked for. A value that is asked for as its own type crosses as
/// it does when no type is asked for.
pub proof fn law_typed_crossing(h: HeapV, n: NatV, ty: usize)
    ensures
        n.val matches ObjV::Foreign(p) ==> typed_out(h, n, ty) == outward::out(h, n) && typed_out(
            h,
            n,
            ty,
        ) == (heap::increfed(h, p), p),
        n.val matches ObjV::Type(p) ==> typed_out(h, n, ty) == (heap::increfed(h, p), p),
        mirror::obj_faithful(n.val) && mirror::faithful(h.facts.types, ty) && ty
            == crossing::type_for(h, n) && (n.val is Tuple || n.val is List || n.val is Str
            || n.val is Bytes || n.val is Int || n.val is Long || n.val is Float || n.val is Dict)
            ==> typed_out(h, n, ty) == outward::out(h, n),
{
}

/// The references that C code holds beyond the one that belongs to the VM: all but one
/// where no pin is dead, and never more than that.
pub proof fn law_surplus(h: HeapV, n: NatV, p: usize)
    requires
        c_object(h, n) == Some(p),
        h.heads.contains_key(p),
    ensures
        h.heads[p].ob_refcnt <= 1 ==> surplus(h, n) == 0,
        h.heads[p].ob_refcnt > 1 ==> surplus(h, n) <= h.heads[p].ob_refcnt - 1,
        h.heads[p].ob_refcnt > 1 && h.pins.len() == 0 ==> surplus(h, n) == h.heads[p].ob_refcnt - 1,
{
}

/// An instance of a subclass of a builtin type has the value of that type; any other
/// object is its own value.
pub proof fn law_builtin_value(n: NatV)
    ensures
        n.val matches ObjV::Instance(i) ==> (i.native.len() > 0 ==> plain_value(n) == i.native[0])
            && (i.native.len() == 0 ==> plain_value(n) == n),
        !(n.val is Instance) ==> plain_value(n) == n,
{
}

/// NULL and the objects that exist once carry no VM object. Any other object that
/// does not mirror a builtin carries the one that it was made for, and to ask for it
/// changes nothing.
pub proof fn law_payload(h: HeapV, p: usize)
    ensures
        payload_of(h, 0) == (h, None::<NatV>),
        payload_of(h, h.facts.singles.none.addr) == (h, None::<NatV>),
        payload_of(h, h.facts.singles.tru.addr) == (h, None::<NatV>),
        payload_of(h, h.facts.singles.fals.addr) == (h, None::<NatV>),
        !h.mem.contains_key(p) ==> payload_of(h, p) == (h, None::<NatV>),
        h.mem.contains_key(p) && p != 0 && p != h.facts.singles.none.addr && p
            != h.facts.singles.tru.addr && p != h.facts.singles.fals.addr && !mirror::mirror_at(
            h,
            p,
        ) ==> payload_of(h, p) == (h, Some(h.mem[p].obj)),
{
}

} // verus!
