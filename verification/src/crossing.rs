//! VM objects crossing to C code.

use vstd::prelude::*;
use crate::bytes;
use crate::bytes::zero_block;
use crate::heap;
use crate::heap::{Heap, HeapV, Link, ScalarPinKey, Store, StoreV};
use crate::layout;
use crate::layout::{
    fill_body, set_field, write_bytearray_fields, BodyPlan, FillEnv, BYTEARRAY_SIZE, HEAD,
};
use crate::mirror;
use crate::mirror::digest_objects;
use crate::object;
use crate::object::{ExcFields, PyObject, Py_IncRef};
use crate::pins;
use crate::pins::{cached_scalar_pin, find_interned, register_scalar_pin, scalar_pin_key};
use crate::text::slice_of;
use crate::value;
use crate::value::{copy_native, copy_natives, NatV, Native, ObjV, Object};

verus! {

broadcast use vstd::std_specs::hash::group_hash_axioms;

// ---------------------------------------------------------------------------
// Types
// ---------------------------------------------------------------------------

/// The type object of a VM object: the builtin type of a builtin value, else
/// the type that the VM says, `object` where it says none.
pub open spec fn type_for(h: HeapV, n: NatV) -> usize {
    let t = h.facts.types;
    match n.val {
        ObjV::Float(_) => t.float_type,
        ObjV::Int(_) | ObjV::Long(_, _) => t.long_type,
        ObjV::Bool(_) => t.bool_type,
        ObjV::Complex(_, _) => t.complex_type,
        ObjV::Bytes(_) => t.bytes_type,
        ObjV::ByteArray(_) => t.bytearray_type,
        ObjV::Str(_) | ObjV::WStr(_) => t.unicode_type,
        ObjV::Tuple(_) => t.tuple_type,
        ObjV::List(_) => t.list_type,
        ObjV::Dict(_) => t.dict_type,
        ObjV::PySet(_) => t.set_type,
        ObjV::FrozenSet(_) => t.frozenset_type,
        ObjV::Builtin => t.cfunction_type,
        ObjV::BoundMethod(_) => t.method_type,
        ObjV::Slice(_) => t.slice_type,
        ObjV::MemoryView(_) => t.memoryview_type,
        _ => if h.facts.type_of@.contains_key(n.id) {
            h.facts.type_of@[n.id]
        } else {
            t.object_type
        },
    }
}

/// The type object of a VM object.
pub fn type_for_object(h: &Heap, n: &Native) -> (r: usize)
    ensures
        r == type_for(h@, n@),
{
    match &n.val {
        Object::Float(_) => h.facts.types.float_type,
        Object::Int(_) | Object::Long(_) => h.facts.types.long_type,
        Object::Bool(_) => h.facts.types.bool_type,
        Object::Complex(_, _) => h.facts.types.complex_type,
        Object::Bytes(_) => h.facts.types.bytes_type,
        Object::ByteArray(_) => h.facts.types.bytearray_type,
        Object::Str(_) | Object::WStr(_) => h.facts.types.unicode_type,
        Object::Tuple(_) => h.facts.types.tuple_type,
        Object::List(_) => h.facts.types.list_type,
        Object::Dict(_) => h.facts.types.dict_type,
        Object::PySet(_) => h.facts.types.set_type,
        Object::FrozenSet(_) => h.facts.types.frozenset_type,
        Object::Builtin => h.facts.types.cfunction_type,
        Object::BoundMethod(_) => h.facts.types.method_type,
        Object::Slice(_) => h.facts.types.slice_type,
        Object::MemoryView(_) => h.facts.types.memoryview_type,
        _ => match h.facts.type_of.get(&n.id) {
            Some(t) => *t,
            None => h.facts.types.object_type,
        },
    }
}

// ---------------------------------------------------------------------------
// Objects that are shared
// ---------------------------------------------------------------------------

/// How an object crosses.
#[derive(Clone, Copy, Debug, PartialEq, Eq, Structural)]
pub enum Lane {
    /// As one of the two truth values.
    Truth(bool),
    /// As the one object of its cell.
    OneSet,
    OneList,
    OneByteArray,
    OneBuiltin,
    /// As the one object of its text.
    Interned,
    /// As the pinned object of its key.
    Pinned(ScalarPinKey),
    /// As an object of its own.
    Fresh,
}

/// How an object crosses under a type.
pub open spec fn lane(h: HeapV, n: NatV, ty: usize) -> Lane {
    let t = h.facts.types;
    let rest = match pins::pin_key(n) {
        Some(key) => if ty == t.bytes_type || h.arg_depth > 0 {
            Lane::Pinned(key)
        } else {
            Lane::Fresh
        },
        None => Lane::Fresh,
    };
    match n.val {
        ObjV::Bool(b) => Lane::Truth(b),
        ObjV::PySet(_) | ObjV::FrozenSet(_) => Lane::OneSet,
        ObjV::List(_) => if ty == t.list_type {
            Lane::OneList
        } else {
            Lane::Fresh
        },
        ObjV::ByteArray(_) => if ty == t.bytearray_type {
            Lane::OneByteArray
        } else {
            Lane::Fresh
        },
        ObjV::Builtin => Lane::OneBuiltin,
        ObjV::Str(_) => if h.intern_depth > 0 && ty == t.unicode_type {
            Lane::Interned
        } else {
            rest
        },
        _ => rest,
    }
}

pub(crate) fn lane_of(h: &Heap, n: &Native, ty: usize) -> (r: Lane)
    ensures
        r == lane(h@, n@, ty),
{
    match &n.val {
        Object::Bool(b) => {
            return Lane::Truth(*b);
        },
        Object::PySet(_) | Object::FrozenSet(_) => {
            return Lane::OneSet;
        },
        Object::List(_) => {
            return if ty == h.facts.types.list_type {
                Lane::OneList
            } else {
                Lane::Fresh
            };
        },
        Object::ByteArray(_) => {
            return if ty == h.facts.types.bytearray_type {
                Lane::OneByteArray
            } else {
                Lane::Fresh
            };
        },
        Object::Builtin => {
            return Lane::OneBuiltin;
        },
        Object::Str(_) => {
            if h.intern_depth > 0 && ty == h.facts.types.unicode_type {
                return Lane::Interned;
            }
        },
        _ => {},
    }
    match scalar_pin_key(n) {
        Some(key) => if ty == h.facts.types.bytes_type || h.arg_depth > 0 {
            Lane::Pinned(key)
        } else {
            Lane::Fresh
        },
        None => Lane::Fresh,
    }
}

/// What a table has under a key.
pub open spec fn entry(m: Map<usize, usize>, key: usize) -> Option<usize> {
    if m.contains_key(key) {
        Some(m[key])
    } else {
        None
    }
}

/// The object that an object crosses as, where there is one already.
#[verifier::opaque]
pub open spec fn known(h: HeapV, n: NatV, ty: usize) -> Option<usize> {
    match lane(h, n, ty) {
        Lane::Truth(b) => Some(
            if b {
                h.facts.singles.tru.addr
            } else {
                h.facts.singles.fals.addr
            },
        ),
        Lane::OneSet => entry(h.sets, n.id),
        Lane::OneList => entry(h.lists, n.id),
        Lane::OneByteArray => entry(h.bytearrays, n.id),
        Lane::OneBuiltin => entry(h.builtins, n.id),
        Lane::Interned => match n.val {
            ObjV::Str(s) => pins::interned_at(h.interned, s),
            _ => None,
        },
        Lane::Pinned(key) => pins::pin_hit(h, key, ty),
        Lane::Fresh => None,
    }
}

pub(crate) fn copied(m: &std::collections::HashMap<usize, usize>, key: usize) -> (r: Option<usize>)
    ensures
        r == entry(m@, key),
{
    match m.get(&key) {
        Some(p) => Some(*p),
        None => None,
    }
}

/// The address and the capacity of a byte array's data.
pub open spec fn buffer_at(h: HeapV, id: usize) -> (usize, usize) {
    if h.facts.buffers@.contains_key(id) {
        h.facts.buffers@[id]
    } else {
        (0, 0)
    }
}

fn buffer_of_cell(h: &Heap, id: usize) -> (r: (usize, usize))
    ensures
        r == buffer_at(h@, id),
{
    match h.facts.buffers.get(&id) {
        Some(b) => *b,
        None => (0, 0),
    }
}

/// A byte array's object shows what the VM's byte array holds now.
pub open spec fn refreshed(h: HeapV, n: NatV, p: usize) -> HeapV {
    match n.val {
        ObjV::ByteArray(b) => if h.mem.contains_key(p) && h.mem[p].tail.len() == BYTEARRAY_SIZE
            - HEAD {
            let (at, cap) = buffer_at(h, n.id);
            heap::with_store(
                h,
                p,
                StoreV {
                    obj: n,
                    tail: layout::bytearray_tail(h.mem[p].tail, b.len(), at, cap),
                    ..h.mem[p]
                },
            )
        } else {
            h
        },
        _ => h,
    }
}

/// Let a byte array's object show what the VM's byte array holds now.
pub fn sync_bytearray_fields(h: &mut Heap, n: &Native, p: usize)
    ensures
        final(h)@ == refreshed(old(h)@, n@, p),
{
    if let Object::ByteArray(b) = &n.val {
        let (at, cap): (usize, usize) = buffer_of_cell(h, n.id);
        let ghost h0 = h@;
        if let Some(s) = h.store(p) {
            if s.tail.len() != BYTEARRAY_SIZE - HEAD {
                return;
            }
        }
        if let Some(mut s) = h.take_store(p) {
            write_bytearray_fields(&mut s.tail, b.len(), at, cap);
            s.obj = copy_native(n);
            h.put_store(p, s);
            assert(h@.mem =~= h0.mem.insert(p, s@));
        } else {
            assert(h@.mem =~= h0.mem);
        }
    }
}

/// Hand the object out once more. A list is published before C code runs on, a
/// byte array is refreshed at once.
#[verifier::opaque]
pub open spec fn shared(h: HeapV, n: NatV, ty: usize, p: usize) -> HeapV {
    match lane(h, n, ty) {
        Lane::Truth(_) => h,
        Lane::OneList => {
            let h1 = heap::increfed(h, p);
            HeapV { due: h1.due.push(p), ..h1 }
        },
        Lane::OneByteArray => refreshed(heap::increfed(h, p), n, p),
        _ => heap::increfed(h, p),
    }
}

pub(crate) fn share_known(h: &mut Heap, n: &Native, ty: usize) -> (r: Option<usize>)
    ensures
        r == known(old(h)@, n@, ty),
        final(h)@ == (match r {
            Some(p) => shared(old(h)@, n@, ty, p),
            None => old(h)@,
        }),
{
    proof {
        reveal(known);
        reveal(shared);
    }
    let l: Lane = lane_of(h, n, ty);
    match l {
        Lane::Truth(b) => {
            return Some(
                if b {
                    h.facts.singles.tru.addr
                } else {
                    h.facts.singles.fals.addr
                },
            );
        },
        Lane::Pinned(key) => {
            return cached_scalar_pin(h, key, ty);
        },
        Lane::Fresh => {
            return None;
        },
        _ => {},
    }
    let hit: Option<usize> = match l {
        Lane::OneSet => copied(&h.sets, n.id),
        Lane::OneList => copied(&h.lists, n.id),
        Lane::OneByteArray => copied(&h.bytearrays, n.id),
        Lane::OneBuiltin => copied(&h.builtins, n.id),
        Lane::Interned => match &n.val {
            Object::Str(s) => find_interned(h, s),
            _ => None,
        },
        _ => None,
    };
    if let Some(p) = hit {
        Py_IncRef(h, p);
        if l == Lane::OneList {
            let ghost h1 = h@;
            h.due.push(p);
            assert(h@ =~= (HeapV { due: h1.due.push(p), ..h1 }));
        } else if l == Lane::OneByteArray {
            sync_bytearray_fields(h, n, p);
        }
    }
    hit
}

// ---------------------------------------------------------------------------
// Making mirrors
// ---------------------------------------------------------------------------

/// The object has as many parts as its kind: a bound method two, a slice three.
pub open spec fn shaped(o: ObjV) -> bool {
    match o {
        ObjV::BoundMethod(v) => v.len() == 2,
        ObjV::Slice(v) => v.len() == 3,
        _ => true,
    }
}

/// There is a body for the object, and room for it and for the buffer beside
/// it.
pub open spec fn can_open(h: HeapV, o: ObjV) -> bool {
    &&& shaped(o)
    &&& layout::body_len(o) <= isize::MAX
    &&& layout::aux_len(o) <= isize::MAX
    &&& heap::has_room(h, layout::body_len(o) as nat)
    &&& layout::aux_len(o) > 0 ==> heap::has_room(
        heap::allocated(h, layout::body_len(o) as nat).0,
        layout::aux_len(o) as nat,
    )
}

/// The addresses of a body and of the buffer beside it.
#[derive(Clone, Copy, Debug, PartialEq, Eq, Structural)]
pub struct Place {
    pub at: usize,
    pub aux: usize,
}

/// Take the addresses of a body and of the buffer beside it, and write the head.
/// A list is recorded as the object of its cell before its elements cross, so
/// that a list inside itself crosses as the object being made.
#[verifier::opaque]
pub open spec fn opened(h: HeapV, n: NatV, ty: usize, one_list: bool) -> (HeapV, Place) {
    let (h1, at) = heap::allocated(h, layout::body_len(n.val) as nat);
    let (h2, aux) = if layout::aux_len(n.val) > 0 {
        heap::allocated(h1, layout::aux_len(n.val) as nat)
    } else {
        (h1, 0)
    };
    (
        HeapV {
            heads: h2.heads.insert(at, PyObject { ob_refcnt: 1, ob_type: ty }),
            lists: if one_list {
                h2.lists.insert(n.id, at)
            } else {
                h2.lists
            },
            ..h2
        },
        Place { at, aux },
    )
}

fn has_shape(o: &Object) -> (r: bool)
    ensures
        r == shaped(o@),
{
    match o {
        Object::BoundMethod(v) => {
            proof {
                value::lemma_seq_deep(v@);
            }
            v.len() == 2
        },
        Object::Slice(v) => {
            proof {
                value::lemma_seq_deep(v@);
            }
            v.len() == 3
        },
        _ => true,
    }
}

pub(crate) fn open_mirror(h: &mut Heap, n: &Native, ty: usize, one_list: bool) -> (r: Option<(
    Place,
    BodyPlan,
)>)
    ensures
        r is Some == can_open(old(h)@, n@.val),
        match r {
            Some((place, plan)) => {
                &&& (final(h)@, place) == opened(old(h)@, n@, ty, one_list)
                &&& plan.body_size == layout::body_len(n@.val)
                &&& plan.aux_size == layout::aux_len(n@.val)
                &&& place.at + 256 <= usize::MAX
                &&& place.aux + plan.aux_size <= usize::MAX
            },
            None => final(h)@ == old(h)@,
        },
{
    proof {
        reveal(opened);
    }
    if !has_shape(&n.val) {
        return None;
    }
    let plan: BodyPlan = match BodyPlan::for_object(&n.val) {
        Some(p) => p,
        None => {
            return None;
        },
    };
    let need: u128 = (plan.body_size as u128 / 256 + 1) * 256;
    let beside: u128 = if plan.aux_size > 0 {
        (plan.aux_size as u128 / 256 + 1) * 256
    } else {
        0
    };
    if h.next as u128 + need > usize::MAX as u128 {
        return None;
    }
    if plan.aux_size > 0 && h.next as u128 + need + beside > usize::MAX as u128 {
        return None;
    }
    let at: usize = h.fresh_addr(plan.body_size);
    let aux: usize = if plan.aux_size > 0 {
        h.fresh_addr(plan.aux_size)
    } else {
        0
    };
    h.heads.insert(at, PyObject { ob_refcnt: 1, ob_type: ty });
    if one_list {
        h.lists.insert(n.id, at);
    }
    assert(h@ =~= opened(old(h)@, n@, ty, one_list).0);
    Some((Place { at, aux }, plan))
}

/// The hash of a text: minus one where the VM does not say.
pub open spec fn hash_at(h: HeapV, id: usize) -> i64 {
    if h.facts.hashes@.contains_key(id) {
        h.facts.hashes@[id]
    } else {
        (-1) as i64
    }
}

/// The receiver and the method definition of a builtin. A builtin that was not
/// made from C has `None` as its receiver.
pub open spec fn extra_at(h: HeapV, id: usize) -> (usize, usize) {
    if h.facts.extras@.contains_key(id) {
        h.facts.extras@[id]
    } else {
        (h.facts.singles.none.addr, 0)
    }
}

/// What a body needs to know besides its object.
pub open spec fn env_at(h: HeapV, n: NatV, place: Place) -> FillEnv {
    FillEnv {
        at: place.at,
        aux: place.aux,
        hash: hash_at(h, n.id),
        buffer: buffer_at(h, n.id).0,
        capacity: buffer_at(h, n.id).1,
        ml: extra_at(h, n.id).1,
        m_self: extra_at(h, n.id).0,
    }
}

fn env_of(h: &Heap, n: &Native, place: Place) -> (r: FillEnv)
    ensures
        r == env_at(h@, n@, place),
{
    let hash: i64 = match h.facts.hashes.get(&n.id) {
        Some(x) => *x,
        None => -1,
    };
    let (m_self, ml): (usize, usize) = match h.facts.extras.get(&n.id) {
        Some(e) => *e,
        None => (h.facts.singles.none.addr, 0),
    };
    let (buffer, capacity): (usize, usize) = buffer_of_cell(h, n.id);
    FillEnv { at: place.at, aux: place.aux, hash, buffer, capacity, ml, m_self }
}

/// The storage of a new mirror.
pub open spec fn new_store(h: HeapV, n: NatV, place: Place, kids: Seq<usize>) -> StoreV {
    let s = StoreV {
        obj: n,
        link: Link::Unlinked,
        destructor: 0,
        tail: layout::body_tail(n.val, env_at(h, n, place), kids),
        aux: layout::body_aux(n.val, kids),
        aux_addr: place.aux,
        str_buffer: false,
        bytes_buffer: false,
        list_synced: false,
        scalar_pinned: false,
        list_mint: None,
        exc: object::no_exc(),
    };
    match n.val {
        ObjV::List(items) => StoreV {
            list_mint: Some((mirror::ptrs_digest(s), mirror::objs_digest(items))),
            ..s
        },
        _ => s,
    }
}

/// The references that a new mirror takes besides those of its elements: a
/// tuple one more to each element, a builtin one to its receiver.
pub open spec fn own_refs(h: HeapV, n: NatV, kids: Seq<usize>) -> Seq<usize> {
    match n.val {
        ObjV::Tuple(_) => kids,
        ObjV::Builtin => seq![extra_at(h, n.id).0],
        _ => Seq::empty(),
    }
}

/// Fill the body of a mirror whose elements have crossed, and hand it out. What
/// a reference says of a list or a dict counts as what the VM has there.
#[verifier::opaque]
pub open spec fn filled_in(h: HeapV, n: NatV, place: Place, kids: Seq<usize>) -> HeapV {
    let h1 = heap::all_increfed(h, own_refs(h, n, kids));
    HeapV {
        mem: h1.mem.insert(place.at, new_store(h, n, place, kids)),
        cells: match n.val {
            ObjV::List(items) => h1.cells.insert(n.id, items),
            ObjV::Dict(entries) => h1.cells.insert(n.id, entries),
            _ => h1.cells,
        },
        minted: h1.minted.insert(place.at),
        ..h1
    }
}

pub(crate) fn fill_mirror(h: &mut Heap, n: &Native, place: Place, plan: BodyPlan, kids: &Vec<usize>)
    requires
        shaped(n@.val),
        kids@.len() == layout::kids_of(n@.val).len(),
        plan.body_size == layout::body_len(n@.val),
        plan.aux_size == layout::aux_len(n@.val),
        place.at + 256 <= usize::MAX,
        place.aux + plan.aux_size <= usize::MAX,
    ensures
        final(h)@ == filled_in(old(h)@, n@, place, kids@),
{
    proof {
        reveal(filled_in);
    }
    let env: FillEnv = env_of(h, n, place);
    let (tail, aux): (Vec<u8>, Vec<u8>) = fill_body(&n.val, &plan, &env, kids);
    let mut s = Store {
        obj: copy_native(n),
        link: Link::Unlinked,
        destructor: 0,
        tail,
        aux,
        aux_addr: place.aux,
        str_buffer: false,
        bytes_buffer: false,
        list_synced: false,
        scalar_pinned: false,
        list_mint: None,
        exc: ExcFields::default(),
    };
    if let Object::List(items) = &n.val {
        let c: heap::Digest = s.list_digest();
        s.list_mint = Some((c, digest_objects(items)));
    }
    assert(s@ =~= new_store(old(h)@, n@, place, kids@));
    match &n.val {
        Object::Tuple(_) => {
            h.incref_all(kids);
        },
        Object::Builtin => {
            let mut one: Vec<usize> = Vec::new();
            one.push(env.m_self);
            assert(one@ =~= own_refs(old(h)@, n@, kids@));
            h.incref_all(&one);
        },
        _ => {
            assert(heap::all_increfed(h@, Seq::<usize>::empty()) == h@);
        },
    }
    let ghost h1 = h@;
    match &n.val {
        Object::List(items) | Object::Dict(items) => {
            h.put_cell(n.id, copy_natives(items));
        },
        _ => {},
    }
    h.minted.insert(place.at);
    h.put_store(place.at, s);
    assert(h@ =~= filled_in(old(h)@, n@, place, kids@));
}

/// Keep a new mirror as the one of its lane.
#[verifier::opaque]
pub open spec fn kept(h: HeapV, n: NatV, ty: usize, p: usize) -> HeapV {
    match lane(h, n, ty) {
        Lane::OneSet => HeapV { sets: h.sets.insert(n.id, p), ..h },
        Lane::OneByteArray => HeapV { bytearrays: h.bytearrays.insert(n.id, p), ..h },
        Lane::OneBuiltin => HeapV { builtins: h.builtins.insert(n.id, p), ..h },
        Lane::Interned => match n.val {
            ObjV::Str(s) => {
                let h1 = pins::flagged(h, p, true);
                HeapV { interned: h1.interned.push((s, p)), ..h1 }
            },
            _ => h,
        },
        Lane::Pinned(key) => pins::pinned(h, key, p),
        _ => h,
    }
}

pub(crate) fn keep(h: &mut Heap, n: &Native, ty: usize, p: usize)
    requires
        old(h)@.mem.contains_key(p),
    ensures
        final(h)@ == kept(old(h)@, n@, ty, p),
{
    proof {
        reveal(kept);
    }
    match lane_of(h, n, ty) {
        Lane::OneSet => {
            h.sets.insert(n.id, p);
            assert(h@ =~= kept(old(h)@, n@, ty, p));
        },
        Lane::OneByteArray => {
            h.bytearrays.insert(n.id, p);
            assert(h@ =~= kept(old(h)@, n@, ty, p));
        },
        Lane::OneBuiltin => {
            h.builtins.insert(n.id, p);
            assert(h@ =~= kept(old(h)@, n@, ty, p));
        },
        Lane::Interned => {
            if let Object::Str(s) = &n.val {
                pins::set_flag(h, p, true);
                let ghost h1 = h@;
                let copy: Vec<char> = slice_of(s.as_slice(), 0, s.len());
                assert(s@.subrange(0, s@.len() as int) =~= s@);
                h.interned.push((copy, p));
                assert(h@.interned =~= h1.interned.push((s@, p)));
                assert(h@ =~= kept(old(h)@, n@, ty, p));
            }
        },
        Lane::Pinned(key) => {
            register_scalar_pin(h, key, p);
        },
        _ => {},
    }
}

/// An object without elements crosses as a mirror.
#[verifier::opaque]
pub open spec fn leaf(h: HeapV, n: NatV, ty: usize) -> (HeapV, usize) {
    match known(h, n, ty) {
        Some(p) => (shared(h, n, ty, p), p),
        None => if !can_open(h, n.val) {
            (h, 0)
        } else {
            let (h1, place) = opened(h, n, ty, lane(h, n, ty) is OneList);
            let h2 = filled_in(h1, n, place, Seq::empty());
            (kept(h2, n, ty, place.at), place.at)
        },
    }
}

pub(crate) fn leaf_out(h: &mut Heap, n: &Native, ty: usize) -> (r: usize)
    requires
        layout::kids_of(n@.val).len() == 0,
    ensures
        (final(h)@, r) == leaf(old(h)@, n@, ty),
{
    proof {
        reveal(leaf);
    }
    if let Some(p) = share_known(h, n, ty) {
        return p;
    }
    let one_list: bool = lane_of(h, n, ty) == Lane::OneList;
    match open_mirror(h, n, ty, one_list) {
        Some((place, plan)) => {
            let none: Vec<usize> = Vec::new();
            fill_mirror(h, n, place, plan, &none);
            assert(h@.mem.contains_key(place.at)) by {
                reveal(filled_in);
            }
            keep(h, n, ty, place.at);
            place.at
        },
        None => 0,
    }
}

// ---------------------------------------------------------------------------
// Plain objects
// ---------------------------------------------------------------------------

/// The size of a plain object: its head and the exception fields.
pub const BOX_SIZE: usize = 80;

/// The bytes of a plain object after its head.
pub open spec fn box_tail(e: ExcFields) -> Seq<u8> {
    layout::with_field(
        layout::with_field(
            bytes::zeros((BOX_SIZE - HEAD) as nat),
            24,
            e.args as u64,
        ),
        72,
        e.value as u64,
    )
}

fn tail_of_box(e: &ExcFields) -> (r: Vec<u8>)
    ensures
        r@ == box_tail(*e),
{
    let mut b: Vec<u8> = zero_block(BOX_SIZE - HEAD);
    set_field(&mut b, 24, e.args as u64);
    set_field(&mut b, 72, e.value as u64);
    b
}

/// The storage of a plain object.
pub open spec fn box_store(n: NatV, e: ExcFields) -> StoreV {
    StoreV {
        obj: n,
        link: Link::Unlinked,
        destructor: 0,
        tail: box_tail(e),
        aux: Seq::empty(),
        aux_addr: 0,
        str_buffer: false,
        bytes_buffer: false,
        list_synced: false,
        scalar_pinned: false,
        list_mint: None,
        exc: e,
    }
}

/// Make a plain object; NULL where there is no room.
pub open spec fn boxed(h: HeapV, n: NatV, ty: usize, refcnt: i64) -> (HeapV, usize) {
    if heap::has_room(h, BOX_SIZE as nat) {
        let (h1, p) = heap::allocated(h, BOX_SIZE as nat);
        (
            HeapV {
                heads: h1.heads.insert(p, PyObject { ob_refcnt: refcnt, ob_type: ty }),
                mem: h1.mem.insert(p, box_store(n, object::no_exc())),
                minted: h1.minted.insert(p),
                ..h1
            },
            p,
        )
    } else {
        (h, 0)
    }
}

pub(crate) fn new_box(h: &mut Heap, n: &Native, ty: usize, refcnt: i64) -> (r: Option<usize>)
    ensures
        r is Some == heap::has_room(old(h)@, BOX_SIZE as nat),
        match r {
            Some(p) => (final(h)@, p) == boxed(old(h)@, n@, ty, refcnt),
            None => final(h)@ == old(h)@,
        },
{
    if h.next as u128 + 256 > usize::MAX as u128 {
        return None;
    }
    let p: usize = h.fresh_addr(BOX_SIZE);
    let e: ExcFields = ExcFields::default();
    let s = Store {
        obj: copy_native(n),
        link: Link::Unlinked,
        destructor: 0,
        tail: tail_of_box(&e),
        aux: Vec::new(),
        aux_addr: 0,
        str_buffer: false,
        bytes_buffer: false,
        list_synced: false,
        scalar_pinned: false,
        list_mint: None,
        exc: e,
    };
    assert(s@ =~= box_store(n@, object::no_exc()));
    h.heads.insert(p, PyObject { ob_refcnt: refcnt, ob_type: ty });
    h.minted.insert(p);
    h.put_store(p, s);
    assert(h@ =~= boxed(old(h)@, n@, ty, refcnt).0);
    Some(p)
}

/// The heap with other exception fields in an object.
pub open spec fn with_exc(h: HeapV, p: usize, e: ExcFields) -> HeapV {
    if h.mem.contains_key(p) {
        heap::with_store(h, p, StoreV { exc: e, tail: box_tail(e), ..h.mem[p] })
    } else {
        h
    }
}

pub(crate) fn set_exc(h: &mut Heap, p: usize, e: ExcFields)
    ensures
        final(h)@ == with_exc(old(h)@, p, e),
{
    let ghost h0 = h@;
    if let Some(mut s) = h.take_store(p) {
        s.exc = e;
        s.tail = tail_of_box(&e);
        h.put_store(p, s);
        assert(h@.mem =~= h0.mem.insert(p, s@));
    } else {
        assert(h@.mem =~= h0.mem);
    }
}

/// The object of a module: one for each, never freed.
#[verifier::opaque]
pub open spec fn module_box(h: HeapV, n: NatV) -> (HeapV, usize) {
    match entry(h.modules, n.id) {
        Some(p) => (h, p),
        None => if heap::has_room(h, BOX_SIZE as nat) {
            let (h1, p) = boxed(h, n, type_for(h, n), object::IMMORTAL_REFCNT);
            (HeapV { modules: h1.modules.insert(n.id, p), ..h1 }, p)
        } else {
            (h, 0)
        },
    }
}

pub(crate) fn stable_module_box(h: &mut Heap, n: &Native) -> (r: usize)
    ensures
        (final(h)@, r) == module_box(old(h)@, n@),
{
    proof {
        reveal(module_box);
    }
    if let Some(p) = copied(&h.modules, n.id) {
        return p;
    }
    let ty: usize = type_for_object(h, n);
    match new_box(h, n, ty, object::IMMORTAL_REFCNT) {
        Some(p) => {
            h.modules.insert(n.id, p);
            assert(h@ =~= module_box(old(h)@, n@).0);
            p
        },
        None => 0,
    }
}

/// The object of a property that is not a C getter: one for each while C code
/// refers to it.
#[verifier::opaque]
pub open spec fn property_box(h: HeapV, n: NatV) -> (HeapV, usize) {
    match entry(h.properties, n.id) {
        Some(p) => (heap::increfed(h, p), p),
        None => if heap::has_room(h, BOX_SIZE as nat) {
            let (h1, p) = boxed(h, n, type_for(h, n), 1);
            (HeapV { properties: h1.properties.insert(n.id, p), ..h1 }, p)
        } else {
            (h, 0)
        },
    }
}

pub(crate) fn one_property_box(h: &mut Heap, n: &Native) -> (r: usize)
    ensures
        (final(h)@, r) == property_box(old(h)@, n@),
{
    proof {
        reveal(property_box);
    }
    if let Some(p) = copied(&h.properties, n.id) {
        Py_IncRef(h, p);
        return p;
    }
    let ty: usize = type_for_object(h, n);
    match new_box(h, n, ty, 1) {
        Some(p) => {
            h.properties.insert(n.id, p);
            assert(h@ =~= property_box(old(h)@, n@).0);
            p
        },
        None => 0,
    }
}

} // verus!
