//! What the tables of objects say, and that every operation keeps it true.

use vstd::prelude::*;
use crate::flat;
use crate::heap;
use crate::heap::{Facts, HeapV, ScalarPinKey, StoreV};
use crate::mirror;
use crate::object;
use crate::pins;
use crate::value::{NatV, ObjV};

verus! {

broadcast use vstd::std_specs::hash::group_hash_axioms;

// ---------------------------------------------------------------------------
// What holds
// ---------------------------------------------------------------------------

/// The type's objects are mirrors that have no slots.
pub open spec fn lone_type(f: Facts, ty: usize) -> bool {
    ty != 0 && mirror::faithful(f.types, ty) && !mirror::list_shaped(f, ty)
        && !mirror::tuple_shaped(f, ty)
}

/// The builtin types are types of their own.
pub open spec fn kinds_apart(f: Facts) -> bool {
    let t = f.types;
    &&& lone_type(f, t.long_type)
    &&& lone_type(f, t.float_type)
    &&& lone_type(f, t.complex_type)
    &&& lone_type(f, t.unicode_type)
    &&& lone_type(f, t.bytes_type)
    &&& lone_type(f, t.bytearray_type)
    &&& lone_type(f, t.set_type)
    &&& lone_type(f, t.frozenset_type)
    &&& lone_type(f, t.cfunction_type)
    &&& lone_type(f, t.dict_type)
    &&& lone_type(f, t.method_type)
    &&& lone_type(f, t.slice_type)
    &&& lone_type(f, t.memoryview_type)
    &&& t.tuple_type != 0 && mirror::faithful(f.types, t.tuple_type) && !mirror::list_shaped(
        f,
        t.tuple_type,
    )
    &&& t.list_type != 0 && mirror::faithful(f.types, t.list_type) && !mirror::tuple_shaped(
        f,
        t.list_type,
    )
}

/// The type is one that an object of this kind crosses under.
pub open spec fn suits(f: Facts, o: ObjV, ty: usize) -> bool {
    match o {
        ObjV::Int(_)
        | ObjV::Float(_)
        | ObjV::Long(_, _)
        | ObjV::Complex(_, _)
        | ObjV::Str(_)
        | ObjV::WStr(_)
        | ObjV::Bytes(_)
        | ObjV::ByteArray(_)
        | ObjV::PySet(_)
        | ObjV::FrozenSet(_)
        | ObjV::Builtin
        | ObjV::Dict(_)
        | ObjV::BoundMethod(_)
        | ObjV::Slice(_)
        | ObjV::MemoryView(_) => lone_type(f, ty),
        ObjV::Tuple(_) => ty == f.types.tuple_type,
        ObjV::List(_) => ty == f.types.list_type,
        ObjV::Instance(_) => !mirror::mirror_type(f, ty),
        _ => false,
    }
}

/// The object was made here, is whole, and stands for a VM object of a kind that
/// suits its type.
pub open spec fn fits(h: HeapV, q: usize) -> bool {
    let s = h.mem[q];
    &&& h.mem.contains_key(q)
    &&& h.minted.contains(q)
    &&& flat::ordinary(h, q)
    &&& s.link is Unlinked
    &&& !s.str_buffer
    &&& !s.bytes_buffer
    &&& suits(h.facts, s.obj.val, heap::type_at(h, q))
}

/// Two values of one VM object: what can change of it may differ. A tuple may
/// have been read anew after C code wrote into its slots.
pub open spec fn same_thing(a: NatV, b: NatV) -> bool {
    match a.val {
        ObjV::Tuple(_) => b.val is Tuple,
        ObjV::List(_) => b.val is List && a.id == b.id,
        ObjV::ByteArray(_) => b.val is ByteArray && a.id == b.id,
        ObjV::Instance(_) => b.val is Instance && a.id == b.id,
        _ => a == b,
    }
}

/// The tuple stands for what its slots held when they were last recorded, and they
/// hold it still.
pub open spec fn intact(s: StoreV) -> bool {
    let ps = mirror::tuple_ptrs_of(s);
    s.obj.val is Tuple && (ps.len() == 0 || (s.aux.len() == 8 * ps.len() && mirror::snapshot_of(s)
        == ps))
}

/// Other storage of one object: it stands for the same VM object. A tuple that is
/// intact stays so.
pub open spec fn same_store(s: StoreV, t: StoreV) -> bool {
    same_thing(s.obj, t.obj) && (intact(s) ==> t.obj == s.obj && intact(t))
}

/// The address was never given to an object.
pub open spec fn unused(h: HeapV, q: usize) -> bool {
    &&& !h.heads.contains_key(q)
    &&& !h.mem.contains_key(q)
    &&& !h.minted.contains(q)
    &&& !h.raw_longs.contains(q)
    &&& flat::ordinary(h, q)
}

/// The key is that of the object. A tuple keeps the key of the tuple that crossed.
pub open spec fn keyed(key: ScalarPinKey, n: NatV) -> bool {
    match key {
        ScalarPinKey::Rc(k, _) => if k == 6 {
            n.val is Tuple
        } else {
            pins::pin_key(n) == Some(key)
        },
        _ => pins::pin_key(n) == Some(key),
    }
}

pub open spec fn pin_ok(h: HeapV, e: (ScalarPinKey, usize)) -> bool {
    fits(h, e.1) && h.mem[e.1].scalar_pinned && keyed(e.0, h.mem[e.1].obj)
}

pub open spec fn text_ok(h: HeapV, e: (Seq<char>, usize)) -> bool {
    fits(h, e.1) && h.mem[e.1].scalar_pinned && h.mem[e.1].obj.val == ObjV::Str(e.0)
        && heap::type_at(h, e.1) == h.facts.types.unicode_type
}

pub open spec fn set_ok(h: HeapV, id: usize, p: usize) -> bool {
    let o = h.mem[p].obj;
    let ty = heap::type_at(h, p);
    fits(h, p) && o.id == id && (o.val is PySet || o.val is FrozenSet) && (ty
        == h.facts.types.set_type || ty == h.facts.types.frozenset_type)
}

pub open spec fn bytearray_ok(h: HeapV, id: usize, p: usize) -> bool {
    fits(h, p) && h.mem[p].obj.id == id && h.mem[p].obj.val is ByteArray && heap::type_at(h, p)
        == h.facts.types.bytearray_type
}

pub open spec fn builtin_ok(h: HeapV, id: usize, p: usize) -> bool {
    fits(h, p) && h.mem[p].obj.id == id && h.mem[p].obj.val is Builtin && heap::type_at(h, p)
        == h.facts.types.cfunction_type
}

pub open spec fn body_ok(h: HeapV, id: usize, p: usize) -> bool {
    fits(h, p) && h.mem[p].obj.id == id && h.mem[p].obj.val is Instance
}

/// The object of a list that is being made.
pub open spec fn growing(h: HeapV, p: usize) -> bool {
    &&& p < h.next
    &&& !h.mem.contains_key(p)
    &&& !h.minted.contains(p)
    &&& !h.raw_longs.contains(p)
    &&& flat::ordinary(h, p)
    &&& heap::type_at(h, p) == h.facts.types.list_type
}

pub open spec fn list_ok(h: HeapV, id: usize, p: usize) -> bool {
    if h.mem.contains_key(p) {
        fits(h, p) && h.mem[p].obj.id == id && h.mem[p].obj.val is List
    } else {
        growing(h, p)
    }
}

/// Every entry of a table leads to an object that stands for the VM object of its
/// key. The entry of a list may lead to one that is being made.
#[verifier::opaque]
pub open spec fn tables_hold(h: HeapV) -> bool {
    &&& kinds_apart(h.facts)
    &&& forall|q: usize| q >= h.next ==> #[trigger] unused(h, q)
    &&& forall|q: usize| #[trigger] h.raw_longs.contains(q) ==> !h.mem.contains_key(q)
    &&& forall|i: int| 0 <= i < h.pins.len() ==> pin_ok(h, #[trigger] h.pins[i])
    &&& forall|i: int, j: int|
        0 <= i < j < h.pins.len() ==> (#[trigger] h.pins[i]).0 != (#[trigger] h.pins[j]).0
            && h.pins[i].1 != h.pins[j].1
    &&& forall|i: int| 0 <= i < h.interned.len() ==> text_ok(h, #[trigger] h.interned[i])
    &&& forall|i: int, j: int|
        0 <= i < j < h.interned.len() ==> (#[trigger] h.interned[i]).0 != (
        #[trigger] h.interned[j]).0
    &&& forall|i: int, j: int|
        0 <= i < h.pins.len() && 0 <= j < h.interned.len() ==> (#[trigger] h.pins[i]).1 != (
        #[trigger] h.interned[j]).1
    &&& forall|id: usize| #[trigger] h.sets.contains_key(id) ==> set_ok(h, id, h.sets[id])
    &&& forall|id: usize| #[trigger]
        h.bytearrays.contains_key(id) ==> bytearray_ok(h, id, h.bytearrays[id])
    &&& forall|id: usize| #[trigger]
        h.builtins.contains_key(id) ==> builtin_ok(h, id, h.builtins[id])
    &&& forall|id: usize| #[trigger] h.c_body.contains_key(id) ==> body_ok(h, id, h.c_body[id])
    &&& forall|id: usize| #[trigger] h.lists.contains_key(id) ==> list_ok(h, id, h.lists[id])
}

/// The tables hold, and no list is being made.
pub open spec fn tables_ok(h: HeapV) -> bool {
    &&& tables_hold(h)
    &&& forall|id: usize| #[trigger] h.lists.contains_key(id) ==> h.mem.contains_key(h.lists[id])
}

// ---------------------------------------------------------------------------
// What an operation may change
// ---------------------------------------------------------------------------

/// What an operation may do to an address: an object may go, but none comes to an
/// address that was given away, and one that stays stands for what it stood for.
pub open spec fn follows(h: HeapV, g: HeapV, q: usize) -> bool {
    &&& g.mem.contains_key(q) ==> h.mem.contains_key(q)
    &&& g.minted.contains(q) ==> h.minted.contains(q)
    &&& g.getset_boxes.contains(q) ==> h.getset_boxes.contains(q)
    &&& g.raw_longs.contains(q) ==> h.raw_longs.contains(q)
    &&& fits(h, q) && g.mem.contains_key(q) ==> fits(g, q) && same_store(h.mem[q], g.mem[q])
    &&& !h.raw_longs.contains(q) && (h.mem.contains_key(q) ==> g.mem.contains_key(q))
        ==> heap::type_at(g, q) == heap::type_at(h, q)
    &&& lasting(h, q) ==> lasting(g, q) && g.heads[q] == h.heads[q]
}

/// An object that was not made here and is never freed.
pub open spec fn lasting(h: HeapV, q: usize) -> bool {
    &&& h.heads.contains_key(q)
    &&& object::immortal(h.heads[q].ob_refcnt)
    &&& !h.mem.contains_key(q)
    &&& !h.raw_longs.contains(q)
}

/// What an operation may do to the heap.
#[verifier::opaque]
pub open spec fn moves(h: HeapV, g: HeapV) -> bool {
    &&& g.facts == h.facts
    &&& g.next >= h.next
    &&& g.arg_depth == h.arg_depth
    &&& g.intern_depth == h.intern_depth
    &&& forall|q: usize| q < h.next ==> #[trigger] follows(h, g, q)
    &&& g.interned.len() >= h.interned.len()
    &&& forall|i: int| 0 <= i < h.interned.len() ==> #[trigger] g.interned[i] == h.interned[i]
}

/// No list is being made that was not being made before.
#[verifier::opaque]
pub open spec fn settles(h: HeapV, g: HeapV) -> bool {
    forall|id: usize| #[trigger]
        g.lists.contains_key(id) && !g.mem.contains_key(g.lists[id]) ==> h.lists.contains_key(id)
            && h.lists[id] == g.lists[id] && !h.mem.contains_key(h.lists[id])
}

/// The tables still hold after an operation.
pub open spec fn goes(h: HeapV, g: HeapV) -> bool {
    tables_hold(g) && moves(h, g) && settles(h, g)
}

/// What is pinned outlives the operation.
#[verifier::opaque]
pub open spec fn firm(h: HeapV, g: HeapV) -> bool {
    forall|q: usize| q < h.next && #[trigger] held(h, q) ==> held(g, q)
}

/// The object is pinned.
pub open spec fn held(h: HeapV, q: usize) -> bool {
    fits(h, q) && h.mem[q].scalar_pinned && mirror::mirror_at(h, q)
}

/// The tables still hold after an operation that pins and interns nothing and lets
/// no pinned object go.
pub open spec fn stays(h: HeapV, g: HeapV) -> bool {
    goes(h, g) && g.pins == h.pins && g.interned == h.interned && g.due == h.due && firm(h, g)
}

/// No pin and no interned text leads to the object.
pub open spec fn unlisted(h: HeapV, p: usize) -> bool {
    &&& forall|i: int| 0 <= i < h.pins.len() ==> (#[trigger] h.pins[i]).1 != p
    &&& forall|i: int| 0 <= i < h.interned.len() ==> (#[trigger] h.interned[i]).1 != p
}

pub proof fn lemma_same(h: HeapV)
    requires
        tables_hold(h),
    ensures
        stays(h, h),
{
    reveal(moves);
    reveal(settles);
    reveal(firm);
}

/// One operation after another.
pub proof fn lemma_then(a: HeapV, b: HeapV, c: HeapV)
    requires
        goes(a, b),
        goes(b, c),
    ensures
        goes(a, c),
        stays(a, b) && stays(b, c) ==> stays(a, c),
{
    reveal(moves);
    reveal(settles);
    reveal(firm);
    assert forall|q: usize| q < a.next implies #[trigger] follows(a, c, q) by {
        assert(follows(a, b, q));
        assert(follows(b, c, q));
    }
    assert forall|i: int| 0 <= i < a.interned.len() implies #[trigger] c.interned[i]
        == a.interned[i] by {
        assert(b.interned[i] == a.interned[i]);
    }
}

/// One operation after another, the first of which may have begun a list.
pub proof fn lemma_moves(a: HeapV, b: HeapV, c: HeapV)
    requires
        moves(a, b),
        moves(b, c),
    ensures
        moves(a, c),
{
    reveal(moves);
    assert forall|q: usize| q < a.next implies #[trigger] follows(a, c, q) by {
        assert(follows(a, b, q));
        assert(follows(b, c, q));
    }
    assert forall|i: int| 0 <= i < a.interned.len() implies #[trigger] c.interned[i]
        == a.interned[i] by {
        assert(b.interned[i] == a.interned[i]);
    }
}

/// A change that the tables do not speak of.
pub proof fn lemma_touch(h: HeapV, g: HeapV)
    requires
        tables_hold(h),
        g.facts == h.facts,
        g.mem == h.mem,
        g.minted == h.minted,
        g.next == h.next,
        g.getset_boxes == h.getset_boxes,
        g.arg_depth == h.arg_depth,
        g.intern_depth == h.intern_depth,
        g.lists == h.lists,
        g.sets == h.sets,
        g.bytearrays == h.bytearrays,
        g.builtins == h.builtins,
        g.c_body == h.c_body,
        g.pins == h.pins,
        g.interned == h.interned,
        forall|q: usize| #[trigger] g.raw_longs.contains(q) ==> h.raw_longs.contains(q),
        forall|q: usize| #[trigger] g.heads.contains_key(q) ==> h.heads.contains_key(q),
        forall|q: usize|
            !h.raw_longs.contains(q) || h.mem.contains_key(q) ==> #[trigger] heap::type_at(g, q)
                == heap::type_at(h, q),
        forall|q: usize| #[trigger]
            lasting(h, q) ==> g.heads.contains_key(q) && g.heads[q] == h.heads[q],
    ensures
        goes(h, g),
        firm(h, g),
        g.due == h.due ==> stays(h, g),
{
    reveal(tables_hold);
    reveal(moves);
    reveal(settles);
    reveal(firm);
    assert forall|q: usize| q < h.next && #[trigger] held(h, q) implies held(g, q) by {
        assert(heap::type_at(g, q) == heap::type_at(h, q));
    }
    assert forall|q: usize| q >= g.next implies #[trigger] unused(g, q) by {
        assert(unused(h, q));
    }
    assert forall|q: usize| fits(h, q) implies fits(g, q) by {
        assert(heap::type_at(g, q) == heap::type_at(h, q));
    }
    assert forall|i: int| 0 <= i < g.pins.len() implies pin_ok(g, #[trigger] g.pins[i]) by {
        assert(pin_ok(h, h.pins[i]));
    }
    assert forall|i: int| 0 <= i < g.interned.len() implies text_ok(g, #[trigger] g.interned[i]) by {
        assert(text_ok(h, h.interned[i]));
        assert(heap::type_at(g, g.interned[i].1) == heap::type_at(h, g.interned[i].1));
    }
    assert forall|id: usize| #[trigger] g.sets.contains_key(id) implies set_ok(g, id, g.sets[id]) by {
        assert(set_ok(h, id, h.sets[id]));
        assert(heap::type_at(g, g.sets[id]) == heap::type_at(h, g.sets[id]));
    }
    assert forall|id: usize| #[trigger] g.bytearrays.contains_key(id) implies bytearray_ok(
        g,
        id,
        g.bytearrays[id],
    ) by {
        assert(bytearray_ok(h, id, h.bytearrays[id]));
        assert(heap::type_at(g, g.bytearrays[id]) == heap::type_at(h, g.bytearrays[id]));
    }
    assert forall|id: usize| #[trigger] g.builtins.contains_key(id) implies builtin_ok(
        g,
        id,
        g.builtins[id],
    ) by {
        assert(builtin_ok(h, id, h.builtins[id]));
        assert(heap::type_at(g, g.builtins[id]) == heap::type_at(h, g.builtins[id]));
    }
    assert forall|id: usize| #[trigger] g.c_body.contains_key(id) implies body_ok(
        g,
        id,
        g.c_body[id],
    ) by {
        assert(body_ok(h, id, h.c_body[id]));
    }
    assert forall|id: usize| #[trigger] g.lists.contains_key(id) implies list_ok(
        g,
        id,
        g.lists[id],
    ) by {
        assert(list_ok(h, id, h.lists[id]));
        assert(heap::type_at(g, g.lists[id]) == heap::type_at(h, g.lists[id]));
    }
}

/// An object gets other storage. What suited the tables still does.
pub proof fn lemma_stored(h: HeapV, p: usize, s: StoreV)
    requires
        tables_hold(h),
        h.mem.contains_key(p),
        fits(h, p) ==> {
            &&& s.link is Unlinked
            &&& !s.str_buffer
            &&& !s.bytes_buffer
            &&& h.mem[p].scalar_pinned && !s.scalar_pinned ==> unlisted(h, p)
            &&& same_thing(h.mem[p].obj, s.obj)
        },
    ensures
        tables_hold(heap::with_store(h, p, s)),
        settles(h, heap::with_store(h, p, s)),
        (h.mem[p].scalar_pinned ==> s.scalar_pinned) ==> firm(h, heap::with_store(h, p, s)),
        forall|q: usize| q != p && #[trigger] held(h, q) ==> held(heap::with_store(h, p, s), q),
{
    reveal(tables_hold);
    reveal(settles);
    reveal(firm);
    let g = heap::with_store(h, p, s);
    assert forall|q: usize| q >= g.next implies #[trigger] unused(g, q) by {
        assert(unused(h, q));
        assert(unused(h, p) || p < h.next);
    }
    assert forall|q: usize| #[trigger] fits(h, q) implies fits(g, q) by {
        assert(heap::type_at(g, q) == heap::type_at(h, q));
    }
    assert forall|i: int| 0 <= i < g.pins.len() implies pin_ok(g, #[trigger] g.pins[i]) by {
        assert(pin_ok(h, h.pins[i]));
    }
    assert forall|i: int| 0 <= i < g.interned.len() implies text_ok(g, #[trigger] g.interned[i]) by {
        assert(text_ok(h, h.interned[i]));
    }
    assert forall|id: usize| #[trigger] g.sets.contains_key(id) implies set_ok(g, id, g.sets[id]) by {
        assert(set_ok(h, id, h.sets[id]));
    }
    assert forall|id: usize| #[trigger] g.bytearrays.contains_key(id) implies bytearray_ok(
        g,
        id,
        g.bytearrays[id],
    ) by {
        assert(bytearray_ok(h, id, h.bytearrays[id]));
    }
    assert forall|id: usize| #[trigger] g.builtins.contains_key(id) implies builtin_ok(
        g,
        id,
        g.builtins[id],
    ) by {
        assert(builtin_ok(h, id, h.builtins[id]));
    }
    assert forall|id: usize| #[trigger] g.c_body.contains_key(id) implies body_ok(
        g,
        id,
        g.c_body[id],
    ) by {
        assert(body_ok(h, id, h.c_body[id]));
    }
    assert forall|id: usize| #[trigger] g.lists.contains_key(id) implies list_ok(
        g,
        id,
        g.lists[id],
    ) by {
        assert(list_ok(h, id, h.lists[id]));
    }
}

/// An object gets other storage that stands for the same VM object.
pub proof fn lemma_store(h: HeapV, p: usize, s: StoreV)
    requires
        tables_hold(h),
        h.mem.contains_key(p),
        fits(h, p) ==> {
            &&& s.link is Unlinked
            &&& !s.str_buffer
            &&& !s.bytes_buffer
            &&& h.mem[p].scalar_pinned && !s.scalar_pinned ==> unlisted(h, p)
            &&& same_store(h.mem[p], s)
        },
    ensures
        goes(h, heap::with_store(h, p, s)),
        heap::with_store(h, p, s).pins == h.pins,
        heap::with_store(h, p, s).interned == h.interned,
        (h.mem[p].scalar_pinned ==> s.scalar_pinned) ==> stays(h, heap::with_store(h, p, s)),
        forall|q: usize| q != p && #[trigger] held(h, q) ==> held(heap::with_store(h, p, s), q),
{
    lemma_stored(h, p, s);
    reveal(moves);
    let g = heap::with_store(h, p, s);
    assert forall|q: usize| #[trigger] fits(h, q) implies fits(g, q) by {
        assert(heap::type_at(g, q) == heap::type_at(h, q));
    }
}

/// A tuple that was not intact at first gets its storage in a later heap.
pub proof fn lemma_rebuilt(h0: HeapV, h: HeapV, p: usize, s: StoreV)
    requires
        tables_hold(h0),
        tables_hold(h),
        stays(h0, h),
        h0.mem.contains_key(p),
        h.mem.contains_key(p),
        fits(h0, p) ==> !intact(h0.mem[p]) && h0.mem[p].obj.val is Tuple,
        s.obj.val is Tuple,
        fits(h, p) ==> h.mem[p].obj.val is Tuple,
        s == (StoreV { obj: s.obj, aux: s.aux, aux_addr: s.aux_addr, ..h.mem[p] }),
    ensures
        stays(h0, heap::with_store(h, p, s)),
{
    lemma_stored(h, p, s);
    let g = heap::with_store(h, p, s);
    reveal(moves);
    reveal(settles);
    reveal(firm);
    assert forall|q: usize| q < h0.next implies #[trigger] follows(h0, g, q) by {
        assert(follows(h0, h, q));
        if fits(h0, q) && g.mem.contains_key(q) {
            assert(fits(h, q));
            assert(heap::type_at(g, q) == heap::type_at(h, q));
        }
    }
    assert forall|q: usize| q < h0.next && #[trigger] held(h0, q) implies held(g, q) by {
        assert(held(h, q));
        assert(heap::type_at(g, q) == heap::type_at(h, q));
    }
}

/// A block is taken.
pub proof fn lemma_allocated(h: HeapV, size: nat)
    requires
        tables_hold(h),
    ensures
        stays(h, heap::allocated(h, size).0),
{
    reveal(tables_hold);
    reveal(moves);
    reveal(settles);
    reveal(firm);
    let g = heap::allocated(h, size).0;
    assert forall|q: usize| q >= g.next implies #[trigger] unused(g, q) by {
        assert(unused(h, q));
    }
    assert forall|q: usize| #[trigger] fits(h, q) implies fits(g, q) by {
        assert(heap::type_at(g, q) == heap::type_at(h, q));
    }
    assert forall|i: int| 0 <= i < g.pins.len() implies pin_ok(g, #[trigger] g.pins[i]) by {
        assert(pin_ok(h, h.pins[i]));
    }
    assert forall|i: int| 0 <= i < g.interned.len() implies text_ok(g, #[trigger] g.interned[i]) by {
        assert(text_ok(h, h.interned[i]));
    }
    assert forall|id: usize| #[trigger] g.sets.contains_key(id) implies set_ok(g, id, g.sets[id]) by {
        assert(set_ok(h, id, h.sets[id]));
    }
    assert forall|id: usize| #[trigger] g.bytearrays.contains_key(id) implies bytearray_ok(
        g,
        id,
        g.bytearrays[id],
    ) by {
        assert(bytearray_ok(h, id, h.bytearrays[id]));
    }
    assert forall|id: usize| #[trigger] g.builtins.contains_key(id) implies builtin_ok(
        g,
        id,
        g.builtins[id],
    ) by {
        assert(builtin_ok(h, id, h.builtins[id]));
    }
    assert forall|id: usize| #[trigger] g.c_body.contains_key(id) implies body_ok(
        g,
        id,
        g.c_body[id],
    ) by {
        assert(body_ok(h, id, h.c_body[id]));
    }
    assert forall|id: usize| #[trigger] g.lists.contains_key(id) implies list_ok(
        g,
        id,
        g.lists[id],
    ) by {
        assert(list_ok(h, id, h.lists[id]));
    }
}

/// One more reference.
pub proof fn lemma_increfed(h: HeapV, p: usize)
    requires
        tables_hold(h),
    ensures
        stays(h, heap::increfed(h, p)),
{
    let g = heap::increfed(h, p);
    assert forall|q: usize| #[trigger] heap::type_at(g, q) == heap::type_at(h, q) by {}
    lemma_touch(h, g);
}

pub proof fn lemma_all_increfed(h: HeapV, ps: Seq<usize>)
    requires
        tables_hold(h),
    ensures
        stays(h, heap::all_increfed(h, ps)),
        heap::all_increfed(h, ps).mem == h.mem,
        heap::all_increfed(h, ps).minted == h.minted,
        heap::all_increfed(h, ps).lists == h.lists,
        heap::all_increfed(h, ps).next == h.next,
        heap::all_increfed(h, ps).raw_longs == h.raw_longs,
    decreases ps.len(),
{
    if ps.len() == 0 {
        lemma_same(h);
    } else {
        let h1 = heap::all_increfed(h, ps.drop_last());
        lemma_all_increfed(h, ps.drop_last());
        lemma_increfed(h1, ps.last());
        lemma_then(h, h1, heap::increfed(h1, ps.last()));
    }
}

/// A table without the entries that led to an object.
pub open spec fn cleared_of(m: Map<usize, usize>, k: Map<usize, usize>, p: usize) -> bool {
    forall|id: usize| #[trigger]
        k.contains_key(id) ==> m.contains_key(id) && k[id] == m[id] && k[id] != p
}

/// An object goes, and every table entry that led to it.
pub proof fn lemma_gone(h: HeapV, g: HeapV, p: usize)
    requires
        tables_hold(h),
        h.mem.contains_key(p),
        unlisted(h, p),
        g.facts == h.facts,
        g.next == h.next,
        g.arg_depth == h.arg_depth,
        g.intern_depth == h.intern_depth,
        g.mem == h.mem.remove(p),
        g.minted == h.minted.remove(p),
        g.heads == h.heads.remove(p),
        g.raw_longs == h.raw_longs,
        g.getset_boxes == h.getset_boxes,
        g.pins == h.pins,
        g.interned == h.interned,
        g.due == h.due,
        cleared_of(h.lists, g.lists, p),
        cleared_of(h.sets, g.sets, p),
        cleared_of(h.bytearrays, g.bytearrays, p),
        cleared_of(h.builtins, g.builtins, p),
        cleared_of(h.c_body, g.c_body, p),
    ensures
        goes(h, g),
        forall|q: usize| q != p && #[trigger] held(h, q) ==> held(g, q),
        !h.mem[p].scalar_pinned ==> stays(h, g),
{
    reveal(tables_hold);
    reveal(moves);
    reveal(settles);
    reveal(firm);
    assert forall|q: usize| q >= g.next implies #[trigger] unused(g, q) by {
        assert(unused(h, q));
    }
    assert forall|q: usize| q != p && #[trigger] fits(h, q) implies fits(g, q) by {
        assert(heap::type_at(g, q) == heap::type_at(h, q));
    }
    assert forall|i: int| 0 <= i < g.pins.len() implies pin_ok(g, #[trigger] g.pins[i]) by {
        assert(pin_ok(h, h.pins[i]));
    }
    assert forall|i: int| 0 <= i < g.interned.len() implies text_ok(g, #[trigger] g.interned[i]) by {
        assert(text_ok(h, h.interned[i]));
    }
    assert forall|id: usize| #[trigger] g.sets.contains_key(id) implies set_ok(g, id, g.sets[id]) by {
        assert(set_ok(h, id, h.sets[id]));
    }
    assert forall|id: usize| #[trigger] g.bytearrays.contains_key(id) implies bytearray_ok(
        g,
        id,
        g.bytearrays[id],
    ) by {
        assert(bytearray_ok(h, id, h.bytearrays[id]));
    }
    assert forall|id: usize| #[trigger] g.builtins.contains_key(id) implies builtin_ok(
        g,
        id,
        g.builtins[id],
    ) by {
        assert(builtin_ok(h, id, h.builtins[id]));
    }
    assert forall|id: usize| #[trigger] g.c_body.contains_key(id) implies body_ok(
        g,
        id,
        g.c_body[id],
    ) by {
        assert(body_ok(h, id, h.c_body[id]));
    }
    assert forall|id: usize| #[trigger] g.lists.contains_key(id) implies list_ok(
        g,
        id,
        g.lists[id],
    ) by {
        assert(list_ok(h, id, h.lists[id]));
    }
}

} // verus!
