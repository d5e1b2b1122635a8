//! Reading, freeing and pinning keep what the tables say.

use vstd::prelude::*;
use crate::freeing;
use crate::heap;
use crate::heap::{Event, HeapV, StoreV, Work};
use crate::keeping;
use crate::mirror;
use crate::reading;
use crate::reading::LIST_DEPTH;
use crate::tables;
use crate::tables::{goes, moves, stays, tables_hold};
use crate::value::{InstV, NatV, ObjV};

verus! {

broadcast use vstd::std_specs::hash::group_hash_axioms;

// ---------------------------------------------------------------------------
// Reading
// ---------------------------------------------------------------------------

proof fn lemma_new_cell(h: HeapV)
    requires
        tables_hold(h),
    ensures
        stays(h, heap::new_cell(h).0),
{
    tables::lemma_touch(h, heap::new_cell(h).0);
}

pub proof fn lemma_read(h: HeapV, ps: Seq<usize>, fuel: nat)
    requires
        tables_hold(h),
    ensures
        stays(h, reading::read_ptrs(h, ps, fuel).0),
    decreases fuel, 1nat, ps.len(), 0nat,
{
    if ps.len() == 0 {
        tables::lemma_same(h);
    } else {
        lemma_read(h, ps.drop_last(), fuel);
        let h1 = reading::read_ptrs(h, ps.drop_last(), fuel).0;
        if ps.last() != 0 && fuel > 0 {
            lemma_resolve(h1, ps.last(), (fuel - 1) as nat);
            tables::lemma_then(
                h,
                h1,
                reading::resolve(h1, ps.last(), (fuel - 1) as nat).0,
            );
        }
    }
}

proof fn lemma_adopted(h: HeapV, p: usize, id: usize, fuel: nat)
    requires
        tables_hold(h),
        h.mem.contains_key(p),
    ensures
        stays(h, reading::adopted(h, p, id, fuel)),
    decreases fuel, 2nat, 0nat, 0nat,
{
    let s = h.mem[p];
    let ps = mirror::list_ptrs_of(s);
    lemma_read(h, ps, fuel);
    keeping::lemma_read_keeps(h, ps, fuel);
    let (h1, vals) = reading::read_ptrs(h, ps, fuel);
    let h2 = reading::with_cell(h1, id, vals);
    tables::lemma_touch(h1, h2);
    tables::lemma_then(h, h1, h2);
    let g = reading::adopted(h, p, id, fuel);
    if h.seeded.contains_key(p) {
        tables::lemma_touch(h2, g);
    } else {
        let t = StoreV {
            list_mint: Some((mirror::ptrs_digest(s), mirror::objs_digest(vals))),
            ..h2.mem[p]
        };
        tables::lemma_store(h2, p, t);
    }
    tables::lemma_then(h, h2, g);
}

pub proof fn lemma_reconciled(h: HeapV, p: usize, fuel: nat)
    requires
        tables_hold(h),
        h.mem.contains_key(p),
    ensures
        stays(h, reading::reconciled(h, p, fuel)),
    decreases fuel, 3nat, 0nat, 0nat,
{
    if reading::written_by_c(h, p) {
        lemma_adopted(h, p, reading::live_cell(h, h.mem[p])->0, fuel);
    } else {
        tables::lemma_same(h);
    }
}

proof fn lemma_nested(h: HeapV, p: usize, depth: nat, fuel: nat)
    requires
        tables_hold(h),
    ensures
        stays(h, reading::nested(h, p, depth, fuel)),
    decreases fuel, 4nat, 2 * (LIST_DEPTH - depth) + 1, 0nat,
{
    if depth >= LIST_DEPTH || h.seeded.is_empty() {
        tables::lemma_same(h);
    } else {
        lemma_nested_in(h, p, mirror::list_ptrs_of(h.mem[p]), depth, fuel);
    }
}

proof fn lemma_nested_in(h: HeapV, p: usize, ps: Seq<usize>, depth: nat, fuel: nat)
    requires
        tables_hold(h),
    ensures
        stays(h, reading::nested_in(h, p, ps, depth, fuel)),
    decreases fuel, 4nat, 2 * (LIST_DEPTH - depth), ps.len(),
{
    if ps.len() == 0 || depth >= LIST_DEPTH {
        tables::lemma_same(h);
    } else {
        lemma_nested_in(h, p, ps.drop_last(), depth, fuel);
        let h1 = reading::nested_in(h, p, ps.drop_last(), depth, fuel);
        let c = ps.last();
        if c != 0 && c != p && mirror::list_at(h1, c) {
            lemma_reconciled(h1, c, fuel);
            let h2 = reading::reconciled(h1, c, fuel);
            tables::lemma_then(h, h1, h2);
            lemma_nested(h2, c, depth + 1, fuel);
            tables::lemma_then(h, h2, reading::nested(h2, c, depth + 1, fuel));
        }
    }
}

/// A tuple mirror that the tables speak of stands for a tuple, a list mirror for
/// a list.
pub proof fn lemma_shape(h: HeapV, p: usize)
    requires
        tables_hold(h),
        tables::fits(h, p),
    ensures
        mirror::tuple_at(h, p) ==> h.mem[p].obj.val is Tuple,
        mirror::list_at(h, p) ==> h.mem[p].obj.val is List,
{
    reveal(tables_hold);
}

proof fn lemma_tuple_recorded(h0: HeapV, h: HeapV, p: usize, ps: Seq<usize>, v: NatV)
    requires
        tables_hold(h0),
        stays(h0, h),
        mirror::tuple_at(h0, p),
        mirror::tuple_at(h, p),
        !tables::intact(h0.mem[p]),
        v.val is Tuple,
    ensures
        stays(h0, reading::tuple_recorded(h, p, ps, v)),
{
    reveal(reading::tuple_recorded);
    let s = h.mem[p];
    let (h1, addr) = if s.aux.len() == 8 * ps.len() {
        (h, s.aux_addr)
    } else {
        heap::allocated(h, 8 * ps.len())
    };
    tables::lemma_same(h);
    tables::lemma_allocated(h, 8 * ps.len());
    tables::lemma_then(h0, h, h1);
    let t = StoreV { obj: v, aux: mirror::slot_bytes(ps), aux_addr: addr, ..s };
    if tables::fits(h1, p) {
        lemma_shape(h1, p);
    }
    if tables::fits(h0, p) {
        lemma_shape(h0, p);
    }
    tables::lemma_rebuilt(h0, h1, p, t);
    let h2 = heap::with_store(h1, p, t);
    let h3 = HeapV { pending: h2.pending + heap::nonnull(mirror::snapshot_of(s)), ..h2 };
    tables::lemma_touch(h2, h3);
    tables::lemma_then(h0, h2, h3);
    tables::lemma_all_increfed(h3, ps);
    tables::lemma_then(h0, h3, heap::all_increfed(h3, ps));
}

/// An object that stays keeps its type.
pub proof fn lemma_type_stays(h: HeapV, g: HeapV, p: usize)
    requires
        goes(h, g),
        tables_hold(h),
        h.mem.contains_key(p),
        g.mem.contains_key(p),
    ensures
        heap::type_at(g, p) == heap::type_at(h, p),
        g.facts == h.facts,
        p < h.next,
{
    reveal(moves);
    reveal(tables::settles);
    reveal(tables_hold);
    assert(tables::unused(h, p) || p < h.next);
    assert(tables::follows(h, g, p));
}

proof fn lemma_with_value(h: HeapV, p: usize, o: ObjV)
    requires
        tables_hold(h),
        h.mem.contains_key(p),
    ensures
        stays(h, reading::with_value(h, p, o)),
        reading::with_value(h, p, o).mem.contains_key(p),
{
    tables::lemma_same(h);
    match h.mem[p].obj.val {
        ObjV::Instance(i) => {
            if i.native.len() == 0 {
                let (h1, id) = heap::new_cell(h);
                lemma_new_cell(h);
                let t = StoreV {
                    obj: NatV {
                        id: h.mem[p].obj.id,
                        val: ObjV::Instance(InstV { native: seq![NatV { id, val: o }], ..i }),
                    },
                    ..h.mem[p]
                };
                tables::lemma_store(h1, p, t);
                tables::lemma_then(h, h1, heap::with_store(h1, p, t));
            }
        },
        _ => {},
    }
}

proof fn lemma_valued(h: HeapV, p: usize, fuel: nat)
    requires
        tables_hold(h),
        h.mem.contains_key(p),
    ensures
        stays(h, reading::valued(h, p, fuel)),
        reading::valued(h, p, fuel).mem.contains_key(p),
    decreases fuel, 5nat, 0nat, 0nat,
{
    reveal(reading::text_valued);
    reveal(reading::bytes_valued);
    tables::lemma_same(h);
    let h1 = reading::text_valued(h, p);
    match reading::body_text(h, p) {
        Some(t) => {
            lemma_with_value(h, p, ObjV::Str(t));
        },
        None => {},
    }
    assert(stays(h, h1) && h1.mem.contains_key(p));
    tables::lemma_same(h1);
    let h2 = reading::bytes_valued(h1, p);
    match reading::bytes_in(h1.mem[p].tail) {
        Some(b) => {
            lemma_with_value(h1, p, ObjV::Bytes(b));
        },
        None => {},
    }
    assert(stays(h1, h2) && h2.mem.contains_key(p));
    tables::lemma_then(h, h1, h2);
    tables::lemma_same(h2);
    let ps = mirror::tuple_ptrs_of(h2.mem[p]);
    lemma_read(h2, ps, fuel);
    keeping::lemma_read_keeps(h2, ps, fuel);
    let (h3, vals) = reading::read_ptrs(h2, ps, fuel);
    lemma_with_value(h3, p, ObjV::Tuple(vals));
    tables::lemma_then(h2, h3, reading::with_value(h3, p, ObjV::Tuple(vals)));
    tables::lemma_then(h, h2, reading::valued(h, p, fuel));
}

proof fn lemma_tuple_native(h: HeapV, p: usize, fuel: nat)
    requires
        tables_hold(h),
        mirror::tuple_at(h, p),
    ensures
        stays(h, reading::tuple_native(h, p, fuel).0),
    decreases fuel, 5nat, 0nat, 0nat,
{
    tables::lemma_same(h);
    lemma_new_cell(h);
    let s = h.mem[p];
    let ps = mirror::tuple_ptrs_of(s);
    if ps.len() > 0 && !(s.obj.val is Tuple && s.aux.len() == 8 * ps.len() && mirror::snapshot_of(s)
        == ps) {
        lemma_read(h, ps, fuel);
        keeping::lemma_read_keeps(h, ps, fuel);
        let (h1, vals) = reading::read_ptrs(h, ps, fuel);
        lemma_type_stays(h, h1, p);
        let (h2, id) = heap::new_cell(h1);
        lemma_new_cell(h1);
        tables::lemma_then(h, h1, h2);
        let v = NatV { id, val: ObjV::Tuple(vals) };
        lemma_tuple_recorded(h, h2, p, ps, v);
    }
}

proof fn lemma_filled(h: HeapV, p: usize, vals: Seq<NatV>)
    requires
        tables_hold(h),
        mirror::list_at(h, p),
    ensures
        stays(h, reading::filled(h, p, vals)),
{
    match reading::list_cell(h.mem[p]) {
        Some(id) => {
            tables::lemma_touch(h, reading::with_cell(h, id, vals));
        },
        None => {
            let (h1, id) = heap::new_cell(h);
            lemma_new_cell(h);
            let t = StoreV { obj: NatV { id, val: ObjV::List(vals) }, ..h1.mem[p] };
            if tables::fits(h1, p) {
                lemma_shape(h1, p);
            }
            tables::lemma_store(h1, p, t);
            let h2 = heap::with_store(h1, p, t);
            tables::lemma_then(h, h1, h2);
            let h3 = reading::with_cell(h2, id, vals);
            tables::lemma_touch(h2, h3);
            tables::lemma_then(h, h2, h3);
        },
    }
}

proof fn lemma_list_native(h: HeapV, p: usize, fuel: nat)
    requires
        tables_hold(h),
        mirror::list_at(h, p),
    ensures
        stays(h, reading::list_native(h, p, fuel).0),
    decreases fuel, 5nat, 0nat, 0nat,
{
    let s = h.mem[p];
    if !s.list_synced {
        let t = StoreV { list_synced: true, ..s };
        tables::lemma_store(h, p, t);
        let h1 = heap::with_store(h, p, t);
        let ps = mirror::list_ptrs_of(s);
        lemma_read(h1, ps, fuel);
        keeping::lemma_read_keeps(h1, ps, fuel);
        let (h2, vals) = reading::read_ptrs(h1, ps, fuel);
        lemma_type_stays(h1, h2, p);
        tables::lemma_then(h, h1, h2);
        lemma_filled(h2, p, vals);
        let h3 = reading::filled(h2, p, vals);
        tables::lemma_then(h, h2, h3);
        let h4 = reading::registered(h3, p);
        tables::lemma_touch(h3, h4);
        tables::lemma_then(h, h3, h4);
    } else {
        lemma_reconciled(h, p, fuel);
        let h1 = reading::reconciled(h, p, fuel);
        lemma_nested(h1, p, 0, fuel);
        tables::lemma_then(h, h1, reading::nested(h1, p, 0, fuel));
    }
}

pub proof fn lemma_native(h: HeapV, p: usize, fuel: nat)
    requires
        tables_hold(h),
        h.mem.contains_key(p),
    ensures
        stays(h, reading::native_v(h, p, fuel).0),
    decreases fuel, 6nat, 0nat, 0nat,
{
    tables::lemma_same(h);
    lemma_new_cell(h);
    let s = h.mem[p];
    if s.link is Dead {
    } else if s.link is Alive {
        lemma_valued(h, p, fuel);
        let h1 = reading::valued(h, p, fuel);
        lemma_reconciled(h1, p, fuel);
        tables::lemma_then(h, h1, reading::reconciled(h1, p, fuel));
    } else if mirror::tuple_at(h, p) {
        lemma_tuple_native(h, p, fuel);
    } else if mirror::list_at(h, p) {
        lemma_list_native(h, p, fuel);
    } else if s.str_buffer {
    } else if s.bytes_buffer {
        match reading::bytes_in(s.tail) {
            None => {},
            Some(b) => {
                let (h1, id) = heap::new_cell(h);
                let t = StoreV {
                    obj: NatV { id, val: ObjV::Bytes(b) },
                    bytes_buffer: false,
                    ..s
                };
                tables::lemma_store(h1, p, t);
                tables::lemma_then(h, h1, heap::with_store(h1, p, t));
            },
        }
    }
}

/// Reading an object keeps what the tables say.
pub proof fn lemma_resolve(h: HeapV, p: usize, fuel: nat)
    requires
        tables_hold(h),
    ensures
        stays(h, reading::resolve(h, p, fuel).0),
    decreases fuel, 7nat, 0nat, 0nat,
{
    tables::lemma_same(h);
    if h.mem.contains_key(p) {
        lemma_native(h, p, fuel);
        let (h1, v) = reading::native_v(h, p, fuel);
        lemma_new_cell(h1);
        lemma_new_cell(h);
        tables::lemma_then(h, h1, heap::new_cell(h1).0);
    }
}

// ---------------------------------------------------------------------------
// Freeing
// ---------------------------------------------------------------------------

/// An object without a pin flag is in no table of pinned objects.
pub proof fn lemma_unlisted(h: HeapV, p: usize)
    requires
        tables_hold(h),
        !h.mem[p].scalar_pinned,
    ensures
        tables::unlisted(h, p),
{
    reveal(tables_hold);
    assert forall|i: int| 0 <= i < h.pins.len() implies (#[trigger] h.pins[i]).1 != p by {
        assert(tables::pin_ok(h, h.pins[i]));
    }
    assert forall|i: int| 0 <= i < h.interned.len() implies (#[trigger] h.interned[i]).1 != p by {
        assert(tables::text_ok(h, h.interned[i]));
    }
}

/// The storage of a mirror is freed.
proof fn lemma_removed(h: HeapV, p: usize)
    requires
        tables_hold(h),
        h.mem.contains_key(p),
        mirror::mirror_at(h, p),
        tables::unlisted(h, p),
    ensures
        goes(h, freeing::removed(h, p)),
        freeing::removed(h, p).pins == h.pins,
        freeing::removed(h, p).interned == h.interned,
        freeing::removed(h, p).due == h.due,
        forall|q: usize|
            q != p && #[trigger] tables::held(h, q) ==> tables::held(freeing::removed(h, p), q),
        !h.mem[p].scalar_pinned ==> stays(h, freeing::removed(h, p)),
{
    let g = freeing::removed(h, p);
    assert(tables::cleared_of(h.lists, g.lists, p) && tables::cleared_of(h.sets, g.sets, p)
        && tables::cleared_of(h.bytearrays, g.bytearrays, p) && tables::cleared_of(
        h.builtins,
        g.builtins,
        p,
    ) && tables::cleared_of(h.c_body, g.c_body, p)) by {
        reveal(tables_hold);
        assert forall|id: usize| #[trigger] h.lists.contains_key(id) && h.lists[id] == p implies
            mirror::list_at(h, p) && h.mem[p].obj.id == id by {
            assert(tables::list_ok(h, id, p));
        }
        assert forall|id: usize| #[trigger] h.sets.contains_key(id) && h.sets[id] == p implies
            h.mem[p].obj.id == id && (mirror::exactly(h, p, h.facts.types.set_type)
            || mirror::exactly(h, p, h.facts.types.frozenset_type)) by {
            assert(tables::set_ok(h, id, p));
        }
        assert forall|id: usize| #[trigger] h.bytearrays.contains_key(id) && h.bytearrays[id]
            == p implies h.mem[p].obj.id == id && mirror::exactly(
            h,
            p,
            h.facts.types.bytearray_type,
        ) by {
            assert(tables::bytearray_ok(h, id, p));
        }
        assert forall|id: usize| #[trigger] h.builtins.contains_key(id) && h.builtins[id]
            == p implies h.mem[p].obj.id == id && mirror::exactly(
            h,
            p,
            h.facts.types.cfunction_type,
        ) by {
            assert(tables::builtin_ok(h, id, p));
        }
        assert forall|id: usize| #[trigger] h.c_body.contains_key(id) implies h.c_body[id] != p by {
            assert(tables::body_ok(h, id, h.c_body[id]));
        }
    }
    tables::lemma_gone(h, g, p);
}

/// A mirror is freed.
pub proof fn lemma_freed_mirror(h: HeapV, p: usize)
    requires
        tables_hold(h),
        h.mem.contains_key(p),
        mirror::mirror_at(h, p),
        tables::unlisted(h, p),
    ensures
        goes(h, freeing::freed_mirror(h, p).0),
        freeing::freed_mirror(h, p).0.pins == h.pins,
        freeing::freed_mirror(h, p).0.interned == h.interned,
        freeing::freed_mirror(h, p).0.due == h.due,
        forall|q: usize|
            q != p && #[trigger] tables::held(h, q) ==> tables::held(
                freeing::freed_mirror(h, p).0,
                q,
            ),
        !h.mem[p].scalar_pinned ==> stays(h, freeing::freed_mirror(h, p).0),
{
    let h0 = HeapV { events: h.events.push(Event::Untether(p)), ..h };
    tables::lemma_touch(h, h0);
    tables::lemma_same(h0);
    let h1 = if mirror::list_at(h0, p) {
        reading::caught_up(h0, p)
    } else {
        h0
    };
    reveal(reading::caught_up);
    lemma_reconciled(h0, p, reading::reach(h0));
    keeping::lemma_reconciled_keeps(h0, p, reading::reach(h0));
    lemma_type_stays(h0, h1, p);
    tables::lemma_then(h, h0, h1);
    lemma_removed(h1, p);
    let g = freeing::removed(h1, p);
    tables::lemma_then(h, h1, g);
    assert forall|q: usize| q != p && #[trigger] tables::held(h, q) implies tables::held(g, q) by {
        lemma_held_below(h, q);
        assert(tables::held(h1, q)) by {
            reveal(tables::firm);
        }
    }
    if !h.mem[p].scalar_pinned {
        assert(tables::firm(h, g)) by {
            reveal(tables::firm);
        }
    }
}

/// An object lies below the next address.
pub proof fn lemma_held_below(h: HeapV, q: usize)
    requires
        tables_hold(h),
        h.mem.contains_key(q),
    ensures
        q < h.next,
{
    reveal(tables_hold);
    assert(tables::unused(h, q) || q < h.next);
}

/// A plain object is freed.
proof fn lemma_freed_box(h: HeapV, p: usize)
    requires
        tables_hold(h),
        h.mem.contains_key(p),
        !mirror::mirror_at(h, p),
    ensures
        stays(h, freeing::freed_box(h, p).0),
{
    let g = freeing::freed_box(h, p).0;
    assert(tables::cleared_of(h.lists, g.lists, p) && tables::cleared_of(h.sets, g.sets, p)
        && tables::cleared_of(h.bytearrays, g.bytearrays, p) && tables::cleared_of(
        h.builtins,
        g.builtins,
        p,
    ) && tables::cleared_of(h.c_body, g.c_body, p) && tables::unlisted(h, p)) by {
        reveal(tables_hold);
        assert forall|id: usize| #[trigger] h.lists.contains_key(id) implies h.lists[id] != p by {
            assert(tables::list_ok(h, id, h.lists[id]));
        }
        assert forall|id: usize| #[trigger] h.sets.contains_key(id) implies h.sets[id] != p by {
            assert(tables::set_ok(h, id, h.sets[id]));
        }
        assert forall|id: usize| #[trigger] h.bytearrays.contains_key(id) implies h.bytearrays[id]
            != p by {
            assert(tables::bytearray_ok(h, id, h.bytearrays[id]));
        }
        assert forall|id: usize| #[trigger] h.builtins.contains_key(id) implies h.builtins[id]
            != p by {
            assert(tables::builtin_ok(h, id, h.builtins[id]));
        }
        assert forall|id: usize| #[trigger] h.c_body.contains_key(id) && h.c_body[id] == p implies
            h.mem[p].obj.id == id && h.mem[p].obj.val is Instance by {
            assert(tables::body_ok(h, id, p));
        }
        assert forall|i: int| 0 <= i < h.pins.len() implies (#[trigger] h.pins[i]).1 != p by {
            assert(tables::pin_ok(h, h.pins[i]));
        }
        assert forall|i: int| 0 <= i < h.interned.len() implies (#[trigger] h.interned[i]).1
            != p by {
            assert(tables::text_ok(h, h.interned[i]));
        }
    }
    tables::lemma_gone(h, g, p);
    assert(tables::firm(h, g)) by {
        reveal(tables::firm);
        assert(!tables::held(h, p));
    }
}

/// An object that loses its last reference.
pub proof fn lemma_dropped(h: HeapV, p: usize)
    requires
        tables_hold(h),
    ensures
        stays(h, freeing::dropped(h, p).0),
{
    let g = freeing::dropped(h, p).0;
    let h0 = HeapV { events: h.events.push(Event::Forget(p)), ..h };
    tables::lemma_touch(h, h0);
    if !h.minted.contains(p) || !h.mem.contains_key(p) {
        if h.raw_longs.contains(p) {
            assert(!h.mem.contains_key(p)) by {
                reveal(tables_hold);
            }
            assert forall|q: usize|
                !h.raw_longs.contains(q) || h.mem.contains_key(q) implies #[trigger] heap::type_at(
                g,
                q,
            ) == heap::type_at(h, q) by {}
        }
        tables::lemma_touch(h, g);
    } else if !(h.mem[p].link is Unlinked) {
        tables::lemma_touch(h, g);
    } else if mirror::mirror_at(h, p) {
        if !h.mem[p].scalar_pinned {
            lemma_unlisted(h0, p);
            lemma_freed_mirror(h0, p);
            tables::lemma_then(h, h0, g);
        }
    } else if !(freeing::pinned_box(h, p) && freeing::strong_refs(h, h.mem[p].obj.id) > 1) {
        lemma_freed_box(h0, p);
        tables::lemma_then(h, h0, g);
    }
}

/// Releasing references keeps what the tables say.
pub proof fn lemma_worked(h: HeapV, work: Seq<Work>)
    requires
        tables_hold(h),
    ensures
        stays(h, freeing::worked(h, work)),
    decreases h.mem.dom().len(), work.len() + h.pending.len(), h.pending.len(),
{
    tables::lemma_same(h);
    if h.mem.dom().finite() {
        if work.len() == 0 {
            if h.pending.len() > 0 {
                let h1 = HeapV { pending: Seq::empty(), ..h };
                tables::lemma_touch(h, h1);
                lemma_worked(h1, freeing::refs(h.pending));
                tables::lemma_then(h, h1, freeing::worked(h, work));
            }
        } else {
            let rest = work.drop_last();
            match work.last() {
                Work::Tell(e) => {
                    let h1 = HeapV { events: h.events.push(e), ..h };
                    tables::lemma_touch(h, h1);
                    lemma_worked(h1, rest);
                    tables::lemma_then(h, h1, freeing::worked(h, work));
                },
                Work::Ref(p) => {
                    let (h1, last) = freeing::decrefed(h, p);
                    assert forall|q: usize| #[trigger] heap::type_at(h1, q) == heap::type_at(
                        h,
                        q,
                    ) by {}
                    tables::lemma_touch(h, h1);
                    if !last {
                        lemma_worked(h1, rest);
                        tables::lemma_then(h, h1, freeing::worked(h, work));
                    } else {
                        let (h2, more) = freeing::dropped(h1, p);
                        lemma_dropped(h1, p);
                        tables::lemma_then(h, h1, h2);
                        freeing::lemma_dropped_shrinks(h1, p);
                        lemma_worked(h2, rest + more.reverse());
                        tables::lemma_then(h, h2, freeing::worked(h, work));
                    }
                },
            }
        }
    }
}

} // verus!
