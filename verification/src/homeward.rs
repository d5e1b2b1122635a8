//! What crosses to C code comes back, also where the tables know it already.

use vstd::prelude::*;
use crate::crossing;
use crate::crossing::Lane;
use crate::fields;
use crate::flat;
use crate::freeing;
use crate::heap;
use crate::heap::{HeapV, ListSync, StoreV};
use crate::holding;
use crate::layout;
use crate::lists;
use crate::mirror;
use crate::outward;
use crate::passage;
use crate::pins;
use crate::publish;
use crate::reading;
use crate::steady;
use crate::tables;
use crate::tables::{goes, moves, stays, tables_hold, tables_ok};
use crate::trips;
use crate::value::{NatV, ObjV};

verus! {

broadcast use vstd::std_specs::hash::group_hash_axioms;

// ---------------------------------------------------------------------------
// Publishing
// ---------------------------------------------------------------------------

pub proof fn lemma_changed(h: HeapV, p: usize, s: StoreV)
    requires
        tables_hold(h),
        h.mem.contains_key(p) ==> s.obj == h.mem[p].obj && s.link == h.mem[p].link && s.str_buffer
            == h.mem[p].str_buffer && s.bytes_buffer == h.mem[p].bytes_buffer && s.scalar_pinned
            == h.mem[p].scalar_pinned,
        h.mem.contains_key(p) ==> mirror::list_at(h, p),
    ensures
        stays(h, lists::changed(h, p, s)),
{
    tables::lemma_same(h);
    if h.mem.contains_key(p) {
        if tables::fits(h, p) {
            steady::lemma_shape(h, p);
        }
        tables::lemma_store(h, p, s);
    }
}

/// The object is gone or is a list.
pub open spec fn list_or_gone(h: HeapV, p: usize) -> bool {
    p < h.next && (h.mem.contains_key(p) ==> mirror::list_at(h, p))
}

pub proof fn lemma_list_stays(h: HeapV, g: HeapV, p: usize)
    requires
        tables_hold(h),
        goes(h, g),
        list_or_gone(h, p),
    ensures
        list_or_gone(g, p),
{
    reveal(moves);
    assert(tables::follows(h, g, p));
    if g.mem.contains_key(p) {
        steady::lemma_type_stays(h, g, p);
    }
}

pub proof fn lemma_reserved(h: HeapV, p: usize, min: nat)
    requires
        tables_hold(h),
        mirror::list_at(h, p),
    ensures
        stays(h, lists::reserved(h, p, min)),
{
    reveal(lists::reserved);
    tables::lemma_same(h);
    let s = h.mem[p];
    if !lists::roomy(s, min) && lists::can_grow(h, s, min) {
        let cap = lists::grown_room(min, lists::room_of(s));
        let (h1, at) = heap::allocated(h, 8 * cap);
        tables::lemma_allocated(h, 8 * cap);
        let t = lists::regrown(s, cap, at);
        if tables::fits(h1, p) {
            steady::lemma_shape(h1, p);
        }
        tables::lemma_store(h1, p, t);
        tables::lemma_then(h, h1, heap::with_store(h1, p, t));
    }
}

pub proof fn lemma_released(h: HeapV, ps: Seq<usize>)
    requires
        tables_hold(h),
    ensures
        stays(h, freeing::released(h, ps)),
{
    steady::lemma_worked(h, freeing::refs(ps));
}

proof fn lemma_filled(h: HeapV, p: usize, items: Seq<NatV>)
    requires
        tables_hold(h),
        list_or_gone(h, p),
    ensures
        goes(h, publish::slots_filled(h, p, items)),
    decreases items.len(),
{
    tables::lemma_same(h);
    if items.len() > 0 {
        let i = items.len() - 1;
        lemma_filled(h, p, items.drop_last());
        let h1 = publish::slots_filled(h, p, items.drop_last());
        if h1.mem.contains_key(p) {
            let old_ptr = lists::slot_of(h1.mem[p], i);
            passage::lemma_out(h1, items.last());
            let (h2, new) = outward::out(h1, items.last());
            tables::lemma_then(h, h1, h2);
            lemma_released(h2, seq![new]);
            tables::lemma_then(h, h2, freeing::released(h2, seq![new]));
            let s = lists::with_slot(h2.mem[p], i, new);
            lemma_list_stays(h, h2, p);
            lemma_changed(h2, p, s);
            let h3 = lists::changed(h2, p, s);
            tables::lemma_then(h, h2, h3);
            lemma_released(h3, seq![old_ptr]);
            tables::lemma_then(h, h3, freeing::released(h3, seq![old_ptr]));
        }
    }
}

proof fn lemma_cleared(h: HeapV, p: usize, from: nat, to: nat)
    requires
        tables_hold(h),
        list_or_gone(h, p),
    ensures
        goes(h, publish::slots_cleared(h, p, from, to)),
    decreases to,
{
    tables::lemma_same(h);
    if to > from {
        lemma_cleared(h, p, from, (to - 1) as nat);
        let h1 = publish::slots_cleared(h, p, from, (to - 1) as nat);
        if h1.mem.contains_key(p) {
            let old_ptr = lists::slot_of(h1.mem[p], to - 1);
            let s = lists::with_slot(h1.mem[p], to - 1, 0);
            lemma_list_stays(h, h1, p);
            lemma_changed(h1, p, s);
            let h2 = lists::changed(h1, p, s);
            tables::lemma_then(h, h1, h2);
            lemma_released(h2, seq![old_ptr]);
            tables::lemma_then(h, h2, freeing::released(h2, seq![old_ptr]));
        }
    }
}

proof fn lemma_recorded(h: HeapV, p: usize, fp: heap::Digest)
    requires
        tables_hold(h),
    ensures
        stays(h, publish::recorded(h, p, fp)),
{
    tables::lemma_same(h);
    if h.mem.contains_key(p) {
        let c = mirror::ptrs_digest(h.mem[p]);
        let h1 = if h.seeded.contains_key(p) {
            HeapV {
                seeded: h.seeded.insert(p, ListSync { rc_fp: Some(fp), c_ptrs: c }),
                ..h
            }
        } else {
            h
        };
        tables::lemma_touch(h, h1);
        let s = StoreV { list_mint: Some((c, fp)), ..h.mem[p] };
        tables::lemma_store(h1, p, s);
        tables::lemma_then(h, h1, heap::with_store(h1, p, s));
    }
}

proof fn lemma_written(h: HeapV, p: usize, items: Seq<NatV>)
    requires
        tables_hold(h),
        mirror::list_at(h, p),
    ensures
        goes(h, publish::written(h, p, items)),
{
    tables::lemma_same(h);
    let n = items.len();
    let s = h.mem[p];
    let had = mirror::at_most(mirror::var_size(s.tail), (s.aux.len() / 8) as int);
    let h1 = if n > 0 {
        lists::reserved(h, p, n)
    } else {
        h
    };
    lemma_reserved(h, p, n);
    steady::lemma_held_below(h, p);
    lemma_list_stays(h, h1, p);
    if !(n > 0 && !lists::roomy(h1.mem[p], n)) {
        lemma_filled(h1, p, items);
        let h2 = publish::slots_filled(h1, p, items);
        tables::lemma_then(h, h1, h2);
        lemma_list_stays(h, h2, p);
        lemma_cleared(h2, p, n, had);
        let h3 = publish::slots_cleared(h2, p, n, had);
        tables::lemma_then(h, h2, h3);
        let t = lists::with_size(h3.mem[p], n);
        lemma_list_stays(h, h3, p);
        lemma_changed(h3, p, t);
        let h4 = lists::changed(h3, p, t);
        tables::lemma_then(h, h3, h4);
        lemma_recorded(h4, p, mirror::objs_digest(items));
        tables::lemma_then(h, h4, publish::recorded(h4, p, mirror::objs_digest(items)));
    }
}

/// Publishing a list keeps what the tables say.
pub proof fn lemma_synced(h: HeapV, p: usize)
    requires
        tables_hold(h),
    ensures
        goes(h, publish::synced(h, p)),
{
    tables::lemma_same(h);
    if mirror::list_at(h, p) && h.mem[p].list_synced {
        reveal(reading::caught_up);
        let h1 = reading::caught_up(h, p);
        steady::lemma_reconciled(h, p, reading::reach(h));
        crate::keeping::lemma_reconciled_keeps(h, p, reading::reach(h));
        match reading::live_cell(h1, h1.mem[p]) {
            None => {},
            Some(id) => {
                steady::lemma_type_stays(h, h1, p);
                lemma_written(h1, p, h1.cells[id]);
                tables::lemma_then(h, h1, publish::written(h1, p, h1.cells[id]));
            },
        }
    }
}

/// Publishing the lists that are due keeps what the tables say.
pub proof fn lemma_published(h: HeapV, done: Seq<usize>)
    requires
        tables_hold(h),
    ensures
        goes(h, publish::published(h, done)),
    decreases usize::MAX - done.len(), h.due.len(),
{
    tables::lemma_same(h);
    if h.due.len() > 0 && done.len() < usize::MAX {
        let p = h.due[0];
        let h1 = HeapV { due: h.due.remove(0), ..h };
        tables::lemma_touch(h, h1);
        if done.contains(p) {
            lemma_published(h1, done);
            tables::lemma_then(h, h1, publish::published(h1, done));
        } else {
            lemma_synced(h1, p);
            let h2 = publish::synced(h1, p);
            tables::lemma_then(h, h1, h2);
            lemma_published(h2, done.push(p));
            tables::lemma_then(h, h2, publish::published(h2, done.push(p)));
        }
    }
}

// ---------------------------------------------------------------------------
// The operations keep the tables
// ---------------------------------------------------------------------------

pub proof fn lemma_all_made(h: HeapV, g: HeapV)
    requires
        tables_ok(h),
        goes(h, g),
    ensures
        tables_ok(g),
{
    reveal(tables::settles);
}

/// A VM object crosses: what the tables say still holds.
pub proof fn law_crossing_keeps_the_tables(h: HeapV, n: NatV)
    requires
        tables_ok(h),
    ensures
        tables_ok(outward::out(h, n).0),
        tables_ok(publish::handed(outward::out(h, n)).0),
        moves(h, publish::handed(outward::out(h, n)).0),
{
    passage::lemma_out(h, n);
    let m = outward::out(h, n).0;
    lemma_all_made(h, m);
    lemma_published(m, Seq::empty());
    let g = publish::published(m, Seq::empty());
    tables::lemma_then(h, m, g);
    lemma_all_made(h, g);
}

/// A C object is read: what the tables say still holds.
pub proof fn law_reading_keeps_the_tables(h: HeapV, p: usize)
    requires
        tables_ok(h),
    ensures
        tables_ok(reading::object_at(h, p).0),
        tables_ok(reading::tidied(reading::object_at(h, p).0)),
        moves(h, reading::tidied(reading::object_at(h, p).0)),
        h.mem.contains_key(p) ==> tables_ok(reading::native_at(h, p).0),
{
    reveal(reading::object_at);
    reveal(reading::native_at);
    let f = reading::reach(h);
    steady::lemma_resolve(h, p, f);
    let g = reading::resolve(h, p, f).0;
    lemma_all_made(h, g);
    lemma_released(g, Seq::empty());
    tables::lemma_then(h, g, reading::tidied(g));
    lemma_all_made(h, reading::tidied(g));
    if h.mem.contains_key(p) {
        steady::lemma_native(h, p, f);
        lemma_all_made(h, reading::native_v(h, p, f).0);
    }
}

/// References are taken and given back: what the tables say still holds.
pub proof fn law_counting_keeps_the_tables(h: HeapV, p: usize, ps: Seq<usize>)
    requires
        tables_ok(h),
    ensures
        tables_ok(heap::increfed(h, p)),
        tables_ok(freeing::released(h, ps)),
        tables_ok(freeing::dropped(h, p).0),
        moves(h, heap::increfed(h, p)),
        moves(h, freeing::released(h, ps)),
        moves(h, freeing::dropped(h, p).0),
{
    tables::lemma_increfed(h, p);
    lemma_all_made(h, heap::increfed(h, p));
    lemma_released(h, ps);
    lemma_all_made(h, freeing::released(h, ps));
    steady::lemma_dropped(h, p);
    lemma_all_made(h, freeing::dropped(h, p).0);
}

/// A list is published: what the tables say still holds.
pub proof fn law_publishing_keeps_the_tables(h: HeapV, p: usize)
    requires
        tables_ok(h),
    ensures
        tables_ok(publish::synced(h, p)),
        tables_ok(publish::published(publish::synced(h, p), Seq::empty())),
        moves(h, publish::published(publish::synced(h, p), Seq::empty())),
{
    lemma_synced(h, p);
    let g = publish::synced(h, p);
    lemma_all_made(h, g);
    lemma_published(g, Seq::empty());
    lemma_all_made(g, publish::published(g, Seq::empty()));
    tables::lemma_then(h, g, publish::published(g, Seq::empty()));
}

/// A heap without objects is one whose tables hold.
pub proof fn law_new_heap(h: HeapV)
    requires
        tables::kinds_apart(h.facts),
        h.heads == Map::<usize, crate::object::PyObject>::empty(),
        h.mem == Map::<usize, StoreV>::empty(),
        h.minted == Set::<usize>::empty(),
        h.raw_longs == Set::<usize>::empty(),
        h.lists == Map::<usize, usize>::empty(),
        h.sets == Map::<usize, usize>::empty(),
        h.bytearrays == Map::<usize, usize>::empty(),
        h.builtins == Map::<usize, usize>::empty(),
        h.c_body == Map::<usize, usize>::empty(),
        h.pins.len() == 0,
        h.interned.len() == 0,
        forall|q: usize| q >= h.next ==> #[trigger] flat::ordinary(h, q),
    ensures
        tables_ok(h),
{
    reveal(tables_hold);
    assert forall|q: usize| q >= h.next implies #[trigger] tables::unused(h, q) by {
        assert(flat::ordinary(h, q));
    }
}

// ---------------------------------------------------------------------------
// What comes back
// ---------------------------------------------------------------------------

/// Reading an object that the tables can speak of gives what it stands for.
proof fn lemma_reads(h: HeapV, p: usize, fuel: nat)
    requires
        tables_hold(h),
        tables::fits(h, p),
    ensures
        ({
            let o = h.mem[p].obj;
            let (g, v) = reading::resolve(h, p, fuel);
            match o.val {
                ObjV::List(_) => v.val is List && v.id == o.id && (g.cells.contains_key(o.id)
                    ==> v.val == ObjV::List(g.cells[o.id])),
                ObjV::Tuple(_) => tables::intact(h.mem[p]) ==> (g, v) == (h, o)
                    && reading::native_v(h, p, fuel) == (h, o),
                ObjV::Instance(_) => (g, v) == (h, o),
                ObjV::Dict(_) => g == h && v.val is Dict && v.id == o.id && (
                g.cells.contains_key(o.id) ==> v.val == ObjV::Dict(g.cells[o.id])),
                _ => (g, v) == (h, o) && reading::native_v(h, p, fuel) == (h, o),
            }
        }),
{
    assert(tables::kinds_apart(h.facts)) by {
        reveal(tables_hold);
    }
    match h.mem[p].obj.val {
        ObjV::List(_) => {
            steady::lemma_native(h, p, fuel);
            crate::keeping::lemma_native_keeps(h, p, fuel);
            holding::lemma_obj_stays(h, reading::native_v(h, p, fuel).0, p);
        },
        _ => {},
    }
}

/// Objects of the VM that have one address are one object. Where it cannot change,
/// it has one value.
pub open spec fn one_value(h: HeapV, n: NatV) -> bool {
    forall|q: usize| #[trigger]
        tables::fits(h, q) && pins::pin_key(n) is Some && pins::pin_key(h.mem[q].obj)
            == pins::pin_key(n) ==> h.mem[q].obj.val == n.val
}

/// What an object stands for is this VM object. What can change of it may differ.
pub open spec fn stands(o: NatV, n: NatV) -> bool {
    match n.val {
        ObjV::Int(_) | ObjV::Float(_) | ObjV::Long(_, _) | ObjV::Complex(_, _) | ObjV::Str(_)
        | ObjV::Bytes(_) => o.val == n.val,
        ObjV::Tuple(_) => o.val is Tuple,
        ObjV::List(_) => o.val is List && o.id == n.id,
        ObjV::Dict(_) => o.val is Dict && o.id == n.id,
        ObjV::ByteArray(_) => o.val is ByteArray && o.id == n.id,
        ObjV::PySet(_) | ObjV::FrozenSet(_) => (o.val is PySet || o.val is FrozenSet) && o.id
            == n.id,
        ObjV::Builtin => o.val is Builtin && o.id == n.id,
        ObjV::Instance(_) => o.val is Instance && o.id == n.id,
        _ => o == n,
    }
}

/// An object that is known already stands for the VM object that crosses.
proof fn lemma_known(h: HeapV, n: NatV, p: usize)
    requires
        tables_ok(h),
        one_value(h, n),
        mirror::obj_faithful(n.val),
        !(n.val is Bool),
        crossing::known(h, n, crossing::type_for(h, n)) == Some(p),
    ensures
        tables::fits(h, p),
        stands(h.mem[p].obj, n),
{
    reveal(crossing::known);
    reveal(tables_hold);
    let ty = crossing::type_for(h, n);
    match crossing::lane(h, n, ty) {
        Lane::OneSet => {
            assert(tables::set_ok(h, n.id, h.sets[n.id]));
        },
        Lane::OneList => {
            assert(tables::list_ok(h, n.id, h.lists[n.id]));
        },
        Lane::OneByteArray => {
            assert(tables::bytearray_ok(h, n.id, h.bytearrays[n.id]));
        },
        Lane::OneBuiltin => {
            assert(tables::builtin_ok(h, n.id, h.builtins[n.id]));
        },
        Lane::Interned => {
            match n.val {
                ObjV::Str(s) => {
                    passage::lemma_text_found(h.interned, s);
                    let i = choose|i: int| 0 <= i < h.interned.len() && h.interned[i] == (s, p);
                    assert(tables::text_ok(h, h.interned[i]));
                },
                _ => {},
            }
        },
        Lane::Pinned(key) => {
            holding::lemma_pin_found(h.pins, key);
            holding::lemma_pins_apart(h);
            assert(tables::pin_ok(h, (key, p)));
        },
        _ => {},
    }
}

/// A new tuple is intact.
proof fn lemma_new_tuple(h: HeapV, n: NatV, ty: usize)
    requires
        n.val is Tuple,
        crossing::can_open(h, n.val),
    ensures
        tables::intact(outward::fresh_out(h, n, ty, false).0.mem[h.next]),
{
    trips::law_new_mirror(h, n, ty, false);
    let (g, p) = outward::fresh_out(h, n, ty, false);
    let (h1, place) = crossing::opened(h, n, ty, false);
    let (h2, kids) = outward::kids_out(h1, n.val);
    match n.val {
        ObjV::Tuple(items) => {
            trips::lemma_outs_len(h1, items);
            fields::law_tuple_body(g.mem[p], items, crossing::env_at(h2, n, place), kids);
        },
        _ => {},
    }
}

/// An object that crosses stands for the VM object.
proof fn lemma_lands(h: HeapV, n: NatV)
    requires
        tables_ok(h),
        one_value(h, n),
        mirror::obj_faithful(n.val),
        !(n.val is Bool),
    ensures
        ({
            let ty = crossing::type_for(h, n);
            let (g, p) = outward::mirrored(h, n, ty);
            p != 0 ==> {
                &&& tables::fits(g, p)
                &&& stands(g.mem[p].obj, n)
                &&& layout::kids_of(n.val).len() == 0 && !(n.val is List) ==> g.due == h.due
                &&& n.val is Tuple && (crossing::known(h, n, ty) is Some ==> h.mem[p].obj == n
                    && tables::intact(h.mem[p])) ==> g.mem[p].obj == n && tables::intact(g.mem[p])
            }
        }),
{
    let ty = crossing::type_for(h, n);
    let (g, p) = outward::mirrored(h, n, ty);
    passage::lemma_mirrored(h, n);
    match crossing::known(h, n, ty) {
        Some(q) => {
            lemma_known(h, n, q);
            passage::lemma_shared(h, n, q);
            assert(g.mem.contains_key(q)) by {
                reveal(crossing::shared);
            }
            holding::lemma_obj_stays(h, g, q);
        },
        None => {
            passage::lemma_suits(h, n);
            let one = crossing::lane(h, n, ty) is OneList;
            assert(one ==> n.val is List && !h.lists.contains_key(n.id)) by {
                reveal(crossing::known);
            }
            passage::lemma_fresh(h, n, ty, one);
            let (h1, q) = outward::fresh_out(h, n, ty, one);
            if q != 0 {
                assert(crossing::can_open(h, n.val));
                assert(h1.facts == h.facts && h1.intern_depth == h.intern_depth && h1.arg_depth
                    == h.arg_depth) by {
                    reveal(moves);
                }
                assert(n.val is Str ==> pins::interned_at(h1.interned, n.val->Str_0) is None
                    || crossing::lane(h1, n, ty) != Lane::Interned) by {
                    reveal(crossing::known);
                }
                passage::lemma_kept(h1, n, q);
                holding::lemma_obj_stays(h1, g, q);
                if n.val is Tuple {
                    lemma_new_tuple(h, n, ty);
                    passage::lemma_opened(h, n, ty, false);
                }
            }
        },
    }
}

/// A number, a text or bytes come back as they were, at every crossing: the first
/// one, one of a text that is interned, and one as an argument, whether or not a
/// pin knows the object and whether or not pins are swept. Reading changes nothing,
/// so that it gives the same value again and no reference count changes.
pub proof fn law_value_comes_back(h: HeapV, n: NatV)
    requires
        tables_ok(h),
        one_value(h, n),
        h.due.len() == 0,
        match n.val {
            ObjV::Int(_)
            | ObjV::Float(_)
            | ObjV::Long(_, _)
            | ObjV::Complex(_, _)
            | ObjV::Str(_)
            | ObjV::Bytes(_) => true,
            _ => false,
        },
    ensures
        ({
            let (g, p) = publish::handed(outward::mirrored(h, n, crossing::type_for(h, n)));
            p != 0 ==> {
                &&& reading::native_at(g, p).0 == g
                &&& reading::native_at(g, p).1.val == n.val
                &&& reading::object_at(g, p) == reading::native_at(g, p)
                &&& tables_ok(g)
            }
        }),
        outward::out(h, n) == outward::mirrored(h, n, crossing::type_for(h, n)),
{
    lemma_lands(h, n);
    let (g, p) = outward::mirrored(h, n, crossing::type_for(h, n));
    passage::lemma_mirrored(h, n);
    lemma_all_made(h, g);
    if p != 0 {
        assert(publish::published(g, Seq::empty()) == g);
        reveal(reading::native_at);
        reveal(reading::object_at);
        lemma_reads(g, p, reading::reach(g));
    }
}

/// A tuple comes back as it was, at every crossing. Where a pin knows it already,
/// C code has not written into its slots, and nothing is to be published.
pub proof fn law_any_tuple_comes_back(h: HeapV, n: NatV)
    requires
        tables_ok(h),
        one_value(h, n),
        n.val is Tuple,
        ({
            let (g, p) = outward::out(h, n);
            crossing::known(h, n, crossing::type_for(h, n)) is Some ==> h.mem[p].obj == n
                && tables::intact(h.mem[p])
        }),
    ensures
        ({
            let (g, p) = outward::out(h, n);
            p != 0 ==> {
                &&& reading::native_at(g, p) == (g, n)
                &&& reading::object_at(g, p) == (g, n)
                &&& g.due.len() == 0 ==> publish::handed((g, p)) == (g, p)
                &&& tables_ok(g)
            }
        }),
{
    lemma_lands(h, n);
    let (g, p) = outward::out(h, n);
    passage::lemma_mirrored(h, n);
    lemma_all_made(h, g);
    if p != 0 {
        reveal(reading::native_at);
        reveal(reading::object_at);
        lemma_reads(g, p, reading::reach(g));
    }
}

/// Every mirror comes back, at every crossing, however deep in calls it is and
/// whether or not lists are published and pins swept: as long as the object that it
/// crossed as is there, the object stands for it. What cannot change is as it was,
/// and what can change is the same VM object. A list or a dict holds what the
/// VM has there once it was read.
pub proof fn law_object_comes_back(h: HeapV, n: NatV)
    requires
        tables_ok(h),
        one_value(h, n),
        mirror::obj_faithful(n.val),
        !(n.val is Bool),
    ensures
        ({
            let (m, p) = outward::out(h, n);
            let (g, q) = publish::handed((m, p));
            &&& q == p
            &&& tables_ok(g)
            &&& p != 0 ==> m.mem.contains_key(p) && m.minted.contains(p)
            &&& p != 0 && g.mem.contains_key(p) && (n.val is Tuple ==> tables::intact(g.mem[p]))
                ==> stands(reading::object_at(g, p).1, n)
            &&& p != 0 && g.mem.contains_key(p) && n.val is List ==> ({
                let (e, v) = reading::object_at(g, p);
                e.cells.contains_key(n.id) ==> v.val == ObjV::List(e.cells[n.id])
            })
            &&& p != 0 && g.mem.contains_key(p) && n.val is Dict ==> ({
                let (e, v) = reading::object_at(g, p);
                e.cells.contains_key(n.id) ==> v.val == ObjV::Dict(e.cells[n.id])
            })
        }),
{
    let (m, p) = outward::out(h, n);
    lemma_lands(h, n);
    law_crossing_keeps_the_tables(h, n);
    passage::lemma_out(h, n);
    let g = publish::published(m, Seq::empty());
    lemma_published(m, Seq::empty());
    if p != 0 && g.mem.contains_key(p) {
        holding::lemma_obj_stays(m, g, p);
        reveal(reading::object_at);
        lemma_reads(g, p, reading::reach(g));
    }
}

/// The values that there is only one of come back from every crossing.
pub proof fn law_single_comes_back(h: HeapV, n: NatV)
    requires
        h.facts.singles.wf(),
        n.id == 0,
        n.val is PyNone || n.val is Ellipsis || n.val is NotImplemented || n.val is Bool,
    ensures
        ({
            let (g, p) = outward::out(h, n);
            g == h && reading::object_at(g, p) == (h, n)
        }),
{
    reveal(reading::object_at);
    reveal(crossing::known);
    reveal(crossing::shared);
}

/// An instance of a type whose objects have no bodies comes back, as long as the object that it crossed as is there.
pub proof fn law_instance_comes_back(h: HeapV, n: NatV)
    requires
        tables_ok(h),
        n.val is Instance,
        n.val->Instance_0.body == 0,
        !mirror::mirror_type(h.facts, crossing::type_for(h, n)),
    ensures
        ({
            let (m, p) = outward::out(h, n);
            let (g, q) = publish::handed((m, p));
            &&& q == p
            &&& tables_ok(g)
            &&& p != 0 && g.mem.contains_key(p) ==> stands(reading::object_at(g, p).1, n)
        }),
{
    let i = n.val->Instance_0;
    let (m, p) = outward::out(h, n);
    law_crossing_keeps_the_tables(h, n);
    passage::lemma_out(h, n);
    let g = publish::published(m, Seq::empty());
    lemma_published(m, Seq::empty());
    tables::lemma_then(h, m, g);
    if p != 0 && g.mem.contains_key(p) {
        match crossing::entry(h.c_body, n.id) {
            Some(q) => {
                assert(tables::body_ok(h, n.id, q)) by {
                    reveal(tables_hold);
                }
                holding::lemma_obj_stays(h, g, p);
            },
            None => {
                passage::lemma_new_instance(h, n, crossing::type_for(h, n), i);
                let h1 = crossing::boxed(h, n, crossing::type_for(h, n), 1).0;
                let h2 = HeapV { c_body: h1.c_body.insert(n.id, p), ..h1 };
                tables::lemma_then(h2, m, g);
                holding::lemma_obj_stays(h2, g, p);
            },
        }
        reveal(reading::object_at);
        lemma_reads(g, p, reading::reach(g));
    }
}

// ---------------------------------------------------------------------------
// Interned texts
// ---------------------------------------------------------------------------

/// A text that crosses where texts are interned is in the table.
proof fn lemma_text_lands(h: HeapV, n: NatV)
    requires
        tables_ok(h),
        n.val is Str,
        h.intern_depth > 0,
    ensures
        ({
            let (g, p) = outward::out(h, n);
            p != 0 ==> g.interned.contains((n.val->Str_0, p)) && tables_ok(g)
        }),
{
    let ty = crossing::type_for(h, n);
    let s = n.val->Str_0;
    passage::lemma_mirrored(h, n);
    let (g, p) = outward::out(h, n);
    lemma_all_made(h, g);
    passage::lemma_text_found(h.interned, s);
    match crossing::known(h, n, ty) {
        Some(q) => {
            reveal(crossing::known);
            reveal(crossing::shared);
        },
        None => {
            passage::lemma_fresh(h, n, ty, false);
            let (h1, q) = outward::fresh_out(h, n, ty, false);
            if q != 0 {
                assert(crossing::can_open(h, n.val));
                assert(h1.facts == h.facts && h1.intern_depth == h.intern_depth && h1.arg_depth
                    == h.arg_depth) by {
                    reveal(moves);
                }
                assert(pins::interned_at(h1.interned, s) is None) by {
                    reveal(crossing::known);
                }
                passage::lemma_kept(h1, n, q);
                passage::lemma_text_found(g.interned, s);
            }
        },
    }
}

/// Where texts are interned, two texts cross as one object if and only if they are
/// equal, whatever happened between the two crossings.
pub proof fn law_texts_share_an_object(h: HeapV, a: NatV, later: HeapV, b: NatV)
    requires
        tables_ok(h),
        h.intern_depth > 0,
        a.val is Str,
        b.val is Str,
        tables_ok(later),
        moves(outward::out(h, a).0, later),
    ensures
        ({
            let p = outward::out(h, a).1;
            let q = outward::out(later, b).1;
            p != 0 && q != 0 ==> (p == q <==> a.val == b.val)
        }),
        outward::out(h, a).1 != 0 && a.val == b.val ==> outward::out(later, b).1 == outward::out(
            h,
            a,
        ).1,
        outward::out(h, a) == outward::mirrored(h, a, crossing::type_for(h, a)),
        outward::out(later, b) == outward::mirrored(later, b, crossing::type_for(later, b)),
{
    let (g, p) = outward::out(h, a);
    let (k, q) = outward::out(later, b);
    let s = a.val->Str_0;
    let t = b.val->Str_0;
    passage::lemma_mirrored(h, a);
    passage::lemma_mirrored(later, b);
    assert(later.intern_depth == h.intern_depth) by {
        reveal(moves);
    }
    lemma_text_lands(h, a);
    lemma_text_lands(later, b);
    if p != 0 {
        let i = choose|i: int| 0 <= i < g.interned.len() && g.interned[i] == (s, p);
        assert(i < later.interned.len() && later.interned[i] == (s, p)) by {
            reveal(moves);
        }
        passage::lemma_text_found(later.interned, s);
        if s == t {
            assert(pins::interned_at(later.interned, s) == Some(p)) by {
                reveal(tables_hold);
                match pins::interned_at(later.interned, s) {
                    Some(r) => {
                        let j = choose|j: int|
                            0 <= j < later.interned.len() && later.interned[j] == (s, r);
                        if i < j {
                            assert(later.interned[i].0 != later.interned[j].0);
                        } else if j < i {
                            assert(later.interned[j].0 != later.interned[i].0);
                        }
                    },
                    None => {},
                }
            }
            assert(q == p) by {
                reveal(crossing::known);
            }
        } else if q != 0 {
            assert(i < k.interned.len() && k.interned[i] == (s, p)) by {
                reveal(moves);
            }
            let j = choose|j: int| 0 <= j < k.interned.len() && k.interned[j] == (t, q);
            assert(p != q) by {
                reveal(tables_hold);
                assert(tables::text_ok(k, k.interned[i]));
                assert(tables::text_ok(k, k.interned[j]));
            }
        }
    }
}

} // verus!
