//! Changes to lists, calls and sweeps keep what the tables say.

use vstd::prelude::*;
use crate::bytes;
use crate::calls;
use crate::crossing;
use crate::freeing;
use crate::heap;
use crate::heap::{HeapV, ListSync, StoreV};
use crate::holding;
use crate::homeward;
use crate::keeping;
use crate::lists;
use crate::mirror;
use crate::module::CallShape;
use crate::passage;
use crate::pins;
use crate::publish;
use crate::reading;
use crate::steady;
use crate::tables;
use crate::tables::{goes, moves, stays, tables_hold, tables_ok};
use crate::value::{NatV, ObjV};

verus! {

broadcast use vstd::std_specs::hash::group_hash_axioms;

// ---------------------------------------------------------------------------
// Lists
// ---------------------------------------------------------------------------

proof fn lemma_objects(h: HeapV, ps: Seq<usize>)
    requires
        tables_hold(h),
    ensures
        stays(h, reading::objects_at(h, ps).0),
        reading::same_objects(h, reading::objects_at(h, ps).0),
{
    reveal(reading::objects_at);
    steady::lemma_read(h, ps, reading::reach(h));
    keeping::lemma_read_keeps(h, ps, reading::reach(h));
}

proof fn lemma_object(h: HeapV, p: usize)
    requires
        tables_hold(h),
    ensures
        stays(h, reading::object_at(h, p).0),
        reading::same_objects(h, reading::object_at(h, p).0),
{
    reveal(reading::object_at);
    steady::lemma_resolve(h, p, reading::reach(h));
    keeping::lemma_resolve_keeps(h, p, reading::reach(h));
}

proof fn lemma_list_store(h: HeapV, p: usize, s: StoreV)
    requires
        tables_hold(h),
        mirror::list_at(h, p),
        s == (StoreV {
            tail: s.tail,
            aux: s.aux,
            list_synced: s.list_synced,
            list_mint: s.list_mint,
            ..h.mem[p]
        }),
    ensures
        stays(h, heap::with_store(h, p, s)),
        mirror::list_at(heap::with_store(h, p, s), p),
{
    if tables::fits(h, p) {
        steady::lemma_shape(h, p);
    }
    tables::lemma_store(h, p, s);
}

proof fn lemma_settled(h: HeapV, p: usize)
    requires
        tables_hold(h),
        mirror::list_at(h, p),
    ensures
        stays(h, lists::settled(h, p)),
        mirror::list_at(lists::settled(h, p), p),
{
    reveal(lists::settled);
    reveal(lists::seeded_once);
    tables::lemma_same(h);
    let g = lists::seeded_once(h, p);
    if !h.mem[p].list_synced {
        match reading::live_cell(h, h.mem[p]) {
            None => {},
            Some(id) => {
                let ps = mirror::list_ptrs_of(h.mem[p]);
                lemma_objects(h, ps);
                let (h1, vals) = reading::objects_at(h, ps);
                steady::lemma_type_stays(h, h1, p);
                let h2 = reading::with_cell(h1, id, vals);
                tables::lemma_touch(h1, h2);
                tables::lemma_then(h, h1, h2);
                let s = StoreV { list_synced: true, ..h2.mem[p] };
                lemma_list_store(h2, p, s);
                let h3 = heap::with_store(h2, p, s);
                tables::lemma_then(h, h2, h3);
                tables::lemma_touch(h3, g);
                tables::lemma_then(h, h3, g);
            },
        }
    }
    reveal(reading::caught_up);
    let f = reading::reach(g);
    steady::lemma_reconciled(g, p, f);
    keeping::lemma_reconciled_keeps(g, p, f);
    let e = reading::reconciled(g, p, f);
    steady::lemma_type_stays(g, e, p);
    tables::lemma_then(h, g, e);
}

proof fn lemma_agreed(h: HeapV, p: usize)
    requires
        tables_hold(h),
        mirror::list_at(h, p),
    ensures
        stays(h, lists::agreed(h, p)),
{
    reveal(lists::agreed);
    tables::lemma_same(h);
    let s = h.mem[p];
    let c = mirror::ptrs_digest(s);
    let fp = match reading::live_cell(h, s) {
        Some(id) => Some(mirror::objs_digest(h.cells[id])),
        None => None,
    };
    let h1 = if h.seeded.contains_key(p) {
        HeapV {
            seeded: h.seeded.insert(
                p,
                ListSync {
                    rc_fp: if fp is Some {
                        fp
                    } else {
                        h.seeded[p].rc_fp
                    },
                    c_ptrs: c,
                },
            ),
            ..h
        }
    } else {
        h
    };
    tables::lemma_touch(h, h1);
    if s.list_mint is Some && fp is Some {
        let t = StoreV { list_mint: Some((c, fp->0)), ..s };
        lemma_list_store(h1, p, t);
        tables::lemma_then(h, h1, heap::with_store(h1, p, t));
    }
}

/// A list still is a list after the VM list behind it changed.
proof fn lemma_vm_changed(h: HeapV, g: HeapV, p: usize, item: usize)
    requires
        tables_hold(h),
        mirror::list_at(h, p),
        g == h || g == (HeapV { cells: g.cells, ..reading::object_at(h, item).0 }),
    ensures
        stays(h, g),
        mirror::list_at(g, p),
{
    tables::lemma_same(h);
    lemma_object(h, item);
    let h1 = reading::object_at(h, item).0;
    steady::lemma_type_stays(h, h1, p);
    if g != h {
        tables::lemma_touch(h1, g);
        tables::lemma_then(h, h1, g);
    }
}

/// C code changes a list through the API: what the tables say still holds.
pub proof fn law_list_changes_keep_the_tables(h: HeapV, p: usize, pos: i64, item: usize, ps: Seq<usize>)
    requires
        tables_ok(h),
        mirror::list_at(h, p),
    ensures
        tables_ok(lists::appended(h, p, item).0),
        tables_ok(lists::inserted(h, p, pos, item).0),
        tables_ok(lists::stored(h, p, pos, item).0),
        tables_ok(lists::permuted(h, p, ps)),
{
    lemma_grown(h, p, pos, item);
    lemma_replaced(h, p, pos, item);
    lemma_permuted(h, p, ps);
    homeward::lemma_all_made(h, lists::appended(h, p, item).0);
    homeward::lemma_all_made(h, lists::inserted(h, p, pos, item).0);
    homeward::lemma_all_made(h, lists::stored(h, p, pos, item).0);
    homeward::lemma_all_made(h, lists::permuted(h, p, ps));
}

proof fn lemma_grown(h: HeapV, p: usize, pos: i64, item: usize)
    requires
        tables_hold(h),
        mirror::list_at(h, p),
    ensures
        goes(h, lists::appended(h, p, item).0),
        goes(h, lists::inserted(h, p, pos, item).0),
{
    lemma_settled(h, p);
    let h1 = lists::settled(h, p);
    let n = mirror::var_size(h1.mem[p].tail) as nat;
    homeward::lemma_reserved(h1, p, n + 1);
    let h2 = lists::reserved(h1, p, n + 1);
    tables::lemma_then(h, h1, h2);
    assert(h2.mem.contains_key(p)) by {
        reveal(lists::reserved);
    }
    steady::lemma_type_stays(h1, h2, p);
    if lists::roomy(h2.mem[p], n + 1) {
        tables::lemma_increfed(h2, item);
        let h3 = heap::increfed(h2, item);
        tables::lemma_then(h, h2, h3);
        steady::lemma_type_stays(h2, h3, p);
        let s = lists::with_size(lists::with_slot(h3.mem[p], n as int, item), n + 1);
        lemma_list_store(h3, p, s);
        let h4 = heap::with_store(h3, p, s);
        tables::lemma_then(h, h3, h4);
        reveal(lists::vm_pushed);
        let h5 = lists::vm_pushed(h4, p, item);
        assert(h5 == h4 || h5 == (HeapV { cells: h5.cells, ..reading::object_at(h4, item).0 }));
        lemma_vm_changed(h4, h5, p, item);
        tables::lemma_then(h, h4, h5);
        lemma_agreed(h5, p);
        tables::lemma_then(h, h5, lists::agreed(h5, p));
        let at = lists::clamped(pos, n);
        let t = lists::with_size(lists::with_inserted(h3.mem[p], at, n, item), n + 1);
        lemma_list_store(h3, p, t);
        let e4 = heap::with_store(h3, p, t);
        tables::lemma_then(h, h3, e4);
        reveal(lists::vm_inserted);
        let e5 = lists::vm_inserted(e4, p, at, item);
        assert(e5 == e4 || e5 == (HeapV { cells: e5.cells, ..reading::object_at(e4, item).0 }));
        lemma_vm_changed(e4, e5, p, item);
        tables::lemma_then(h, e4, e5);
        lemma_agreed(e5, p);
        tables::lemma_then(h, e5, lists::agreed(e5, p));
    }
}

proof fn lemma_replaced(h: HeapV, p: usize, pos: i64, item: usize)
    requires
        tables_hold(h),
        mirror::list_at(h, p),
    ensures
        goes(h, lists::stored(h, p, pos, item).0),
{
    tables::lemma_same(h);
    if !(pos < 0 || pos as nat >= mirror::list_ptrs_of(h.mem[p]).len()) {
        lemma_settled(h, p);
        let h1 = lists::settled(h, p);
        let prev = lists::slot_of(h1.mem[p], pos as int);
        let s = lists::with_slot(h1.mem[p], pos as int, item);
        lemma_list_store(h1, p, s);
        let h2 = lists::changed(h1, p, s);
        tables::lemma_then(h, h1, h2);
        homeward::lemma_released(h2, seq![prev]);
        tables::lemma_same(h2);
        let h3 = if prev != 0 {
            freeing::released(h2, seq![prev])
        } else {
            h2
        };
        tables::lemma_then(h, h2, h3);
        if h3.mem.contains_key(p) {
            steady::lemma_type_stays(h2, h3, p);
            reveal(lists::vm_stored);
            let h4 = lists::vm_stored(h3, p, pos as nat, item);
            assert(h4 == h3 || h4 == (HeapV { cells: h4.cells, ..reading::object_at(h3, item).0 }));
            lemma_vm_changed(h3, h4, p, item);
            tables::lemma_then(h, h3, h4);
            lemma_agreed(h4, p);
            tables::lemma_then(h, h4, lists::agreed(h4, p));
        }
    }
}

proof fn lemma_permuted(h: HeapV, p: usize, ps: Seq<usize>)
    requires
        tables_hold(h),
        mirror::list_at(h, p),
    ensures
        goes(h, lists::permuted(h, p, ps)),
{
    tables::lemma_same(h);
    let s = h.mem[p];
    if mirror::word_at(s.tail, 24) != 0 {
        let t = StoreV { aux: bytes::put(s.aux, 0, mirror::slot_bytes(ps)), ..s };
        lemma_list_store(h, p, t);
        let h1 = heap::with_store(h, p, t);
        reveal(lists::refilled);
        let g = lists::refilled(h1, p);
        tables::lemma_same(h1);
        match reading::live_cell(h1, h1.mem[p]) {
            None => {},
            Some(id) => {
                let slots = mirror::list_ptrs_of(h1.mem[p]);
                lemma_objects(h1, slots);
                let (h2, vals) = reading::objects_at(h1, slots);
                steady::lemma_type_stays(h1, h2, p);
                let h3 = reading::with_cell(h2, id, vals);
                tables::lemma_touch(h2, h3);
                tables::lemma_then(h1, h2, h3);
                if !h3.mem[p].list_synced {
                    let u = StoreV { list_synced: true, ..h3.mem[p] };
                    lemma_list_store(h3, p, u);
                    let h4 = heap::with_store(h3, p, u);
                    tables::lemma_then(h1, h3, h4);
                    tables::lemma_touch(h4, g);
                    tables::lemma_then(h1, h4, g);
                }
            },
        }
        tables::lemma_then(h, h1, g);
        lemma_agreed(g, p);
        tables::lemma_then(h, g, lists::agreed(g, p));
    }
}

// ---------------------------------------------------------------------------
// Sweeps and calls
// ---------------------------------------------------------------------------

/// Pins that C code no longer refers to are swept: what the tables say still holds.
pub proof fn law_sweeping_keeps_the_tables(h: HeapV)
    requires
        tables_ok(h),
    ensures
        tables_ok(pins::swept(h, pins::dead_pins(h, h.pins))),
        moves(h, pins::swept(h, pins::dead_pins(h, h.pins))),
{
    holding::lemma_dead(h, h.pins);
    holding::lemma_swept(h, pins::dead_pins(h, h.pins));
    homeward::lemma_all_made(h, pins::swept(h, pins::dead_pins(h, h.pins)));
}

/// The tables do not speak of how deep in calls the heap is.
proof fn lemma_depths(h: HeapV, g: HeapV)
    requires
        tables_ok(h),
        g == (HeapV { arg_depth: g.arg_depth, intern_depth: g.intern_depth, ..h }),
    ensures
        tables_ok(g),
{
    assert forall|q: usize| q >= g.next implies #[trigger] tables::unused(g, q) by {
        reveal(tables_hold);
        assert(tables::unused(h, q));
    }
    assert forall|q: usize| #[trigger] g.raw_longs.contains(q) implies !g.mem.contains_key(q) by {
        reveal(tables_hold);
    }
    assert forall|q: usize| #[trigger] tables::fits(h, q) implies tables::fits(g, q)
        && heap::type_at(g, q) == heap::type_at(h, q) by {}
    passage::lemma_carried(h, g);
}

proof fn lemma_handed(h: HeapV, n: NatV)
    requires
        tables_ok(h),
    ensures
        tables_ok(calls::handed_out(h, n).0),
{
    homeward::law_crossing_keeps_the_tables(h, n);
}

proof fn lemma_all_handed(h: HeapV, s: Seq<NatV>)
    requires
        tables_ok(h),
    ensures
        tables_ok(calls::all_handed(h, s).0),
    decreases s.len(),
{
    if s.len() > 0 {
        lemma_all_handed(h, s.drop_last());
        lemma_handed(calls::all_handed(h, s.drop_last()).0, s.last());
    }
}

proof fn lemma_arguments(h: HeapV, s: Seq<NatV>)
    requires
        tables_ok(h),
    ensures
        tables_ok(calls::arguments(h, s).0),
{
    let h1 = HeapV { arg_depth: pins::deeper(h.arg_depth), ..h };
    lemma_depths(h, h1);
    lemma_all_handed(h1, s);
    lemma_depths(calls::all_handed(h1, s).0, calls::arguments(h, s).0);
}

proof fn lemma_touched(h: HeapV)
    requires
        tables_ok(h),
    ensures
        tables_ok(heap::new_cell(h).0),
{
    tables::lemma_touch(h, heap::new_cell(h).0);
    homeward::lemma_all_made(h, heap::new_cell(h).0);
}

proof fn lemma_new_texts(h: HeapV, names: Seq<Seq<char>>)
    requires
        tables_ok(h),
    ensures
        tables_ok(calls::new_texts(h, names).0),
    decreases names.len(),
{
    if names.len() > 0 {
        lemma_new_texts(h, names.drop_last());
        lemma_touched(calls::new_texts(h, names.drop_last()).0);
    }
}

proof fn lemma_keywords(h: HeapV, names: Seq<Seq<char>>, vals: Seq<NatV>)
    requires
        tables_ok(h),
    ensures
        tables_ok(calls::keyword_names(h, names).0),
        tables_ok(calls::keyword_dict(h, names, vals).0),
{
    if names.len() > 0 {
        lemma_new_texts(h, names);
        let (h1, keys) = calls::new_texts(h, names);
        lemma_touched(h1);
        let (h2, id) = heap::new_cell(h1);
        lemma_handed(h2, NatV { id, val: ObjV::Dict(calls::entries(keys, names, vals)) });
        let h3 = HeapV { intern_depth: pins::deeper(h2.intern_depth), ..h2 };
        lemma_depths(h2, h3);
        let n = NatV { id, val: ObjV::Tuple(keys) };
        lemma_handed(h3, n);
        lemma_depths(calls::handed_out(h3, n).0, calls::keyword_names(h, names).0);
    }
}

proof fn lemma_args_out(h: HeapV, n: NatV)
    requires
        tables_ok(h),
        n.val is Tuple,
    ensures
        tables_ok(publish::handed(publish::args_out(h, n)).0),
{
    let h1 = HeapV { arg_depth: pins::deeper(h.arg_depth), ..h };
    lemma_depths(h, h1);
    let ty = crossing::type_for(h, n);
    passage::lemma_fresh(h1, n, ty, false);
    let h2 = crate::outward::fresh_out(h1, n, ty, false).0;
    homeward::lemma_all_made(h1, h2);
    let h3 = publish::args_out(h, n).0;
    lemma_depths(h2, h3);
    homeward::lemma_published(h3, Seq::empty());
    homeward::lemma_all_made(h3, publish::published(h3, Seq::empty()));
}

proof fn lemma_given_back(h: HeapV, ps: Seq<usize>)
    requires
        tables_ok(h),
    ensures
        tables_ok(calls::given_back(h, ps)),
    decreases ps.len(),
{
    if ps.len() > 0 {
        lemma_given_back(h, ps.drop_last());
        let h1 = calls::given_back(h, ps.drop_last());
        homeward::law_counting_keeps_the_tables(h1, 0, seq![ps.last()]);
    }
}

/// A C function is called: what the tables say holds when it starts, and still holds
/// when its arguments were given back and its result was read.
pub proof fn law_calls_keep_the_tables(
    h: HeapV,
    shape: CallShape,
    receiver: Option<NatV>,
    args: Seq<NatV>,
    names: Seq<Seq<char>>,
    later: HeapV,
    f: calls::FrameV,
    result: usize,
)
    requires
        tables_ok(h),
        tables_ok(later),
    ensures
        tables_ok(calls::opened(h, shape, receiver, args, names).0),
        tables_ok(calls::closed(later, shape, f, result).0),
{
    let n = (args.len() - names.len()) as nat;
    let plain = args.take(n as int);
    match receiver {
        Some(o) => {
            lemma_handed(h, o);
        },
        None => {},
    }
    let h1 = calls::receiver_out(h, receiver).0;
    match shape {
        CallShape::NoArgs => {},
        CallShape::One => {
            lemma_arguments(h1, plain);
        },
        CallShape::Method(_) | CallShape::Fastcall(_) => {
            lemma_arguments(h1, args);
            lemma_keywords(calls::arguments(h1, args).0, names, Seq::empty());
        },
        CallShape::Tuple(_) => {
            reveal(calls::tuple_opened);
            lemma_touched(h1);
            let (h2, id) = heap::new_cell(h1);
            let t = NatV { id, val: ObjV::Tuple(plain) };
            lemma_args_out(h2, t);
            lemma_keywords(
                publish::handed(publish::args_out(h2, t)).0,
                names,
                args.skip(n as int),
            );
        },
    }
    let own = calls::owned_by(later, shape, f);
    lemma_given_back(later, own);
    let g = calls::given_back(later, own);
    homeward::law_reading_keeps_the_tables(g, result);
    homeward::law_counting_keeps_the_tables(
        reading::object_at(g, result).0,
        0,
        seq![result],
    );
}

} // verus!
