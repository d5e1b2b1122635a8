//! What holds of an object that crossed to C code: it stands for the VM object
//! that it was made from, and it stays the one object for it.

use vstd::prelude::*;
use crate::crossing;
use crate::crossing::Lane;
use crate::fields;
use crate::freeing;
use crate::heap;
use crate::heap::{Work, HeapV, StoreV};
use crate::layout;
use crate::mirror;
use crate::outward;
use crate::pins;
use crate::reading;
use crate::value::{NatV, ObjV};

verus! {

broadcast use vstd::std_specs::hash::group_hash_axioms;

/// The address space has a next address, and it is nobody's yet.
pub open spec fn next_is_free(h: HeapV) -> bool {
    let s = h.facts.singles;
    let p = h.next;
    &&& p != 0
    &&& p != s.none.addr && p != s.tru.addr && p != s.fals.addr
    &&& p != s.not_implemented.addr && p != s.ellipsis.addr
    &&& !h.facts.classes@.contains(p)
    &&& !h.facts.capsules@.contains(p)
    &&& !h.getset_boxes.contains(p)
}

/// The type is a builtin type whose instances are neither lists nor tuples.
pub open spec fn plain_type(h: HeapV, ty: usize) -> bool {
    mirror::faithful(h.facts.types, ty) && !mirror::list_shaped(h.facts, ty)
        && !mirror::tuple_shaped(h.facts, ty)
}

/// The pins have room for one more, and none has this key.
pub open spec fn pin_goes_in(h: HeapV, n: NatV, ty: usize) -> bool {
    match crossing::lane(h, n, ty) {
        Lane::Pinned(key) => pins::pin_at(h.pins, key) is None && !pins::sweep_due(
            h,
            pins::capped(pins::payload(n)),
        ),
        _ => true,
    }
}

/// A mirror that was just made is at the next address. It holds the VM object
/// and the bytes of its body.
pub proof fn law_new_mirror(h: HeapV, n: NatV, ty: usize, one_list: bool)
    requires
        crossing::can_open(h, n.val),
    ensures
        ({
            let (g, p) = outward::fresh_out(h, n, ty, one_list);
            let (h1, place) = crossing::opened(h, n, ty, one_list);
            let (h2, kids) = outward::kids_out(h1, n.val);
            &&& p == h.next
            &&& g.minted.contains(p)
            &&& g.mem.contains_key(p)
            &&& g.mem[p] == crossing::new_store(h2, n, place, kids)
            &&& g.mem[p].obj == n
            &&& g.mem[p].tail == layout::body_tail(
                n.val,
                crossing::env_at(h2, n, place),
                kids,
            )
            &&& g.mem[p].aux == layout::body_aux(n.val, kids)
        }),
{
    reveal(crossing::opened);
    reveal(crossing::filled_in);
}

/// Objects that cross one after the other give one object each.
pub proof fn lemma_outs_len(h: HeapV, s: Seq<NatV>)
    ensures
        outward::outs(h, s).1.len() == s.len(),
    decreases s.len(),
{
    if s.len() > 0 {
        lemma_outs_len(h, s.drop_last());
    }
}

/// A VM object without elements that crosses for the first time gets an object of
/// its type with one reference.
pub proof fn law_first_crossing(h: HeapV, n: NatV, ty: usize)
    requires
        layout::kids_of(n.val).len() == 0,
        !(n.val is Tuple || n.val is List || n.val is Slice || n.val is BoundMethod),
        !(n.val is Builtin),
        crossing::can_open(h, n.val),
    ensures
        ({
            let (g, p) = outward::fresh_out(h, n, ty, false);
            &&& p == h.next
            &&& heap::type_at(g, p) == ty
            &&& heap::refcnt_at(g, p) == 1
        }),
{
    law_new_mirror(h, n, ty, false);
    let (h1, place) = crossing::opened(h, n, ty, false);
    reveal(crossing::opened);
    reveal(crossing::filled_in);
    let kids = Seq::<usize>::empty();
    assert(outward::kids_out(h1, n.val) == (h1, kids));
    assert(heap::all_increfed(h1, crossing::own_refs(h1, n, kids)) == h1);
}

/// A tuple that crossed stands for the tuple that it was made from, for as long
/// as nobody writes into its slots.
pub proof fn law_tuple_comes_back(h: HeapV, n: NatV, ty: usize)
    requires
        n.val is Tuple,
        crossing::can_open(h, n.val),
        mirror::tuple_at(outward::fresh_out(h, n, ty, false).0, h.next),
    ensures
        ({
            let (g, p) = outward::fresh_out(h, n, ty, false);
            reading::native_at(g, p) == (g, n)
        }),
{
    reveal(reading::native_at);
    law_new_mirror(h, n, ty, false);
    let (g, p) = outward::fresh_out(h, n, ty, false);
    let (h1, place) = crossing::opened(h, n, ty, false);
    let (h2, kids) = outward::kids_out(h1, n.val);
    match n.val {
        ObjV::Tuple(items) => {
            lemma_outs_len(h1, items);
            fields::law_tuple_body(g.mem[p], items, crossing::env_at(h2, n, place), kids);
            if items.len() == 0 {
                assert(kids.len() == 0);
            }
        },
        _ => {},
    }
    assert(reading::native_v(g, p, reading::reach(g)) == (g, n));
}

/// The slots of a list that crossed hold the objects that its elements crossed
/// as, and the list stands for what those objects stand for. From then on both
/// sides share it.
pub proof fn law_list_comes_back(h: HeapV, n: NatV, ty: usize, one_list: bool)
    requires
        n.val is List,
        crossing::can_open(h, n.val),
        h.next != 0,
        mirror::list_at(outward::fresh_out(h, n, ty, one_list).0, h.next),
        !mirror::tuple_at(outward::fresh_out(h, n, ty, one_list).0, h.next),
    ensures
        ({
            let (g, p) = outward::fresh_out(h, n, ty, one_list);
            let kids = outward::kids_out(crossing::opened(h, n, ty, one_list).0, n.val).1;
            let g1 = heap::with_store(g, p, StoreV { list_synced: true, ..g.mem[p] });
            let (g2, vals) = reading::objects_at(g1, kids);
            &&& mirror::list_ptrs_of(g.mem[p]) == kids
            &&& g.cells[n.id] == n.val->List_0
            &&& g2.mem[p].obj == n ==> {
                &&& reading::native_at(g, p).1 == (NatV { id: n.id, val: ObjV::List(vals) })
                &&& reading::native_at(g, p).0.cells[n.id] == vals
                &&& reading::native_at(g, p).0.seeded.contains_key(p)
            }
        }),
{
    reveal(reading::native_at);
    reveal(reading::objects_at);
    reveal(crossing::opened);
    reveal(crossing::filled_in);
    law_new_mirror(h, n, ty, one_list);
    let (g, p) = outward::fresh_out(h, n, ty, one_list);
    let g1 = heap::with_store(g, p, StoreV { list_synced: true, ..g.mem[p] });
    assert(g1.mem.dom() =~= g.mem.dom());
    let (h1, place) = crossing::opened(h, n, ty, one_list);
    let (h2, kids) = outward::kids_out(h1, n.val);
    match n.val {
        ObjV::List(items) => {
            lemma_outs_len(h1, items);
            fields::law_list_body(
                StoreV { list_mint: None, ..g.mem[p] },
                items,
                crossing::env_at(h2, n, place),
                kids,
            );
            assert(mirror::list_ptrs_of(g.mem[p]) == kids);
        },
        _ => {},
    }
}

/// A set, a byte array and a builtin are the one object for their VM object: the
/// next crossing gives the same address.
pub proof fn law_one_object_for_one_cell(h: HeapV, n: NatV, ty: usize)
    requires
        crossing::lane(h, n, ty) is OneSet || crossing::lane(h, n, ty) is OneByteArray
            || crossing::lane(h, n, ty) is OneBuiltin,
        crossing::can_open(h, n.val),
        h.next != 0,
    ensures
        ({
            let (g, p) = outward::mirrored(h, n, ty);
            &&& crossing::known(g, n, ty) == Some(p)
            &&& outward::mirrored(g, n, ty).1 == p
        }),
{
    reveal(crossing::known);
    reveal(crossing::shared);
    reveal(crossing::kept);
    reveal(crossing::opened);
    reveal(crossing::filled_in);
    law_new_mirror(h, n, ty, false);
    let (h1, place) = crossing::opened(h, n, ty, false);
    let refs = crossing::own_refs(h1, n, Seq::empty());
    if n.val is Builtin {
        assert(refs.drop_last() =~= Seq::<usize>::empty());
        assert(heap::all_increfed(h1, refs.drop_last()) == h1);
    }
}

/// An interned text is the one object for its characters, whatever cell it is in.
pub proof fn law_one_object_for_one_text(h: HeapV, n: NatV, m: NatV, ty: usize)
    requires
        crossing::lane(h, n, ty) is Interned,
        crossing::can_open(h, n.val),
        crossing::known(h, n, ty) is None,
        n.val == m.val,
        h.next != 0,
    ensures
        ({
            let (g, p) = outward::mirrored(h, n, ty);
            crossing::known(g, m, ty) == Some(p)
        }),
{
    reveal(crossing::known);
    reveal(crossing::kept);
    reveal(crossing::opened);
    reveal(crossing::filled_in);
    law_new_mirror(h, n, ty, false);
    let (g0, p) = outward::fresh_out(h, n, ty, false);
    match n.val {
        ObjV::Str(s) => {
            assert(g0.interned == h.interned);
            assert(g0.interned.push((s, p)).last() == (s, p));
        },
        _ => {},
    }
}

/// A scalar that crosses as an argument, and bytes at any time, are pinned: the
/// next crossing gives the same address, also after C code gave its reference
/// back.
pub proof fn law_pinned_object_stays(h: HeapV, n: NatV, ty: usize)
    requires
        crossing::lane(h, n, ty) is Pinned,
        !(n.val is Tuple),
        crossing::known(h, n, ty) is None,
        crossing::can_open(h, n.val),
        pin_goes_in(h, n, ty),
        mirror::mirror_type(h.facts, ty),
        h.next != 0,
        h.mem.dom().finite(),
        h.pending.len() == 0,
    ensures
        ({
            let (g, p) = outward::mirrored(h, n, ty);
            let after = freeing::released(g, seq![p]);
            &&& heap::refcnt_at(g, p) == 1
            &&& crossing::known(g, n, ty) == Some(p)
            &&& heap::refcnt_at(after, p) == 0
            &&& crossing::known(after, n, ty) == Some(p)
            &&& after.mem[p] == g.mem[p]
        }),
{
    reveal(crossing::known);
    reveal(crossing::kept);
    reveal(crossing::opened);
    reveal(crossing::filled_in);
    reveal(pins::pinned);
    law_new_mirror(h, n, ty, false);
    let (h1, place) = crossing::opened(h, n, ty, false);
    let (g0, p) = outward::fresh_out(h, n, ty, false);
    assert(crossing::lane(g0, n, ty) == crossing::lane(h, n, ty));
    let (g, q) = outward::mirrored(h, n, ty);
    match crossing::lane(h, n, ty) {
        Lane::Pinned(key) => {
            pins::lemma_pin_goes_in(h.pins, key, p);
            assert(g.pins == h.pins.push((key, p)));
        },
        _ => {},
    }
    freeing::lemma_release_one(g, p);
    let (g1, last) = freeing::decrefed(g, p);
    let (g2, more) = freeing::dropped(g1, p);
    assert(more.reverse() =~= Seq::<Work>::empty());
    assert(freeing::worked(g2, Seq::empty()) == g2);
}

} // verus!
