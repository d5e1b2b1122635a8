//! Lists of scalars: crossing to C code, being read back, and being changed.

use vstd::prelude::*;
use crate::agreement;
use crate::crossing;
use crate::fields;
use crate::growth;
use crate::heap;
use crate::heap::{HeapV, StoreV};
use crate::layout;
use crate::lists;
use crate::mirror;
use crate::outward;
use crate::reading;
use crate::singletons::Singletons;
use crate::trips;
use crate::value::{NatV, ObjV};

verus! {

broadcast use vstd::std_specs::hash::group_hash_axioms;

/// A number, a text or one of the values that there is only one of.
pub open spec fn scalar(n: NatV) -> bool {
    match n.val {
        ObjV::Int(_)
        | ObjV::Float(_)
        | ObjV::Long(_, _)
        | ObjV::Complex(_, _)
        | ObjV::Str(_)
        | ObjV::WStr(_) => true,
        ObjV::PyNone | ObjV::Ellipsis | ObjV::NotImplemented | ObjV::Bool(_) => n.id == 0,
        _ => false,
    }
}

/// The object that there is only one of for a value.
pub open spec fn single_of(s: Singletons, o: ObjV) -> Option<usize> {
    match o {
        ObjV::PyNone => Some(s.none.addr),
        ObjV::Ellipsis => Some(s.ellipsis.addr),
        ObjV::NotImplemented => Some(s.not_implemented.addr),
        ObjV::Bool(b) => Some(
            if b {
                s.tru.addr
            } else {
                s.fals.addr
            },
        ),
        _ => None,
    }
}

/// The address is not one that was given away before there were objects.
pub open spec fn ordinary(h: HeapV, p: usize) -> bool {
    let s = h.facts.singles;
    &&& p != 0
    &&& p != s.none.addr && p != s.tru.addr && p != s.fals.addr
    &&& p != s.not_implemented.addr && p != s.ellipsis.addr
    &&& !h.facts.classes@.contains(p)
    &&& !h.facts.capsules@.contains(p)
    &&& !h.getset_boxes.contains(p)
}

/// The heap is outside any call, its next addresses are free, and the types of
/// scalars are types of their own.
pub open spec fn ready(h: HeapV) -> bool {
    let t = h.facts.types;
    &&& h.arg_depth == 0
    &&& h.intern_depth == 0
    &&& h.facts.singles.wf()
    &&& forall|p: usize| p >= h.next ==> #[trigger] ordinary(h, p)
    &&& growth::bytes_apart(h)
    &&& trips::plain_type(h, t.long_type)
    &&& trips::plain_type(h, t.float_type)
    &&& trips::plain_type(h, t.complex_type)
    &&& trips::plain_type(h, t.unicode_type)
}

/// The address stands for the scalar.
pub open spec fn stands_for(h: HeapV, p: usize, n: NatV) -> bool {
    match single_of(h.facts.singles, n.val) {
        Some(q) => p == q,
        None => {
            let s = h.mem[p];
            &&& ordinary(h, p)
            &&& h.minted.contains(p)
            &&& h.mem.contains_key(p)
            &&& s.obj == n
            &&& s.link is Unlinked
            &&& !s.str_buffer
            &&& !s.bytes_buffer
            &&& trips::plain_type(h, heap::type_at(h, p))
        },
    }
}

/// What lies below the next address is as it was.
pub open spec fn extends(h: HeapV, g: HeapV) -> bool {
    &&& g.facts == h.facts
    &&& g.getset_boxes == h.getset_boxes
    &&& g.next >= h.next
    &&& forall|q: usize|
        q < h.next ==> {
            &&& #[trigger] g.mem.contains_key(q) == h.mem.contains_key(q)
            &&& g.mem[q] == h.mem[q]
        }
    &&& forall|q: usize|
        q < h.next ==> {
            &&& #[trigger] g.heads.contains_key(q) == h.heads.contains_key(q)
            &&& g.heads[q] == h.heads[q]
        }
    &&& forall|q: usize| q < h.next ==> #[trigger] g.minted.contains(q) == h.minted.contains(q)
}

/// Reading the object of a scalar gives the scalar and changes nothing.
pub proof fn lemma_resolves(h: HeapV, p: usize, n: NatV, fuel: nat)
    requires
        scalar(n),
        h.facts.singles.wf(),
        stands_for(h, p, n),
    ensures
        p != 0,
        reading::resolve(h, p, fuel) == (h, n),
{
    if single_of(h.facts.singles, n.val) is None {
        assert(reading::native_v(h, p, fuel) == (h, n));
    }
}

/// A scalar crosses as an object that stands for it, at the next address or at
/// the one that there is only one of.
pub proof fn lemma_scalar_out(h: HeapV, n: NatV)
    requires
        scalar(n),
        ready(h),
    ensures
        ({
            let (g, p) = outward::out(h, n);
            &&& extends(h, g)
            &&& ready(g)
            &&& g.cells == h.cells && g.seeded == h.seeded && g.pending == h.pending
            &&& p != 0 ==> stands_for(g, p, n)
            &&& p != 0 && single_of(h.facts.singles, n.val) is None ==> h.next <= p < g.next
        }),
{
    if single_of(h.facts.singles, n.val) is None {
        let ty = crossing::type_for(h, n);
        assert(crossing::known(h, n, ty) is None) by {
            reveal(crossing::known);
        }
        if crossing::can_open(h, n.val) {
            trips::law_new_mirror(h, n, ty, false);
            reveal(crossing::opened);
            reveal(crossing::filled_in);
            reveal(crossing::kept);
            let (h1, place) = crossing::opened(h, n, ty, false);
            let kids = Seq::<usize>::empty();
            assert(outward::kids_out(h1, n.val) == (h1, kids));
            assert(heap::all_increfed(h1, crossing::own_refs(h1, n, kids)) == h1);
            let (g, p) = outward::fresh_out(h, n, ty, false);
            assert(crossing::kept(g, n, ty, p) == g);
            assert(outward::out(h, n) == (g, p));
            assert forall|q: usize| q >= g.next implies #[trigger] ordinary(g, q) by {
                assert(ordinary(h, q));
            }
            assert(ordinary(h, p));
            assert(ordinary(g, p));
        }
    } else if n.val is Bool {
        reveal(crossing::known);
        reveal(crossing::shared);
    }
}

/// Scalars cross as objects that stand for them.
proof fn lemma_scalars_out(h: HeapV, s: Seq<NatV>)
    requires
        forall|i: int| 0 <= i < s.len() ==> scalar(#[trigger] s[i]),
        ready(h),
    ensures
        ({
            let (g, ps) = outward::outs(h, s);
            &&& ps.len() == s.len()
            &&& extends(h, g)
            &&& ready(g)
            &&& forall|i: int|
                0 <= i < s.len() && #[trigger] ps[i] != 0 ==> stands_for(g, ps[i], s[i])
            &&& forall|i: int|
                0 <= i < s.len() && #[trigger] ps[i] != 0 && single_of(
                    h.facts.singles,
                    s[i].val,
                ) is None ==> h.next <= ps[i] < g.next
        }),
    decreases s.len(),
{
    if s.len() > 0 {
        let front = s.drop_last();
        assert forall|i: int| 0 <= i < front.len() implies scalar(#[trigger] front[i]) by {
            assert(scalar(s[i]));
        }
        lemma_scalars_out(h, front);
        let (h1, ps1) = outward::outs(h, front);
        assert(scalar(s[s.len() - 1]));
        lemma_scalar_out(h1, s.last());
        let (g, p) = outward::out(h1, s.last());
        let ps = ps1.push(p);
        assert(outward::outs(h, s) == (g, ps));
        assert forall|i: int| 0 <= i < s.len() && #[trigger] ps[i] != 0 implies stands_for(
            g,
            ps[i],
            s[i],
        ) by {
            if i < s.len() - 1 {
                assert(front[i] == s[i]);
                assert(ps1[i] == ps[i]);
                let q = ps1[i];
                assert(stands_for(h1, q, front[i]));
                if single_of(h.facts.singles, s[i].val) is None {
                    assert(q < h1.next);
                    assert(g.mem.contains_key(q) == h1.mem.contains_key(q));
                    assert(g.heads.contains_key(q) == h1.heads.contains_key(q));
                    assert(g.minted.contains(q) == h1.minted.contains(q));
                }
            }
        }
    }
}

/// The slots of objects that stand for scalars read as the scalars.
pub proof fn lemma_scalars_read(h: HeapV, ps: Seq<usize>, s: Seq<NatV>, fuel: nat)
    requires
        fuel > 0,
        ps.len() == s.len(),
        h.facts.singles.wf(),
        forall|i: int| 0 <= i < s.len() ==> scalar(#[trigger] s[i]),
        forall|i: int| 0 <= i < s.len() ==> stands_for(h, #[trigger] ps[i], s[i]),
    ensures
        reading::read_ptrs(h, ps, fuel) == (h, s),
    decreases s.len(),
{
    if s.len() == 0 {
        assert(s =~= Seq::<NatV>::empty());
    } else {
        let front = s.drop_last();
        let fore = ps.drop_last();
        assert forall|i: int| 0 <= i < front.len() implies scalar(#[trigger] front[i]) by {
            assert(scalar(s[i]));
        }
        assert forall|i: int| 0 <= i < front.len() implies stands_for(
            h,
            #[trigger] fore[i],
            front[i],
        ) by {
            assert(stands_for(h, ps[i], s[i]));
        }
        lemma_scalars_read(h, fore, front, fuel);
        assert(scalar(s[s.len() - 1]));
        assert(stands_for(h, ps[s.len() - 1], s[s.len() - 1]));
        lemma_resolves(h, ps.last(), s.last(), (fuel - 1) as nat);
        assert(front.push(s.last()) =~= s);
    }
}

/// A list of scalars that crosses for the first time comes back as it was: the
/// object stands for it, and the VM list holds what it held.
pub proof fn law_flat_list_comes_back(h: HeapV, n: NatV)
    requires
        n.val is List,
        forall|i: int| 0 <= i < n.val->List_0.len() ==> scalar(#[trigger] n.val->List_0[i]),
        ready(h),
        mirror::list_shaped(h.facts, h.facts.types.list_type),
        !mirror::tuple_shaped(h.facts, h.facts.types.list_type),
        crossing::known(h, n, h.facts.types.list_type) is None,
        crossing::can_open(h, n.val),
        !outward::kids_out(
            crossing::opened(h, n, h.facts.types.list_type, true).0,
            n.val,
        ).1.contains(0),
    ensures
        ({
            let (g, p) = outward::mirrored(h, n, h.facts.types.list_type);
            let (after, back) = reading::native_at(g, p);
            &&& back == n
            &&& after.cells[n.id] == n.val->List_0
            &&& after.seeded.contains_key(p)
        }),
{
    let ty = h.facts.types.list_type;
    let items = n.val->List_0;
    let (h1, place) = crossing::opened(h, n, ty, true);
    assert(ordinary(h, h.next));
    assert(ready(h1) && place.at == h.next && h1.next > h.next && heap::type_at(h1, h.next) == ty
        && h1.facts == h.facts) by {
        reveal(crossing::opened);
        assert forall|q: usize| q >= h1.next implies #[trigger] ordinary(h1, q) by {
            assert(ordinary(h, q));
        }
    }
    lemma_scalars_out(h1, items);
    let (h2, kids) = outward::kids_out(h1, n.val);
    assert(outward::outs(h1, items) == (h2, kids));
    trips::law_new_mirror(h, n, ty, true);
    let (g, p) = outward::fresh_out(h, n, ty, true);
    assert(g == HeapV {
        mem: h2.mem.insert(place.at, crossing::new_store(h2, n, place, kids)),
        cells: h2.cells.insert(n.id, items),
        minted: h2.minted.insert(place.at),
        ..h2
    }) by {
        reveal(crossing::filled_in);
        assert(heap::all_increfed(h2, Seq::<usize>::empty()) == h2);
    }
    assert(crossing::kept(g, n, ty, p) == g) by {
        reveal(crossing::kept);
    }
    assert(outward::mirrored(h, n, ty) == (g, p));
    assert(h1.heads.contains_key(p));
    assert(h2.heads.contains_key(p) == h1.heads.contains_key(p));
    assert(heap::type_at(g, p) == ty);
    assert(g.facts == h.facts);
    assert(mirror::list_at(g, p));
    assert(!mirror::tuple_at(g, p));
    trips::law_list_comes_back(h, n, ty, true);
    let g1 = heap::with_store(g, p, StoreV { list_synced: true, ..g.mem[p] });
    assert forall|i: int| 0 <= i < items.len() implies stands_for(g1, #[trigger] kids[i], items[i])
        by {
        assert(scalar(items[i]));
        assert(kids.contains(kids[i]));
        assert(stands_for(h2, kids[i], items[i]));
    }
    lemma_scalars_read(g1, kids, items, reading::reach(g1));
    assert(reading::objects_at(g1, kids) == (g1, items)) by {
        reveal(reading::objects_at);
    }
}

/// A shared list that both sides agree on, with a VM list behind it.
pub open spec fn in_step(h: HeapV, p: usize, id: usize) -> bool {
    &&& h.mem.contains_key(p)
    &&& h.mem[p].list_synced
    &&& reading::live_cell(h, h.mem[p]) == Some(id)
    &&& !reading::written_by_c(h, p)
    &&& agreement::whole(h.mem[p])
    &&& mirror::var_size(h.mem[p].tail) < isize::MAX
    &&& h.facts.singles.wf()
}

/// There is room for one more element, or for a larger buffer.
pub open spec fn takes_one_more(h: HeapV, p: usize) -> bool {
    let n = mirror::var_size(h.mem[p].tail) as nat;
    lists::roomy(h.mem[p], n + 1) || (lists::can_grow(h, h.mem[p], n + 1) && h.next != 0)
}

/// A list in step has nothing to settle, and reserving room keeps its elements.
proof fn lemma_reserved_in_step(h: HeapV, p: usize, id: usize)
    requires
        in_step(h, p, id),
        takes_one_more(h, p),
    ensures
        lists::settled(h, p) == h,
        ({
            let n = mirror::var_size(h.mem[p].tail) as nat;
            let g = lists::reserved(h, p, n + 1);
            let s = g.mem[p];
            &&& lists::roomy(s, n + 1)
            &&& agreement::whole(s)
            &&& mirror::var_size(s.tail) == n
            &&& mirror::list_ptrs_of(s) == mirror::list_ptrs_of(h.mem[p])
            &&& s.obj == h.mem[p].obj
            &&& 8 * (n + 1) <= s.aux.len()
            &&& g == (HeapV { mem: h.mem.insert(p, s), next: g.next, ..h })
        }),
{
    reveal(lists::settled);
    reveal(lists::seeded_once);
    reveal(reading::caught_up);
    reveal(lists::reserved);
    let n = mirror::var_size(h.mem[p].tail) as nat;
    let s = h.mem[p];
    if lists::roomy(s, n + 1) {
        assert(h.mem.insert(p, s) =~= h.mem);
    } else {
        let cap = lists::grown_room(n + 1, lists::room_of(s));
        agreement::law_growing_is_geometric(n + 1, lists::room_of(s));
        agreement::law_growing_keeps_slots(s, cap, h.next);
        let t = lists::regrown(s, cap, h.next);
        fields::lemma_own_field(s.tail, 24, h.next as u64);
        fields::lemma_other_field(s.tail, 24, h.next as u64, 16);
        let t1 = layout::with_field(s.tail, 24, h.next as u64);
        fields::lemma_own_field(t1, 32, cap as u64);
        fields::lemma_other_field(t1, 32, cap as u64, 16);
        fields::lemma_other_field(t1, 32, cap as u64, 24);
        assert(mirror::var_size(t.tail) == n);
        assert(lists::room_of(t) == cap);
        assert(t.aux.len() == 8 * cap);
    }
}

/// An object keeps standing for its scalar when another one is written.
proof fn lemma_still_stands(h: HeapV, g: HeapV, item: usize, p: usize, v: NatV)
    requires
        scalar(v),
        stands_for(h, item, v),
        item != p,
        g.facts == h.facts,
        g.getset_boxes == h.getset_boxes,
        g.minted == h.minted,
        g.heads == h.heads,
        forall|q: usize| q != p ==> #[trigger] g.mem.contains_key(q) == h.mem.contains_key(q),
        forall|q: usize| q != p ==> #[trigger] g.mem[q] == h.mem[q],
    ensures
        stands_for(g, item, v),
        stands_for(heap::increfed(g, item), item, v),
{
    assert(g.mem.contains_key(item) == h.mem.contains_key(item));
}

/// Appending the object of a scalar changes both sides: the slots get the object,
/// and the VM list gets the scalar.
pub proof fn law_append_changes_both_sides(h: HeapV, p: usize, id: usize, item: usize, v: NatV)
    requires
        in_step(h, p, id),
        takes_one_more(h, p),
        scalar(v),
        stands_for(h, item, v),
        item != p,
    ensures
        ({
            let (g, done) = lists::appended(h, p, item);
            &&& done
            &&& mirror::list_ptrs_of(g.mem[p]) == mirror::list_ptrs_of(h.mem[p]).push(item)
            &&& g.cells[id] == h.cells[id].push(v)
        }),
{
    lemma_reserved_in_step(h, p, id);
    let n = mirror::var_size(h.mem[p].tail) as nat;
    let h2 = lists::reserved(h, p, n + 1);
    let h3 = heap::increfed(h2, item);
    let s = h3.mem[p];
    agreement::law_append_adds_a_slot(s, item);
    let t = lists::with_size(lists::with_slot(s, n as int, item), n + 1);
    let h4 = heap::with_store(h3, p, t);
    lemma_still_stands(h, h2, item, p, v);
    assert(stands_for(h4, item, v));
    lemma_resolves(h4, item, v, reading::reach(h4));
    assert(reading::object_at(h4, item) == (h4, v)) by {
        reveal(reading::object_at);
    }
    reveal(lists::vm_pushed);
    reveal(lists::agreed);
}

/// Inserting the object of a scalar changes both sides alike.
#[verifier::rlimit(40)]
pub proof fn law_insert_changes_both_sides(
    h: HeapV,
    p: usize,
    id: usize,
    pos: i64,
    item: usize,
    v: NatV,
)
    requires
        in_step(h, p, id),
        takes_one_more(h, p),
        scalar(v),
        stands_for(h, item, v),
        item != p,
        h.cells[id].len() == mirror::var_size(h.mem[p].tail),
    ensures
        ({
            let (g, done) = lists::inserted(h, p, pos, item);
            let at = lists::clamped(pos, h.cells[id].len());
            &&& done
            &&& mirror::list_ptrs_of(g.mem[p]) == mirror::list_ptrs_of(h.mem[p]).insert(
                at as int,
                item,
            )
            &&& g.cells[id] == h.cells[id].insert(at as int, v)
        }),
{
    lemma_reserved_in_step(h, p, id);
    let n = mirror::var_size(h.mem[p].tail) as nat;
    let at = lists::clamped(pos, n);
    let h2 = lists::reserved(h, p, n + 1);
    let h3 = heap::increfed(h2, item);
    let s = h3.mem[p];
    agreement::law_insert_moves_slots_up(s, at, item);
    let t = lists::with_size(lists::with_inserted(s, at, n, item), n + 1);
    let h4 = heap::with_store(h3, p, t);
    lemma_still_stands(h, h2, item, p, v);
    assert(stands_for(h4, item, v));
    lemma_resolves(h4, item, v, reading::reach(h4));
    assert(reading::object_at(h4, item) == (h4, v)) by {
        reveal(reading::object_at);
    }
    reveal(lists::vm_inserted);
    reveal(lists::agreed);
}

} // verus!
