//! What C code finds in a list after the VM changed it.

use vstd::prelude::*;
use crate::agreement;
use crate::bytes;
use crate::flat;
use crate::freeing;
use crate::heap;
use crate::heap::{HeapV, StoreV, Work};
use crate::layout::{HEAD, LIST_SIZE};
use crate::lists;
use crate::mirror;
use crate::outward;
use crate::publish;
use crate::reading;
use crate::value::NatV;

verus! {

broadcast use vstd::std_specs::hash::group_hash_axioms;

/// The object owns no references: its end is the end of nothing else.
pub open spec fn leaf(h: HeapV, q: usize) -> bool {
    h.minted.contains(q) && h.mem.contains_key(q) ==> {
        &&& h.mem[q].link is Unlinked
        &&& mirror::mirror_at(h, q)
        &&& !mirror::list_at(h, q)
        &&& freeing::owned_refs(h, q).len() == 0
    }
}

/// Nothing but this object changed.
pub open spec fn beside(h: HeapV, g: HeapV, q: usize) -> bool {
    &&& g.facts == h.facts
    &&& g.getset_boxes == h.getset_boxes
    &&& g.arg_depth == h.arg_depth
    &&& g.intern_depth == h.intern_depth
    &&& g.next == h.next
    &&& g.cells == h.cells
    &&& g.seeded == h.seeded
    &&& g.pending == h.pending
    &&& forall|r: usize|
        r != q ==> {
            &&& #[trigger] g.mem.contains_key(r) == h.mem.contains_key(r)
            &&& g.mem[r] == h.mem[r]
        }
    &&& forall|r: usize|
        r != q ==> {
            &&& #[trigger] g.heads.contains_key(r) == h.heads.contains_key(r)
            &&& g.heads[r] == h.heads[r]
        }
    &&& forall|r: usize| r != q ==> #[trigger] g.minted.contains(r) == h.minted.contains(r)
}

/// Releasing an object that owns no references changes nothing else.
proof fn lemma_released(h: HeapV, q: usize)
    requires
        leaf(h, q),
        h.pending.len() == 0,
    ensures
        beside(h, freeing::released(h, seq![q]), q),
        leaf(freeing::released(h, seq![q]), q),
{
    if h.mem.dom().finite() {
        freeing::lemma_release_one(h, q);
        let (h1, last) = freeing::decrefed(h, q);
        assert(heap::type_at(h1, q) == heap::type_at(h, q));
        if last {
            freeing::lemma_dropped_shrinks(h1, q);
            let (h2, more) = freeing::dropped(h1, q);
            assert(more.len() <= 1);
            assert(more.len() == 1 ==> more[0] is Tell);
            if more.len() == 1 {
                assert(more.reverse().drop_last() =~= Seq::<Work>::empty());
                assert(more.reverse().last() == more[0]);
                assert(h2.mem.dom() == h1.mem.dom().remove(q) || h2.mem == h1.mem);
                assert(h2.mem.dom().finite());
                reveal_with_fuel(freeing::worked, 3);
            } else {
                assert(more.reverse() =~= Seq::<Work>::empty());
            }
        }
    }
}

/// Every slot of the buffer is NULL or holds an object that owns no references.
pub open spec fn leaves_only(h: HeapV, p: usize) -> bool {
    forall|k: int|
        {
            let q = #[trigger] lists::slot_of(h.mem[p], k);
            q != 0 ==> q < h.next && q != p && leaf(h, q)
        }
}

/// The heap `g` on the way from `h` to a published list: the first `n` slots hold
/// objects that stand for the elements, and those from `m` on are as they were.
pub open spec fn underway(h: HeapV, g: HeapV, p: usize, items: Seq<NatV>, n: int, m: int) -> bool {
    &&& flat::ready(g)
    &&& g.pending.len() == 0
    &&& g.facts == h.facts
    &&& g.next >= h.next
    &&& g.cells == h.cells
    &&& g.seeded == h.seeded
    &&& g.mem.contains_key(p)
    &&& g.heads.contains_key(p) == h.heads.contains_key(p)
    &&& g.heads[p] == h.heads[p]
    &&& g.mem[p] == (StoreV { aux: g.mem[p].aux, ..h.mem[p] })
    &&& g.mem[p].aux.len() == h.mem[p].aux.len()
    &&& forall|k: int|
        0 <= k < n ==> {
            let q = #[trigger] lists::slot_of(g.mem[p], k);
            q != 0 ==> flat::stands_for(g, q, items[k]) && (flat::single_of(
                h.facts.singles,
                items[k].val,
            ) is None ==> h.next <= q < g.next)
        }
    &&& forall|k: int|
        k >= m ==> #[trigger] lists::slot_of(g.mem[p], k) == lists::slot_of(h.mem[p], k)
    &&& forall|r: usize| r < h.next && r != p && leaf(h, r) ==> #[trigger] leaf(g, r)
}

/// Releasing what a slot held before leaves the rest of the list alone.
proof fn lemma_let_go(
    h: HeapV,
    g: HeapV,
    p: usize,
    items: Seq<NatV>,
    n: int,
    m: int,
    q: usize,
)
    requires
        underway(h, g, p, items, n, m),
        q < h.next,
        q != p,
        leaf(h, q),
        flat::ready(h),
        p < h.next,
    ensures
        underway(h, freeing::released(g, seq![q]), p, items, n, m),
{
    assert(leaf(g, q));
    lemma_released(g, q);
    let e = freeing::released(g, seq![q]);
    assert(e.mem.contains_key(p) == g.mem.contains_key(p));
    assert(e.heads.contains_key(p) == g.heads.contains_key(p));
    assert forall|r: usize| r >= e.next implies #[trigger] flat::ordinary(e, r) by {
        assert(flat::ordinary(g, r));
    }
    assert forall|k: int| 0 <= k < n implies ({
        let o = #[trigger] lists::slot_of(e.mem[p], k);
        o != 0 ==> flat::stands_for(e, o, items[k]) && (flat::single_of(
            h.facts.singles,
            items[k].val,
        ) is None ==> h.next <= o < e.next)
    }) by {
        let o = lists::slot_of(g.mem[p], k);
        assert(lists::slot_of(e.mem[p], k) == o);
        if o != 0 && flat::single_of(h.facts.singles, items[k].val) is None {
            assert(o != q);
            assert(e.mem.contains_key(o) == g.mem.contains_key(o));
            assert(e.heads.contains_key(o) == g.heads.contains_key(o));
            assert(e.minted.contains(o) == g.minted.contains(o));
        }
    }
    assert forall|r: usize| r < h.next && r != p && leaf(h, r) implies #[trigger] leaf(e, r) by {
        assert(leaf(g, r));
        if r != q {
            assert(e.mem.contains_key(r) == g.mem.contains_key(r));
            assert(e.heads.contains_key(r) == g.heads.contains_key(r));
            assert(e.minted.contains(r) == g.minted.contains(r));
        }
    }
}

/// Writing an address into a slot leaves the other slots alone.
proof fn lemma_put(s: StoreV, i: int, v: usize, k: int)
    requires
        0 <= i,
        8 * i + 8 <= s.aux.len(),
    ensures
        lists::slot_of(lists::with_slot(s, i, v), k) == (if k == i {
            v
        } else {
            lists::slot_of(s, k)
        }),
        lists::with_slot(s, i, v).aux.len() == s.aux.len(),
{
    if 0 <= k && 8 * k + 8 <= s.aux.len() {
        agreement::lemma_slot_written(s.aux, i, v, k);
    }
}

/// The slots of a list of scalars hold objects that stand for them.
proof fn lemma_filled(h: HeapV, p: usize, items: Seq<NatV>)
    requires
        flat::ready(h),
        h.pending.len() == 0,
        h.mem.contains_key(p),
        p < h.next,
        leaves_only(h, p),
        8 * items.len() <= h.mem[p].aux.len(),
        forall|i: int| 0 <= i < items.len() ==> flat::scalar(#[trigger] items[i]),
    ensures
        underway(
            h,
            publish::slots_filled(h, p, items),
            p,
            items,
            items.len() as int,
            items.len() as int,
        ),
    decreases items.len(),
{
    if items.len() > 0 {
        let front = items.drop_last();
        let i = items.len() - 1;
        assert forall|k: int| 0 <= k < front.len() implies flat::scalar(#[trigger] front[k]) by {
            assert(flat::scalar(items[k]));
        }
        lemma_filled(h, p, front);
        let h1 = publish::slots_filled(h, p, front);
        let prior = lists::slot_of(h1.mem[p], i);
        assert(prior == lists::slot_of(h.mem[p], i));
        assert(flat::scalar(items[i]));
        flat::lemma_scalar_out(h1, items.last());
        let (h2, new) = outward::out(h1, items.last());
        assert(h2.mem.contains_key(p) == h1.mem.contains_key(p));
        assert(h2.heads.contains_key(p) == h1.heads.contains_key(p));
        lemma_crossed(h, h1, h2, p, items, i);
        if new == prior {
            if new != 0 {
                assert(underway(h, h2, p, items, items.len() as int, items.len() as int));
                lemma_let_go(h, h2, p, items, items.len() as int, items.len() as int, prior);
            }
        } else {
            let h3 = lists::changed(h2, p, lists::with_slot(h2.mem[p], i, new));
            lemma_placed(h, h2, p, items, i, new);
            if prior != 0 {
                lemma_let_go(h, h3, p, items, items.len() as int, items.len() as int, prior);
            }
        }
    }
}

/// A further object that crosses leaves the list alone.
proof fn lemma_crossed(h: HeapV, g: HeapV, e: HeapV, p: usize, items: Seq<NatV>, i: int)
    requires
        0 <= i < items.len(),
        underway(h, g, p, items.take(i), i, i),
        flat::ready(h),
        p < h.next,
        flat::extends(g, e),
        flat::ready(e),
        e.cells == g.cells && e.seeded == g.seeded && e.pending == g.pending,
    ensures
        underway(h, e, p, items, i, i),
{
    assert(e.mem.contains_key(p) == g.mem.contains_key(p));
    assert(e.heads.contains_key(p) == g.heads.contains_key(p));
    assert forall|k: int| 0 <= k < i implies ({
        let o = #[trigger] lists::slot_of(e.mem[p], k);
        o != 0 ==> flat::stands_for(e, o, items[k]) && (flat::single_of(
            h.facts.singles,
            items[k].val,
        ) is None ==> h.next <= o < e.next)
    }) by {
        let o = lists::slot_of(g.mem[p], k);
        assert(items.take(i)[k] == items[k]);
        assert(lists::slot_of(e.mem[p], k) == o);
        if o != 0 && flat::single_of(h.facts.singles, items[k].val) is None {
            assert(e.mem.contains_key(o) == g.mem.contains_key(o));
            assert(e.heads.contains_key(o) == g.heads.contains_key(o));
            assert(e.minted.contains(o) == g.minted.contains(o));
        }
    }
    assert forall|r: usize| r < h.next && r != p && leaf(h, r) implies #[trigger] leaf(e, r) by {
        assert(leaf(g, r));
        assert(e.mem.contains_key(r) == g.mem.contains_key(r));
        assert(e.heads.contains_key(r) == g.heads.contains_key(r));
        assert(e.minted.contains(r) == g.minted.contains(r));
    }
}

/// An object that crossed goes into the next slot.
proof fn lemma_placed(h: HeapV, g: HeapV, p: usize, items: Seq<NatV>, i: int, new: usize)
    requires
        0 <= i < items.len(),
        8 * items.len() <= h.mem[p].aux.len(),
        underway(h, g, p, items, i, i),
        flat::ready(h),
        p < h.next,
        new != 0 ==> flat::stands_for(g, new, items[i]) && (flat::single_of(
            h.facts.singles,
            items[i].val,
        ) is None ==> h.next <= new < g.next),
    ensures
        underway(
            h,
            lists::changed(g, p, lists::with_slot(g.mem[p], i, new)),
            p,
            items,
            i + 1,
            i + 1,
        ),
{
    let e = lists::changed(g, p, lists::with_slot(g.mem[p], i, new));
    lemma_put(g.mem[p], i, new, i);
    assert forall|r: usize| r >= e.next implies #[trigger] flat::ordinary(e, r) by {
        assert(flat::ordinary(g, r));
    }
    assert forall|k: int| 0 <= k < i + 1 implies ({
        let o = #[trigger] lists::slot_of(e.mem[p], k);
        o != 0 ==> flat::stands_for(e, o, items[k]) && (flat::single_of(
            h.facts.singles,
            items[k].val,
        ) is None ==> h.next <= o < e.next)
    }) by {
        lemma_put(g.mem[p], i, new, k);
        assert(k < i ==> lists::slot_of(e.mem[p], k) == lists::slot_of(g.mem[p], k));
    }
    assert forall|k: int| k >= i + 1 implies #[trigger] lists::slot_of(e.mem[p], k)
        == lists::slot_of(h.mem[p], k) by {
        lemma_put(g.mem[p], i, new, k);
        assert(lists::slot_of(g.mem[p], k) == lists::slot_of(h.mem[p], k));
    }
    assert forall|r: usize| r < h.next && r != p && leaf(h, r) implies #[trigger] leaf(e, r) by {
        assert(leaf(g, r));
    }
}

/// The slots past the last element become NULL.
proof fn lemma_cleared(h: HeapV, g: HeapV, p: usize, items: Seq<NatV>, to: nat)
    requires
        flat::ready(h),
        h.pending.len() == 0,
        p < h.next,
        leaves_only(h, p),
        underway(h, g, p, items, items.len() as int, items.len() as int),
    ensures
        underway(
            h,
            publish::slots_cleared(g, p, items.len(), to),
            p,
            items,
            items.len() as int,
            if to <= items.len() {
                items.len() as int
            } else {
                to as int
            },
        ),
    decreases to,
{
    let n = items.len() as int;
    if to > n {
        lemma_cleared(h, g, p, items, (to - 1) as nat);
        let h1 = publish::slots_cleared(g, p, items.len(), (to - 1) as nat);
        let prior = lists::slot_of(h1.mem[p], to - 1);
        assert(prior == lists::slot_of(h.mem[p], to - 1));
        let h2 = lists::changed(h1, p, lists::with_slot(h1.mem[p], to - 1, 0));
        if 8 * to > h1.mem[p].aux.len() {
            assert(h1.mem.insert(p, h1.mem[p]) =~= h1.mem);
        } else {
            lemma_put(h1.mem[p], to - 1, 0, to - 1);
        }
        assert forall|r: usize| r >= h2.next implies #[trigger] flat::ordinary(h2, r) by {
            assert(flat::ordinary(h1, r));
        }
        assert forall|k: int| 0 <= k < n implies ({
            let o = #[trigger] lists::slot_of(h2.mem[p], k);
            o != 0 ==> flat::stands_for(h2, o, items[k]) && (flat::single_of(
                h.facts.singles,
                items[k].val,
            ) is None ==> h.next <= o < h2.next)
        }) by {
            if 8 * to <= h1.mem[p].aux.len() {
                lemma_put(h1.mem[p], to - 1, 0, k);
            }
            assert(lists::slot_of(h2.mem[p], k) == lists::slot_of(h1.mem[p], k));
        }
        assert forall|k: int| k >= to implies #[trigger] lists::slot_of(h2.mem[p], k)
            == lists::slot_of(h.mem[p], k) by {
            if 8 * to <= h1.mem[p].aux.len() {
                lemma_put(h1.mem[p], to - 1, 0, k);
            }
            assert(lists::slot_of(h1.mem[p], k) == lists::slot_of(h.mem[p], k));
        }
        assert forall|r: usize| r < h.next && r != p && leaf(h, r) implies #[trigger] leaf(h2, r) by {
            assert(leaf(h1, r));
        }
        if prior != 0 {
            lemma_let_go(h, h2, p, items, n, to as int, prior);
        }
    }
}

proof fn lemma_zero_slot(n: nat, k: int)
    requires
        0 <= k,
        8 * k + 8 <= n,
    ensures
        bytes::slot(bytes::zeros(n), 8 * k) == 0,
{
    assert(bytes::zeros(n).subrange(8 * k, 8 * k + 8) =~= bytes::zeros(8));
    bytes::lemma_zero_word(8);
}

/// A slot of a larger buffer holds what it held before or NULL.
proof fn lemma_regrown_slot(s: StoreV, cap: nat, at: usize, k: int)
    ensures
        lists::slot_of(lists::regrown(s, cap, at), k) == 0 || lists::slot_of(
            lists::regrown(s, cap, at),
            k,
        ) == lists::slot_of(s, k),
{
    let all = mirror::list_ptrs_of(s);
    let run = all.take(
        if all.len() <= cap {
            all.len() as int
        } else {
            cap as int
        },
    );
    let t = lists::regrown(s, cap, at);
    bytes::lemma_flat_len(bytes::nats(run), 8);
    if 0 <= k && 8 * k + 8 <= t.aux.len() {
        agreement::lemma_run_written(bytes::zeros(8 * cap), 0, run, k);
        if k >= run.len() {
            lemma_zero_slot(8 * cap, k);
        }
    }
}

/// Making room keeps a list ready to be written.
proof fn lemma_room_made(h: HeapV, p: usize, n: nat)
    requires
        flat::ready(h),
        h.mem.contains_key(p),
        p < h.next,
        leaves_only(h, p),
        n > 0,
        lists::roomy(h.mem[p], n) || lists::can_grow(h, h.mem[p], n),
    ensures
        ({
            let g = lists::reserved(h, p, n);
            let s = g.mem[p];
            &&& flat::ready(g)
            &&& leaves_only(g, p)
            &&& lists::roomy(s, n)
            &&& s.tail.len() == h.mem[p].tail.len()
            &&& s == (StoreV { tail: s.tail, aux: s.aux, aux_addr: s.aux_addr, ..h.mem[p] })
            &&& g == (HeapV { mem: h.mem.insert(p, s), next: g.next, ..h })
            &&& g.next >= h.next
        }),
{
    reveal(lists::reserved);
    let s = h.mem[p];
    let g = lists::reserved(h, p, n);
    if lists::roomy(s, n) {
        assert(h.mem.insert(p, s) =~= h.mem);
    } else {
        let cap = lists::grown_room(n, lists::room_of(s));
        agreement::law_growing_is_geometric(n, lists::room_of(s));
        assert(flat::ordinary(h, h.next));
        lists::lemma_regrown(s, cap, h.next);
        assert forall|r: usize| r >= g.next implies #[trigger] flat::ordinary(g, r) by {
            assert(flat::ordinary(h, r));
        }
        assert forall|k: int| ({
            let q = #[trigger] lists::slot_of(g.mem[p], k);
            q != 0 ==> q < g.next && q != p && leaf(g, q)
        }) by {
            lemma_regrown_slot(s, cap, h.next, k);
            let q = lists::slot_of(s, k);
            assert(q != 0 ==> leaf(h, q));
        }
    }
}

/// A list of scalars that is written into its object: each slot holds an object
/// that stands for the element, or NULL where there was no room for one.
proof fn lemma_written(h: HeapV, p: usize, items: Seq<NatV>)
    requires
        flat::ready(h),
        h.pending.len() == 0,
        h.mem.contains_key(p),
        p < h.next,
        leaves_only(h, p),
        h.mem[p].tail.len() >= LIST_SIZE - HEAD,
        items.len() <= isize::MAX,
        items.len() > 0 ==> lists::roomy(h.mem[p], items.len()) || lists::can_grow(
            h,
            h.mem[p],
            items.len(),
        ),
        forall|i: int| 0 <= i < items.len() ==> flat::scalar(#[trigger] items[i]),
    ensures
        ({
            let g = publish::written(h, p, items);
            let ps = mirror::list_ptrs_of(g.mem[p]);
            &&& ps.len() == items.len()
            &&& forall|k: int|
                0 <= k < ps.len() && #[trigger] ps[k] != 0 ==> flat::stands_for(g, ps[k], items[k])
            &&& g.cells == h.cells
            &&& g.facts == h.facts
        }),
{
    let n = items.len();
    let s = h.mem[p];
    let had = mirror::at_most(mirror::var_size(s.tail), (s.aux.len() / 8) as int);
    let h1 = if n > 0 {
        lists::reserved(h, p, n)
    } else {
        h
    };
    if n > 0 {
        lemma_room_made(h, p, n);
    }
    lemma_filled(h1, p, items);
    let h2 = publish::slots_filled(h1, p, items);
    lemma_cleared(h1, h2, p, items, had);
    let h3 = publish::slots_cleared(h2, p, n, had);
    let t = h3.mem[p];
    agreement::lemma_resized(t, n);
    let h4 = lists::changed(h3, p, lists::with_size(t, n));
    let g = publish::recorded(h4, p, mirror::objs_digest(items));
    assert(g == publish::written(h, p, items));
    let ps = mirror::list_ptrs_of(g.mem[p]);
    assert(ps.len() == n);
    assert forall|k: int| 0 <= k < ps.len() && #[trigger] ps[k] != 0 implies flat::stands_for(
        g,
        ps[k],
        items[k],
    ) by {
        assert(ps[k] == lists::slot_of(t, k));
        assert(flat::stands_for(h3, ps[k], items[k]));
    }
}

/// What the VM did to a shared list reaches C code: once the list is published,
/// it has a slot for each element of the VM list, and the slots hold objects that
/// stand for the elements. A slot is NULL only where there was no room for its
/// object. The elements here are scalars, and so are the objects that the list
/// held before, or at least objects that own no references.
pub proof fn law_vm_changes_reach_the_slots(h: HeapV, p: usize, id: usize)
    requires
        flat::ready(h),
        h.pending.len() == 0,
        mirror::list_at(h, p),
        h.mem[p].list_synced,
        h.mem[p].tail.len() >= LIST_SIZE - HEAD,
        p < h.next,
        leaves_only(h, p),
        reading::live_cell(h, h.mem[p]) == Some(id),
        !reading::written_by_c(h, p),
        h.seeded.contains_key(p) ==> h.seeded[p].rc_fp != Some(mirror::objs_digest(h.cells[id])),
        h.cells[id].len() <= isize::MAX,
        h.cells[id].len() > 0 ==> lists::roomy(h.mem[p], h.cells[id].len()) || lists::can_grow(
            h,
            h.mem[p],
            h.cells[id].len(),
        ),
        forall|i: int| 0 <= i < h.cells[id].len() ==> flat::scalar(#[trigger] h.cells[id][i]),
    ensures
        ({
            let g = publish::synced(h, p);
            let ps = mirror::list_ptrs_of(g.mem[p]);
            &&& ps.len() == h.cells[id].len()
            &&& forall|k: int|
                0 <= k < ps.len() && #[trigger] ps[k] != 0 ==> flat::stands_for(
                    g,
                    ps[k],
                    h.cells[id][k],
                )
            &&& g.cells == h.cells
            &&& !ps.contains(0) ==> reading::objects_at(g, ps) == (g, h.cells[id])
        }),
{
    let items = h.cells[id];
    assert(reading::caught_up(h, p) == h) by {
        reveal(reading::caught_up);
    }
    lemma_written(h, p, items);
    let g = publish::synced(h, p);
    assert(g == publish::written(h, p, items));
    let ps = mirror::list_ptrs_of(g.mem[p]);
    if !ps.contains(0) {
        assert forall|k: int| 0 <= k < items.len() implies flat::stands_for(
            g,
            #[trigger] ps[k],
            items[k],
        ) by {
            assert(ps.contains(ps[k]));
        }
        flat::lemma_scalars_read(g, ps, items, reading::reach(g));
        reveal(reading::objects_at);
    }
}

} // verus!
