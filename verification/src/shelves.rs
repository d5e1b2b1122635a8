//! Changing lists of scalars: storing and reordering reach both sides.

use vstd::prelude::*;
use crate::agreement;
use crate::bytes;
use crate::flat;
use crate::freeing;
use crate::heap;
use crate::heap::{HeapV, StoreV};
use crate::lists;
use crate::mirror;
use crate::object;
use crate::reading;
use crate::value::NatV;

verus! {

/// An element is inserted before the one at its index. An index beyond an end stands for
/// that end.
pub proof fn law_insert_position(pos: i64, n: nat)
    requires
        n <= isize::MAX,
    ensures
        0 <= pos <= n ==> lists::clamped(pos, n) == pos,
        pos > n ==> lists::clamped(pos, n) == n,
        pos < 0 ==> lists::clamped(pos, n) == 0,
{
}

/// Storing the object of a scalar changes both sides: the slot gets the object, the VM
/// list gets the scalar, and the object that was there loses one reference.
pub proof fn law_store_changes_both_sides(
    h: HeapV,
    p: usize,
    id: usize,
    pos: i64,
    item: usize,
    v: NatV,
)
    requires
        flat::in_step(h, p, id),
        flat::scalar(v),
        flat::stands_for(h, item, v),
        item != p,
        h.cells[id].len() == mirror::var_size(h.mem[p].tail),
        0 <= pos < h.cells[id].len(),
        h.pending.len() == 0,
        h.mem.dom().finite(),
        ({
            let prev = mirror::list_ptrs_of(h.mem[p])[pos as int];
            prev != 0 ==> h.heads.contains_key(prev) && 1 < h.heads[prev].ob_refcnt
                < 0x8000_0000
        }),
    ensures
        ({
            let prev = mirror::list_ptrs_of(h.mem[p])[pos as int];
            let (g, done) = lists::stored(h, p, pos, item);
            &&& done
            &&& mirror::list_ptrs_of(g.mem[p]) == mirror::list_ptrs_of(h.mem[p]).update(
                pos as int,
                item,
            )
            &&& g.cells[id] == h.cells[id].update(pos as int, v)
            &&& prev != 0 ==> g.heads[prev].ob_refcnt == h.heads[prev].ob_refcnt - 1
        }),
{
    let k = pos as int;
    let s = h.mem[p];
    let prev = mirror::list_ptrs_of(s)[k];
    reveal(lists::settled);
    reveal(lists::seeded_once);
    reveal(reading::caught_up);
    assert(lists::settled(h, p) == h);
    assert(lists::slot_of(s, k) == prev);
    agreement::law_store_replaces_a_slot(s, k, item);
    let t = lists::with_slot(s, k, item);
    let h2 = heap::with_store(h, p, t);
    let h3 = if prev != 0 {
        freeing::released(h2, seq![prev])
    } else {
        h2
    };
    if prev != 0 {
        freeing::lemma_release_one(h2, prev);
        assert(!object::immortal(h.heads[prev].ob_refcnt));
        assert(h2.mem.dom() =~= h.mem.dom());
        assert(h3 == heap::with_refcnt(h2, prev, (h.heads[prev].ob_refcnt - 1) as i64));
    }
    assert(h3.mem == h2.mem && h3.cells == h.cells);
    assert(heap::type_at(h3, item) == heap::type_at(h, item));
    assert(flat::stands_for(h3, item, v));
    flat::lemma_resolves(h3, item, v, reading::reach(h3));
    assert(reading::object_at(h3, item) == (h3, v)) by {
        reveal(reading::object_at);
    }
    assert(reading::live_cell(h3, h3.mem[p]) == Some(id));
    reveal(lists::vm_stored);
    reveal(lists::agreed);
}

/// Reordering a list changes both sides: the slots get the objects in their new order, and
/// the VM list gets the scalars that they stand for.
pub proof fn law_reorder_changes_both_sides(
    h: HeapV,
    p: usize,
    id: usize,
    ps: Seq<usize>,
    vals: Seq<NatV>,
)
    requires
        flat::in_step(h, p, id),
        ps.len() == mirror::var_size(h.mem[p].tail),
        vals.len() == ps.len(),
        forall|i: int| 0 <= i < vals.len() ==> flat::scalar(#[trigger] vals[i]),
        forall|i: int| 0 <= i < vals.len() ==> flat::stands_for(h, #[trigger] ps[i], vals[i]),
        !ps.contains(p),
    ensures
        ({
            let g = lists::permuted(h, p, ps);
            &&& mirror::list_ptrs_of(g.mem[p]) == ps
            &&& g.cells[id] == vals
            &&& g.heads == h.heads
        }),
{
    let s = h.mem[p];
    let t = StoreV { aux: bytes::put(s.aux, 0, mirror::slot_bytes(ps)), ..s };
    let h1 = heap::with_store(h, p, t);
    bytes::lemma_flat_len(bytes::nats(ps), 8);
    bytes::lemma_slots_put(s.aux, 0, ps);
    assert(mirror::list_ptrs_of(t) =~= ps);
    assert forall|i: int| 0 <= i < vals.len() implies flat::stands_for(h1, #[trigger] ps[i], vals[i]) by {
        assert(ps.contains(ps[i]));
        assert(flat::stands_for(h, ps[i], vals[i]));
    }
    flat::lemma_scalars_read(h1, ps, vals, reading::reach(h1));
    assert(reading::objects_at(h1, ps) == (h1, vals)) by {
        reveal(reading::objects_at);
    }
    assert(reading::live_cell(h1, t) == Some(id));
    reveal(lists::refilled);
    reveal(lists::agreed);
}

} // verus!
