//! Reading neither makes nor frees objects.

use vstd::prelude::*;
use crate::heap;
use crate::heap::{HeapV, StoreV};
use crate::mirror;
use crate::reading;
use crate::value::{NatV, ObjV};
use crate::reading::LIST_DEPTH;

verus! {

broadcast use vstd::std_specs::hash::group_hash_axioms;

pub proof fn lemma_read_keeps(h: HeapV, ps: Seq<usize>, fuel: nat)
    ensures
        reading::same_objects(h, reading::read_ptrs(h, ps, fuel).0),
    decreases fuel, 1nat, ps.len(), 0nat,
{
    if ps.len() > 0 {
        lemma_read_keeps(h, ps.drop_last(), fuel);
        let h1 = reading::read_ptrs(h, ps.drop_last(), fuel).0;
        if ps.last() != 0 && fuel != 0 {
            lemma_resolve_keeps(h1, ps.last(), (fuel - 1) as nat);
        }
    }
}

pub proof fn lemma_adopted_keeps(h: HeapV, p: usize, id: usize, fuel: nat)
    requires
        h.mem.contains_key(p),
    ensures
        reading::same_objects(h, reading::adopted(h, p, id, fuel)),
    decreases fuel, 2nat, 0nat, 0nat,
{
    lemma_read_keeps(h, mirror::list_ptrs_of(h.mem[p]), fuel);
    assert(reading::adopted(h, p, id, fuel).mem.dom() =~= h.mem.dom());
}

pub proof fn lemma_reconciled_keeps(h: HeapV, p: usize, fuel: nat)
    requires
        h.mem.contains_key(p),
    ensures
        reading::same_objects(h, reading::reconciled(h, p, fuel)),
    decreases fuel, 3nat, 0nat, 0nat,
{
    if reading::written_by_c(h, p) {
        lemma_adopted_keeps(h, p, reading::live_cell(h, h.mem[p])->0, fuel);
    }
}

pub proof fn lemma_nested_keeps(h: HeapV, p: usize, depth: nat, fuel: nat)
    requires
        h.mem.contains_key(p),
    ensures
        reading::same_objects(h, reading::nested(h, p, depth, fuel)),
    decreases fuel, 4nat, 2 * (LIST_DEPTH - depth) + 1, 0nat,
{
    if depth < LIST_DEPTH && !h.seeded.is_empty() {
        lemma_nested_in_keeps(h, p, mirror::list_ptrs_of(h.mem[p]), depth, fuel);
    }
}

pub proof fn lemma_nested_in_keeps(h: HeapV, p: usize, ps: Seq<usize>, depth: nat, fuel: nat)
    ensures
        reading::same_objects(h, reading::nested_in(h, p, ps, depth, fuel)),
    decreases fuel, 4nat, 2 * (LIST_DEPTH - depth), ps.len(),
{
    if ps.len() > 0 && depth < LIST_DEPTH {
        lemma_nested_in_keeps(h, p, ps.drop_last(), depth, fuel);
        let h1 = reading::nested_in(h, p, ps.drop_last(), depth, fuel);
        let c = ps.last();
        if c != 0 && c != p && mirror::list_at(h1, c) {
            lemma_reconciled_keeps(h1, c, fuel);
            lemma_nested_keeps(reading::reconciled(h1, c, fuel), c, depth + 1, fuel);
        }
    }
}

pub proof fn lemma_increfed_keeps(h: HeapV, ps: Seq<usize>)
    ensures
        reading::same_objects(h, heap::all_increfed(h, ps)),
        heap::all_increfed(h, ps).mem == h.mem,
    decreases ps.len(),
{
    if ps.len() > 0 {
        lemma_increfed_keeps(h, ps.drop_last());
    }
}

pub proof fn lemma_recorded_keeps(h: HeapV, p: usize, ps: Seq<usize>, v: NatV)
    requires
        h.mem.contains_key(p),
    ensures
        reading::same_objects(h, reading::tuple_recorded(h, p, ps, v)),
{
    reveal(reading::tuple_recorded);
    let s = h.mem[p];
    let (h1, addr) = if s.aux.len() == 8 * ps.len() {
        (h, s.aux_addr)
    } else {
        heap::allocated(h, 8 * ps.len())
    };
    let h2 = heap::with_store(
        h1,
        p,
        StoreV { obj: v, aux: mirror::slot_bytes(ps), aux_addr: addr, ..s },
    );
    assert(h2.mem.dom() =~= h.mem.dom());
    let h3 = HeapV { pending: h2.pending + heap::nonnull(mirror::snapshot_of(s)), ..h2 };
    lemma_increfed_keeps(h3, ps);
}

pub proof fn lemma_valued_keeps(h: HeapV, p: usize, fuel: nat)
    requires
        h.mem.contains_key(p),
    ensures
        reading::same_objects(h, reading::valued(h, p, fuel)),
    decreases fuel, 5nat, 0nat, 0nat,
{
    reveal(reading::text_valued);
    reveal(reading::bytes_valued);
    let h1 = reading::text_valued(h, p);
    assert(h1.mem.dom() =~= h.mem.dom());
    let h2 = reading::bytes_valued(h1, p);
    assert(h2.mem.dom() =~= h.mem.dom());
    let ps = mirror::tuple_ptrs_of(h2.mem[p]);
    lemma_read_keeps(h2, ps, fuel);
    assert(reading::tuple_valued(h2, p, fuel).mem.dom() =~= h.mem.dom());
}

pub proof fn lemma_native_keeps(h: HeapV, p: usize, fuel: nat)
    requires
        h.mem.contains_key(p),
    ensures
        reading::same_objects(h, reading::native_v(h, p, fuel).0),
    decreases fuel, 6nat, 0nat, 0nat,
{
    let s = h.mem[p];
    if s.link is Dead {
    } else if s.link is Alive {
        lemma_valued_keeps(h, p, fuel);
        lemma_reconciled_keeps(reading::valued(h, p, fuel), p, fuel);
    } else if mirror::tuple_at(h, p) {
        let ps = mirror::tuple_ptrs_of(s);
        lemma_read_keeps(h, ps, fuel);
        let (h1, vals) = reading::read_ptrs(h, ps, fuel);
        let (h2, id) = heap::new_cell(h1);
        lemma_recorded_keeps(h2, p, ps, NatV { id, val: ObjV::Tuple(vals) });
    } else if mirror::list_at(h, p) {
        if !s.list_synced {
            let h1 = heap::with_store(h, p, StoreV { list_synced: true, ..s });
            assert(h1.mem.dom() =~= h.mem.dom());
            lemma_read_keeps(h1, mirror::list_ptrs_of(s), fuel);
            let (h2, vals) = reading::read_ptrs(h1, mirror::list_ptrs_of(s), fuel);
            assert(reading::filled(h2, p, vals).mem.dom() =~= h2.mem.dom());
        } else {
            lemma_reconciled_keeps(h, p, fuel);
            lemma_nested_keeps(reading::reconciled(h, p, fuel), p, 0, fuel);
        }
    } else {
        assert(reading::native_v(h, p, fuel).0.mem.dom() =~= h.mem.dom());
    }
}

/// Reading an object makes and frees no object.
pub proof fn lemma_resolve_keeps(h: HeapV, p: usize, fuel: nat)
    ensures
        reading::same_objects(h, reading::resolve(h, p, fuel).0),
    decreases fuel, 7nat, 0nat, 0nat,
{
    if h.mem.contains_key(p) {
        lemma_native_keeps(h, p, fuel);
    }
}

/// Adopting direct writes makes and frees no object.
pub proof fn lemma_caught_up_keeps(h: HeapV, p: usize)
    requires
        h.mem.contains_key(p),
    ensures
        reading::same_objects(h, reading::caught_up(h, p)),
{
    reveal(reading::caught_up);
    lemma_reconciled_keeps(h, p, reading::reach(h));
}

} // verus!
