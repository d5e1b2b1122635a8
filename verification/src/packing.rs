//! Bodies of instances: what C code finds in a body that the VM fills, and what a
//! body holds on to.

use vstd::prelude::*;
use vstd::arithmetic::power2::*;
use crate::bodies;
use crate::bytes;
use crate::crossing;
use crate::fields;
use crate::fields::{lemma_other_field, lemma_own_field};
use crate::freeing;
use crate::heap;
use crate::heap::{Event, HeapV, StoreV};
use crate::layout;
use crate::lists;
use crate::mirror;
use crate::outward;
use crate::pins;
use crate::publish;
use crate::reading;
use crate::value::{NatV, ObjV};

verus! {

/// The body of an instance of a subclass of tuple holds the number of its elements
/// and their objects, in their order.
pub proof fn law_tuple_subclass_is_filled(h: HeapV, p: usize, t: Seq<NatV>)
    requires
        bodies::tuple_of(h.mem[p]) == Some(t),
        outward::outs(h, t).0.mem.contains_key(p),
        outward::outs(h, t).0.mem[p].tail.len() >= 8 + 8 * outward::outs(h, t).1.len(),
        outward::outs(h, t).1.len() <= isize::MAX,
    ensures
        ({
            let g = bodies::tuple_packed(h, p);
            let ps = outward::outs(h, t).1;
            &&& mirror::tuple_ptrs_of(g.mem[p]) == ps
            &&& bytes::word(g.mem[p].tail, 0, 8) == ps.len()
        }),
{
    let (h1, ps) = outward::outs(h, t);
    let s = h1.mem[p];
    let a = layout::with_field(s.tail, 16, ps.len() as u64);
    let w = mirror::slot_bytes(ps);
    lemma_own_field(s.tail, 16, ps.len() as u64);
    bytes::lemma_flat_len(bytes::nats(ps), 8);
    bytes::lemma_word_beside(a, 8, w, 0, 8);
    bytes::lemma_slots_put(a, 8, ps);
    let g = bodies::tuple_packed(h, p);
    assert(g.mem[p].tail == bytes::put(a, 8, w));
    assert(layout::field(g.mem[p].tail, 16) == ps.len());
}

/// The body of an instance of a subclass of list holds the number of its elements,
/// the address of its slots, and in the slots their objects, in their order.
pub proof fn law_list_subclass_is_filled(s: StoreV, ps: Seq<usize>, at: usize)
    requires
        s.tail.len() >= 24,
        ps.len() <= isize::MAX,
        ps.len() > 0 ==> at != 0,
    ensures
        ({
            let g = bodies::packed_list(s, ps, at);
            &&& mirror::list_ptrs_of(g) == ps
            &&& bytes::word(g.tail, 16 - 16, 8) == ps.len()
            &&& bytes::word(g.tail, 24 - 16, 8) == (if ps.len() == 0 {
                0
            } else {
                at as nat
            })
            &&& bytes::word(g.tail, 32 - 16, 8) == ps.len()
            &&& ps.len() > 0 ==> g.aux_addr == at
            &&& g.obj == s.obj
        }),
{
    let g = bodies::packed_list(s, ps, at);
    let n = ps.len() as u64;
    let d = if ps.len() == 0 {
        0u64
    } else {
        at as u64
    };
    lemma_own_field(s.tail, 16, n);
    let a = layout::with_field(s.tail, 16, n);
    lemma_own_field(a, 24, d);
    lemma_other_field(a, 24, d, 16);
    let b = layout::with_field(a, 24, d);
    lemma_own_field(b, 32, n);
    lemma_other_field(b, 32, n, 16);
    lemma_other_field(b, 32, n, 24);
    assert(g.tail == layout::with_field(b, 32, n));
    if ps.len() > 0 {
        let w = mirror::slot_bytes(ps);
        bytes::lemma_flat_len(bytes::nats(ps), 8);
        assert(bytes::put(w, 0, w) =~= w);
        bytes::lemma_slots_put(w, 0, ps);
        assert(g.aux == w);
        assert((w.len() / 8) as int == ps.len());
        assert(mirror::list_ptrs_of(g) =~= ps);
    } else {
        assert(mirror::list_ptrs_of(g) =~= ps);
    }
}

/// A new body is of the size that was asked for, empty, of its type and with one
/// reference, and stands for its instance. No other object changes.
pub proof fn law_new_body(h: HeapV, ty: usize, want: nat, n: NatV, q: usize)
    requires
        bodies::body_made(h, ty, want, n).1 != 0,
    ensures
        ({
            let (g, p) = bodies::body_made(h, ty, want, n);
            &&& g.heads[p].ob_refcnt == 1
            &&& g.heads[p].ob_type == ty
            &&& g.minted.contains(p)
            &&& g.mem[p].obj == n
            &&& want >= 16 ==> g.mem[p].tail.len() == want - 16
            &&& forall|i: int| 0 <= i < g.mem[p].tail.len() ==> #[trigger] g.mem[p].tail[i] == 0
            &&& q != p ==> {
                &&& g.heads.contains_key(q) == h.heads.contains_key(q)
                &&& h.heads.contains_key(q) ==> g.heads[q] == h.heads[q]
                &&& g.mem.contains_key(q) == h.mem.contains_key(q)
                &&& h.mem.contains_key(q) ==> g.mem[q] == h.mem[q]
            }
            &&& p == h.next
            &&& g.next >= p + want
        }),
{
}

/// A body that refers to nothing is freed alone: it is gone, its destructor is run,
/// and every other object stays.
pub proof fn law_body_is_freed(h: HeapV, p: usize, q: usize)
    requires
        h.mem.contains_key(p),
        h.mem.dom().finite(),
        h.pending.len() == 0,
        !mirror::list_at(h, p),
        !mirror::tuple_at(h, p),
    ensures
        ({
            let g = bodies::body_freed(h, p);
            &&& !g.mem.contains_key(p)
            &&& !g.heads.contains_key(p)
            &&& !g.minted.contains(p)
            &&& h.mem[p].destructor != 0 ==> g.events == h.events.push(
                Event::Destroy(h.mem[p].destructor, p),
            )
            &&& h.mem[p].destructor == 0 ==> g.events == h.events
            &&& q != p ==> {
                &&& g.heads.contains_key(q) == h.heads.contains_key(q)
                &&& h.heads.contains_key(q) ==> g.heads[q] == h.heads[q]
                &&& g.mem.contains_key(q) == h.mem.contains_key(q)
                &&& h.mem.contains_key(q) ==> g.mem[q] == h.mem[q]
            }
        }),
{
    let refs = bodies::body_refs(h, p);
    assert(refs =~= Seq::<usize>::empty());
    assert(refs.reverse() =~= Seq::<usize>::empty());
    assert(freeing::refs(Seq::<usize>::empty()) =~= Seq::<heap::Work>::empty());
}

proof fn lemma_nonnull(s: Seq<usize>, p: usize)
    requires
        p != 0,
    ensures
        pins::times(heap::nonnull(s), p) == pins::times(s, p),
        pins::times(heap::nonnull(s), 0) == 0,
    decreases s.len(),
{
    if s.len() > 0 {
        lemma_nonnull(s.drop_last(), p);
        let front = heap::nonnull(s.drop_last());
        if s.last() != 0 {
            assert(front.push(s.last()).drop_last() =~= front);
        }
    }
}

/// The body of a tuple holds one reference for each time that an object stands in
/// it, and none for an empty place.
pub proof fn law_references_of_a_body(h: HeapV, p: usize, q: usize)
    requires
        mirror::tuple_at(h, p),
        !mirror::list_at(h, p),
        q != 0,
    ensures
        pins::times(bodies::body_refs(h, p), q) == pins::times(
            mirror::tuple_ptrs_of(h.mem[p]),
            q,
        ),
        pins::times(bodies::body_refs(h, p), 0) == 0,
{
    lemma_nonnull(mirror::tuple_ptrs_of(h.mem[p]), q);
}

/// An address is counted once for each place that holds it.
pub proof fn law_occurrences(s: Seq<usize>, t: Seq<usize>, p: usize, q: usize)
    ensures
        pins::times(s + t, p) == pins::times(s, p) + pins::times(t, p),
        pins::times(seq![p], p) == 1,
        q != p ==> pins::times(seq![q], p) == 0,
    decreases t.len(),
{
    reveal_with_fuel(pins::times, 2);
    assert(seq![p].drop_last() =~= Seq::<usize>::empty());
    assert(seq![q].drop_last() =~= Seq::<usize>::empty());
    if t.len() == 0 {
        assert(s + t =~= s);
    } else {
        law_occurrences(s, t.drop_last(), p, q);
        assert((s + t).drop_last() =~= s + t.drop_last());
        assert((s + t).last() == t.last());
    }
}

/// Storing into a tuple changes one of its elements.
pub proof fn law_tuple_element(s: StoreV, i: int, item: usize)
    requires
        0 <= i < mirror::tuple_ptrs_of(s).len(),
    ensures
        mirror::tuple_ptrs_of(lists::with_item(s, i, item)) == mirror::tuple_ptrs_of(s).update(
            i,
            item,
        ),
{
    let g = lists::with_item(s, i, item);
    let w = bytes::le_bytes(item as nat, 8);
    lemma2_to64_rest();
    bytes::lemma_le_bytes(item as nat, 8);
    bytes::lemma_word_beside(s.tail, 8 + 8 * i, w, 0, 8);
    let got = mirror::tuple_ptrs_of(g);
    let want = mirror::tuple_ptrs_of(s).update(i, item);
    assert(got.len() == want.len());
    assert forall|k: int| 0 <= k < want.len() implies got[k] == want[k] by {
        if k == i {
            bytes::lemma_word_put(s.tail, 8 + 8 * i, item as nat, 8);
        } else {
            bytes::lemma_word_beside(s.tail, 8 + 8 * i, w, 8 + 8 * k, 8);
        }
    }
    assert(got =~= want);
}

/// An element is stored exactly where the tuple has the index. The element that was
/// there loses the tuple's reference.
pub proof fn law_tuple_store(h: HeapV, p: usize, pos: i64, item: usize)
    ensures
        ({
            let ps = mirror::tuple_ptrs_of(h.mem[p]);
            let (g, done) = lists::tuple_stored(h, p, pos, item);
            let h1 = heap::with_store(h, p, lists::with_item(h.mem[p], pos as int, item));
            &&& done == (0 <= pos < ps.len())
            &&& !done ==> g == h
            &&& done && ps[pos as int] == 0 ==> g == h1
            &&& done && ps[pos as int] != 0 ==> g == freeing::released(h1, seq![ps[pos as int]])
        }),
{
}

/// A dict or a set says in its body how many elements it has; nothing else in the
/// body of a dict changes with that number.
pub proof fn law_container_size(h: HeapV, p: usize, n: usize, i: int)
    requires
        h.mem.contains_key(p),
        h.mem[p].tail.len() >= 16,
        (mirror::exactly(h, p, h.facts.types.dict_type) && h.mem[p].obj.val is Dict) || ((
        mirror::exactly(h, p, h.facts.types.set_type) || mirror::exactly(
            h,
            p,
            h.facts.types.frozenset_type,
        )) && (h.mem[p].obj.val is PySet || h.mem[p].obj.val is FrozenSet)),
    ensures
        ({
            let g = publish::counted(h, p, n);
            let t = g.mem[p].tail;
            &&& bytes::word(t, 16 - 16, 8) == n
            &&& !(h.mem[p].obj.val is Dict) ==> bytes::word(t, 24 - 16, 8) == n
            &&& t.len() == h.mem[p].tail.len()
            &&& 16 <= i < t.len() ==> t[i] == h.mem[p].tail[i]
            &&& g.mem[p].obj.id == h.mem[p].obj.id
            &&& h.mem[p].obj.val is PySet ==> g.mem[p].obj.val == ObjV::PySet(n)
            &&& h.mem[p].obj.val is FrozenSet ==> g.mem[p].obj.val == ObjV::FrozenSet(n)
            &&& h.mem[p].obj.val is Dict ==> g.mem[p].obj == h.mem[p].obj
            &&& g == heap::with_store(h, p, g.mem[p])
        }),
{
    let s = h.mem[p];
    let v = n as u64;
    lemma_own_field(s.tail, 16, v);
    let a = layout::with_field(s.tail, 16, v);
    lemma_own_field(a, 24, v);
    lemma_other_field(a, 24, v, 16);
    bytes::lemma_le_bytes(v as nat, 8);
    let g = publish::counted(h, p, n);
    assert(g.mem =~= h.mem.insert(p, g.mem[p]));
}

proof fn lemma_synced_one(h: HeapV, p: usize)
    ensures
        publish::all_synced(h, seq![p]) == publish::published(
            publish::synced(h, p),
            Seq::empty(),
        ),
        publish::all_reconciled(h, seq![p]) == (if h.mem.contains_key(p) {
            reading::caught_up(h, p)
        } else {
            h
        }),
{
    reveal_with_fuel(publish::all_synced, 2);
    reveal_with_fuel(publish::all_reconciled, 2);
    assert(seq![p].drop_last() =~= Seq::<usize>::empty());
    assert(seq![p].last() == p);
}

/// Lists are published and read back one after the other, each of them once for each
/// time that it is named.
pub proof fn law_lists_in_turn(h: HeapV, s: Seq<usize>, p: usize)
    ensures
        publish::all_synced(h, Seq::empty()) == h,
        publish::all_synced(h, s.push(p)) == publish::all_synced(
            publish::all_synced(h, s),
            seq![p],
        ),
        publish::all_synced(h, seq![p]) == publish::published(
            publish::synced(h, p),
            Seq::empty(),
        ),
        publish::all_reconciled(h, Seq::empty()) == h,
        publish::all_reconciled(h, s.push(p)) == publish::all_reconciled(
            publish::all_reconciled(h, s),
            seq![p],
        ),
        h.mem.contains_key(p) ==> publish::all_reconciled(h, seq![p]) == reading::caught_up(
            h,
            p,
        ),
        !h.mem.contains_key(p) ==> publish::all_reconciled(h, seq![p]) == h,
{
    lemma_synced_one(h, p);
    lemma_synced_one(publish::all_synced(h, s), p);
    lemma_synced_one(publish::all_reconciled(h, s), p);
    assert(s.push(p).drop_last() =~= s);
}

/// The lists that differ from what was last agreed on are picked out, each of them and
/// no other, in their order.
pub proof fn law_lists_that_differ(h: HeapV, s: Seq<usize>, t: Seq<usize>, p: usize)
    ensures
        publish::dirty_of(h, s + t) == publish::dirty_of(h, s) + publish::dirty_of(h, t),
        publish::dirty(h, p) ==> publish::dirty_of(h, seq![p]) == seq![p],
        !publish::dirty(h, p) ==> publish::dirty_of(h, seq![p]).len() == 0,
    decreases t.len(),
{
    reveal_with_fuel(publish::dirty_of, 2);
    assert(seq![p].drop_last() =~= Seq::<usize>::empty());
    assert(Seq::<usize>::empty().push(p) =~= seq![p]);
    if t.len() == 0 {
        assert(s + t =~= s);
        assert(publish::dirty_of(h, s) + publish::dirty_of(h, t) =~= publish::dirty_of(h, s));
    } else {
        law_lists_that_differ(h, s, t.drop_last(), p);
        assert((s + t).drop_last() =~= s + t.drop_last());
        assert((s + t).last() == t.last());
        assert(publish::dirty_of(h, s + t) =~= publish::dirty_of(h, s) + publish::dirty_of(h, t));
    }
}

/// The body of a list subclass whose list is alive is filled with the objects of the list,
/// in their order, where there is room for its slots.
pub proof fn law_live_list_fills_the_body(h: HeapV, p: usize, id: usize)
    requires
        reading::live_cell(h, h.mem[p]) == Some(id),
        heap::has_room(h, 8 * h.cells[id].len()),
        h.next != 0,
        ({
            let n = h.cells[id].len();
            let h1 = if n > 0 {
                heap::allocated(h, 8 * n).0
            } else {
                h
            };
            let (h2, ps) = outward::outs(h1, h.cells[id]);
            &&& h2.mem.contains_key(p)
            &&& h2.mem[p].tail.len() >= 24
            &&& ps.len() == n
            &&& n <= isize::MAX
        }),
    ensures
        ({
            let n = h.cells[id].len();
            let h1 = if n > 0 {
                heap::allocated(h, 8 * n).0
            } else {
                h
            };
            let ps = outward::outs(h1, h.cells[id]).1;
            let g = bodies::list_packed(h, p);
            &&& mirror::list_ptrs_of(g.mem[p]) == ps
            &&& g.mem[p].list_synced
            &&& g.seeded.contains_key(p)
        }),
{
    let n = h.cells[id].len();
    let (h1, at) = if n > 0 {
        heap::allocated(h, 8 * n)
    } else {
        (h, 0usize)
    };
    let (h2, ps) = outward::outs(h1, h.cells[id]);
    law_list_subclass_is_filled(h2.mem[p], ps, at);
}

/// The object of a byte array that changed shows its length, its capacity and where its
/// bytes are now. No other object changes.
pub proof fn law_byte_array_is_refreshed(h: HeapV, n: NatV, p: usize, q: usize)
    requires
        n.val is ByteArray,
        n.val->ByteArray_0.len() <= isize::MAX,
        h.mem.contains_key(p),
        h.mem[p].tail.len() == 56 - 16,
        h.facts.buffers@.contains_key(n.id),
    ensures
        ({
            let g = crossing::refreshed(h, n, p);
            let t = g.mem[p].tail;
            let len = n.val->ByteArray_0.len();
            let (at, cap) = h.facts.buffers@[n.id];
            &&& g.mem[p].obj == n
            &&& bytes::word(t, 16 - 16, 8) == len
            &&& bytes::word(t, 24 - 16, 8) == cap
            &&& len > 0 ==> bytes::word(t, 32 - 16, 8) == at && bytes::word(t, 40 - 16, 8) == at
            &&& len == 0 ==> bytes::word(t, 32 - 16, 8) == 0 && bytes::word(t, 40 - 16, 8) == 0
            &&& q != p && h.mem.contains_key(q) ==> g.mem[q] == h.mem[q]
            &&& g.heads == h.heads
        }),
{
    let b = n.val->ByteArray_0;
    let (at, cap) = h.facts.buffers@[n.id];
    fields::law_bytearray_body(h.mem[p].tail, b.len(), at, cap);
}

/// Byte arrays are brought up to date one after the other, each of them that has an object.
pub proof fn law_byte_arrays_in_turn(h: HeapV, s: Seq<NatV>, n: NatV)
    ensures
        publish::all_refreshed(h, Seq::empty()) == h,
        ({
            let h1 = publish::all_refreshed(h, s);
            &&& h1.bytearrays.contains_key(n.id) ==> publish::all_refreshed(h, s.push(n))
                == crossing::refreshed(h1, n, h1.bytearrays[n.id])
            &&& !h1.bytearrays.contains_key(n.id) ==> publish::all_refreshed(h, s.push(n)) == h1
        }),
{
    assert(s.push(n).drop_last() =~= s);
}

} // verus!
