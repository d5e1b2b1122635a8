//! A list that the VM and C code share: whose changes count, and what the slots
//! hold after a change.

use vstd::prelude::*;
use crate::bytes;
use crate::fields;
use crate::freeing;
use crate::heap;
use crate::heap::{HeapV, StoreV};
use crate::layout;
use crate::layout::{HEAD, LIST_SIZE};
use crate::lists;
use crate::mirror;
use crate::publish;
use crate::reading;
use crate::value::{NatV, ObjV};

verus! {

broadcast use vstd::std_specs::hash::group_hash_axioms;

// ---------------------------------------------------------------------------
// Whose changes count
// ---------------------------------------------------------------------------

/// The VM list leads: while C code has not written into the slots since both
/// sides last agreed, nothing that the VM did to its list is undone.
pub proof fn law_vm_changes_stay(h: HeapV, p: usize, id: usize, vals: Seq<NatV>)
    requires
        h.seeded.contains_key(p),
        h.seeded[p].c_ptrs == mirror::ptrs_digest(h.mem[p]),
    ensures
        ({
            let g = reading::with_cell(h, id, vals);
            reading::caught_up(g, p) == g
        }),
{
    reveal(reading::caught_up);
}

/// What C code wrote directly into the slots becomes what the VM list holds, and
/// both sides agree on the slots.
pub proof fn law_direct_writes_are_adopted(h: HeapV, p: usize, id: usize)
    requires
        h.seeded.contains_key(p),
        h.seeded[p].c_ptrs != mirror::ptrs_digest(h.mem[p]),
        reading::live_cell(h, h.mem[p]) == Some(id),
    ensures
        ({
            let g = reading::caught_up(h, p);
            let (h1, vals) = reading::objects_at(h, mirror::list_ptrs_of(h.mem[p]));
            &&& g.cells[id] == vals
            &&& g.seeded[p].c_ptrs == mirror::ptrs_digest(h.mem[p])
            &&& g.seeded[p].rc_fp == Some(mirror::objs_digest(vals))
        }),
{
    reveal(reading::caught_up);
    reveal(reading::objects_at);
}

/// A list that only ever crossed once follows C code's writes as long as the VM
/// did not change it, and the VM list wins where it did.
pub proof fn law_minted_list_follows_one_side(h: HeapV, p: usize, id: usize)
    requires
        !h.seeded.contains_key(p),
        reading::live_cell(h, h.mem[p]) == Some(id),
        h.mem[p].list_mint is Some,
    ensures
        ({
            let (mint_c, mint_fp) = h.mem[p].list_mint->0;
            let g = reading::caught_up(h, p);
            &&& mirror::objs_digest(h.cells[id]) != mint_fp ==> g == h
            &&& mirror::ptrs_digest(h.mem[p]) == mint_c ==> g == h
            &&& mirror::objs_digest(h.cells[id]) == mint_fp && mirror::ptrs_digest(h.mem[p])
                != mint_c ==> g.cells[id] == reading::objects_at(
                h,
                mirror::list_ptrs_of(h.mem[p]),
            ).1
        }),
{
    reveal(reading::caught_up);
    reveal(reading::objects_at);
}

/// Once a list is published, it has nothing to publish or to adopt.
pub proof fn law_publishing_settles(h: HeapV, p: usize, id: usize)
    requires
        h.mem.contains_key(p),
        h.seeded.contains_key(p),
        reading::live_cell(h, h.mem[p]) == Some(id),
    ensures
        !publish::dirty(publish::recorded(h, p, mirror::objs_digest(h.cells[id])), p),
{
}

/// A shared list that has nothing to publish or to adopt is left alone.
pub proof fn law_clean_list_is_left_alone(h: HeapV, p: usize)
    requires
        mirror::list_at(h, p),
        h.mem[p].list_synced,
        h.seeded.contains_key(p),
        !publish::dirty(h, p),
    ensures
        publish::synced(h, p) == h,
{
    reveal(reading::caught_up);
}

/// A list that the VM never read is C's own, and publishing leaves it alone.
pub proof fn law_own_list_is_left_alone(h: HeapV, p: usize)
    requires
        h.mem.contains_key(p),
        !h.mem[p].list_synced,
    ensures
        publish::synced(h, p) == h,
{
}

/// After the API changed a list, both sides agree on it.
pub proof fn law_api_changes_agree(h: HeapV, p: usize)
    requires
        h.mem.contains_key(p),
    ensures
        !reading::written_by_c(lists::agreed(h, p), p),
        h.seeded.contains_key(p) ==> !publish::dirty(lists::agreed(h, p), p),
{
    reveal(lists::agreed);
}

/// A tuple whose slots C code changed stands for what its slots hold now.
pub proof fn law_written_tuple_is_read_again(h: HeapV, p: usize)
    requires
        mirror::tuple_at(h, p),
        h.mem[p].link is Unlinked,
        mirror::tuple_ptrs_of(h.mem[p]).len() > 0,
        mirror::snapshot_of(h.mem[p]) != mirror::tuple_ptrs_of(h.mem[p]),
    ensures
        reading::native_at(h, p).1.val == ObjV::Tuple(
            reading::objects_at(h, mirror::tuple_ptrs_of(h.mem[p])).1,
        ),
{
    reveal(reading::native_at);
    reveal(reading::objects_at);
}

/// An instance of a type that derives from the text type holds the text that its
/// body held when it was first read. Bytes that C code writes into the body
/// later change nothing.
pub proof fn law_text_is_read_once(h: HeapV, p: usize, text: Seq<char>, tail: Seq<u8>)
    requires
        h.mem.contains_key(p),
        h.mem[p].link is Alive,
        !h.mem[p].list_synced,
        reading::valueless(h.mem[p]),
        reading::derives(h.facts.text_kin@, h.facts.types.unicode_type, heap::type_at(h, p)),
        reading::body_text(h, p) == Some(text),
    ensures
        ({
            let (g, v) = reading::native_at(h, p);
            let g1 = heap::with_store(g, p, StoreV { tail, ..g.mem[p] });
            &&& v.id == h.mem[p].obj.id
            &&& v.val is Instance
            &&& v.val->Instance_0.native.len() == 1
            &&& v.val->Instance_0.native[0].val == ObjV::Str(text)
            &&& reading::native_at(g1, p) == (g1, v)
        }),
{
    reveal(reading::text_valued);
    reveal(reading::bytes_valued);
    reveal(reading::native_at);
}

/// An instance of a type that derives from the bytes type holds the bytes that
/// its body held when it was first read. Bytes that C code writes into the body
/// later change nothing.
pub proof fn law_bytes_are_read_once(h: HeapV, p: usize, data: Seq<u8>, tail: Seq<u8>)
    requires
        h.mem.contains_key(p),
        h.mem[p].link is Alive,
        !h.mem[p].list_synced,
        reading::valueless(h.mem[p]),
        !reading::derives(h.facts.text_kin@, h.facts.types.unicode_type, heap::type_at(h, p)),
        reading::derives(h.facts.bytes_kin@, h.facts.types.bytes_type, heap::type_at(h, p)),
        reading::bytes_in(h.mem[p].tail) == Some(data),
    ensures
        ({
            let (g, v) = reading::native_at(h, p);
            let g1 = heap::with_store(g, p, StoreV { tail, ..g.mem[p] });
            &&& v.id == h.mem[p].obj.id
            &&& v.val is Instance
            &&& v.val->Instance_0.native.len() == 1
            &&& v.val->Instance_0.native[0].val == ObjV::Bytes(data)
            &&& reading::native_at(g1, p) == (g1, v)
        }),
{
    reveal(reading::text_valued);
    reveal(reading::bytes_valued);
    reveal(reading::native_at);
}

// ---------------------------------------------------------------------------
// What the slots hold
// ---------------------------------------------------------------------------

/// The buffer of a list holds as many slots as the list has elements.
pub open spec fn whole(s: StoreV) -> bool {
    &&& s.tail.len() >= LIST_SIZE - HEAD
    &&& mirror::word_at(s.tail, 24) != 0
    &&& 8 * mirror::var_size(s.tail) <= s.aux.len()
}

/// A list with another size keeps its buffer.
pub proof fn lemma_resized(s: StoreV, n: nat)
    requires
        s.tail.len() >= LIST_SIZE - HEAD,
        n <= isize::MAX,
    ensures
        mirror::var_size(lists::with_size(s, n).tail) == n,
        mirror::word_at(lists::with_size(s, n).tail, 24) == mirror::word_at(s.tail, 24),
        lists::with_size(s, n).tail.len() == s.tail.len(),
        lists::with_size(s, n).aux == s.aux,
{
    fields::lemma_own_field(s.tail, 16, n as u64);
    fields::lemma_other_field(s.tail, 16, n as u64, 24);
}

/// Writing an address changes one slot.
pub proof fn lemma_slot_written(b: Seq<u8>, i: int, v: usize, k: int)
    requires
        0 <= i,
        0 <= k,
        8 * i + 8 <= b.len(),
        8 * k + 8 <= b.len(),
    ensures
        bytes::slot(bytes::put(b, 8 * i, bytes::le_bytes(v as nat, 8)), 8 * k) == (if k == i {
            v
        } else {
            bytes::slot(b, 8 * k)
        }),
{
    vstd::arithmetic::power2::lemma2_to64_rest();
    bytes::lemma_le_bytes(v as nat, 8);
    if k == i {
        bytes::lemma_word_put(b, 8 * i, v as nat, 8);
    } else {
        bytes::lemma_word_beside(b, 8 * i, bytes::le_bytes(v as nat, 8), 8 * k, 8);
    }
}

/// Appending adds one slot at the end and leaves the others alone.
pub proof fn law_append_adds_a_slot(s: StoreV, item: usize)
    requires
        whole(s),
        8 * (mirror::var_size(s.tail) + 1) <= s.aux.len(),
        mirror::var_size(s.tail) < isize::MAX,
    ensures
        ({
            let n = mirror::var_size(s.tail);
            mirror::list_ptrs_of(
                lists::with_size(lists::with_slot(s, n as int, item), (n + 1) as nat),
            ) == mirror::list_ptrs_of(s).push(item)
        }),
{
    let n = mirror::var_size(s.tail) as int;
    let a = lists::with_slot(s, n, item);
    lemma_resized(a, (n + 1) as nat);
    let t = lists::with_size(a, (n + 1) as nat);
    let got = mirror::list_ptrs_of(t);
    let want = mirror::list_ptrs_of(s).push(item);
    assert(got.len() == n + 1 && want.len() == n + 1);
    assert forall|k: int| 0 <= k < n + 1 implies got[k] == want[k] by {
        lemma_slot_written(s.aux, n, item, k);
    }
    assert(got =~= want);
}

/// Storing replaces one slot and leaves the others alone.
pub proof fn law_store_replaces_a_slot(s: StoreV, i: int, item: usize)
    requires
        whole(s),
        0 <= i < mirror::var_size(s.tail),
    ensures
        mirror::list_ptrs_of(lists::with_slot(s, i, item)) == mirror::list_ptrs_of(s).update(
            i,
            item,
        ),
{
    let got = mirror::list_ptrs_of(lists::with_slot(s, i, item));
    let want = mirror::list_ptrs_of(s).update(i, item);
    assert(got.len() == want.len());
    assert forall|k: int| 0 <= k < want.len() implies got[k] == want[k] by {
        lemma_slot_written(s.aux, i, item, k);
    }
    assert(got =~= want);
}

/// Writing a run of addresses changes the slots that it covers.
pub proof fn lemma_run_written(b: Seq<u8>, at: int, run: Seq<usize>, k: int)
    requires
        0 <= at,
        0 <= k,
        8 * (at + run.len()) <= b.len(),
        8 * k + 8 <= b.len(),
    ensures
        bytes::slot(bytes::put(b, 8 * at, mirror::slot_bytes(run)), 8 * k) == (if at <= k < at
            + run.len() {
            run[k - at]
        } else {
            bytes::slot(b, 8 * k)
        }),
{
    let w = mirror::slot_bytes(run);
    bytes::lemma_flat_len(bytes::nats(run), 8);
    if at <= k < at + run.len() {
        bytes::lemma_slots_put(b, 8 * at, run);
        assert(bytes::slots(bytes::put(b, 8 * at, w), 8 * at, run.len())[k - at] == run[k - at]);
    } else {
        bytes::lemma_word_beside(b, 8 * at, w, 8 * k, 8);
    }
}

/// Inserting moves the slots behind it up by one and leaves the others alone.
pub proof fn law_insert_moves_slots_up(s: StoreV, at: nat, item: usize)
    requires
        whole(s),
        at <= mirror::var_size(s.tail),
        8 * (mirror::var_size(s.tail) + 1) <= s.aux.len(),
        mirror::var_size(s.tail) < isize::MAX,
    ensures
        ({
            let n = mirror::var_size(s.tail) as nat;
            mirror::list_ptrs_of(
                lists::with_size(lists::with_inserted(s, at, n, item), n + 1),
            ) == mirror::list_ptrs_of(s).insert(at as int, item)
        }),
{
    let n = mirror::var_size(s.tail) as nat;
    let run = seq![item] + lists::slots_from(s, at, n);
    let a = lists::with_inserted(s, at, n, item);
    lemma_resized(a, n + 1);
    let got = mirror::list_ptrs_of(lists::with_size(a, n + 1));
    let want = mirror::list_ptrs_of(s).insert(at as int, item);
    assert(a.aux.len() == s.aux.len());
    assert(got.len() == n + 1 && want.len() == n + 1);
    assert forall|k: int| 0 <= k < n + 1 implies got[k] == want[k] by {
        lemma_run_written(s.aux, at as int, run, k);
        if k > at {
            assert(run[k - at] == lists::slots_from(s, at, n)[k - at - 1]);
        }
    }
    assert(got =~= want);
}

/// A larger buffer holds the same elements.
pub proof fn law_growing_keeps_slots(s: StoreV, cap: nat, at: usize)
    requires
        whole(s),
        mirror::var_size(s.tail) <= cap,
        cap <= isize::MAX,
        at != 0,
    ensures
        mirror::list_ptrs_of(lists::regrown(s, cap, at)) == mirror::list_ptrs_of(s),
        whole(lists::regrown(s, cap, at)),
{
    let t = s.tail;
    fields::lemma_own_field(t, 24, at as u64);
    fields::lemma_other_field(t, 24, at as u64, 16);
    let t1 = layout::with_field(t, 24, at as u64);
    fields::lemma_own_field(t1, 32, cap as u64);
    fields::lemma_other_field(t1, 32, cap as u64, 16);
    fields::lemma_other_field(t1, 32, cap as u64, 24);
    let ps = mirror::list_ptrs_of(s);
    assert(ps.take(ps.len() as int) =~= ps);
    let z = bytes::zeros(8 * cap);
    let r = lists::regrown(s, cap, at);
    bytes::lemma_slots_put(z, 0, ps);
    assert(r.aux == bytes::put(z, 0, mirror::slot_bytes(ps)));
    assert(mirror::list_ptrs_of(r) =~= ps);
}

/// A list that grows gets at least twice the room that it had, and room for at
/// least six more elements than it needs.
pub proof fn law_growing_is_geometric(min: nat, now: nat)
    ensures
        lists::grown_room(min, now) >= min,
        lists::grown_room(min, now) >= 2 * now,
        lists::grown_room(min, now) >= min + 6,
{
}

// ---------------------------------------------------------------------------
// The end of an object
// ---------------------------------------------------------------------------

/// When an object goes, a table entry that leads to another object stays: a late
/// end does not take away the object that took its place.
pub proof fn law_late_end_spares_the_successor(m: Map<usize, usize>, key: usize, p: usize, q: usize)
    requires
        m.contains_key(key),
        m[key] == q,
        q != p,
    ensures
        freeing::evicted(m, key, p) == m,
{
}

/// An object that was freed is gone: its storage, its head and every table entry
/// that led to it under its own cell.
pub proof fn law_freed_object_is_gone(h: HeapV, p: usize)
    ensures
        ({
            let g = freeing::removed(h, p);
            let id = h.mem[p].obj.id;
            &&& !g.mem.contains_key(p)
            &&& !g.heads.contains_key(p)
            &&& !g.minted.contains(p)
            &&& mirror::list_at(h, p) ==> !g.seeded.contains_key(p) && !(g.lists.contains_key(id)
                && g.lists[id] == p)
            &&& mirror::exactly(h, p, h.facts.types.bytearray_type) ==> !(
            g.bytearrays.contains_key(id) && g.bytearrays[id] == p)
            &&& mirror::exactly(h, p, h.facts.types.set_type) ==> !(g.sets.contains_key(id)
                && g.sets[id] == p)
            &&& mirror::exactly(h, p, h.facts.types.cfunction_type) ==> !(
            g.builtins.contains_key(id) && g.builtins[id] == p)
        }),
{
}

/// An object that loses its last reference while it is pinned stays.
pub proof fn law_pinned_object_outlives_its_references(h: HeapV, p: usize)
    requires
        h.minted.contains(p),
        h.mem.contains_key(p),
        h.mem[p].link is Unlinked,
        mirror::mirror_at(h, p),
        h.mem[p].scalar_pinned,
    ensures
        freeing::dropped(h, p).0.mem == h.mem,
        freeing::dropped(h, p).0.heads == h.heads,
        freeing::dropped(h, p).1.len() == 0,
{
}

} // verus!
