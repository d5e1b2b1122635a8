//! Publishing VM lists to C code, and the objects that C code is handed.

use vstd::prelude::*;
use crate::crossing;
use crate::crossing::{copied, sync_bytearray_fields, type_for_object};
use crate::heap;
use crate::heap::{Digest, Heap, HeapV, ListSync, StoreV};
use crate::layout;
use crate::layout::set_field;
use crate::lists;
use crate::lists::{
    decref_one, get_list_slot, list_reserve, live_id, set_list_size, set_list_slot,
};
use crate::freeing;
use crate::mirror;
use crate::reading;
use crate::freeing::contains;
use crate::mirror::{digest_objects, is_faithful_dict, is_faithful_list, is_faithful_set, is_mirror, min_slots, size_of};
use crate::reading::catch_up;
use crate::outward;
use crate::outward::{cross, mirror_out_fresh_inner, cross_mirror};
use crate::pins;
use crate::pins::{enter_arg_pin, ArgPinGuard};
use crate::value;
use crate::value::{copy_natives, NatV, Native, ObjV, Object};

verus! {

broadcast use vstd::std_specs::hash::group_hash_axioms;

// ---------------------------------------------------------------------------
// One list
// ---------------------------------------------------------------------------

/// Let a slot of a list hold an object that just crossed. Where it is the object
/// that the slot holds already, the reference that crossing gave is released;
/// else the one that the slot held.
pub open spec fn slot_filled(h: HeapV, p: usize, i: int, old: usize, new: usize) -> HeapV {
    if new == old {
        if new != 0 {
            freeing::released(h, seq![new])
        } else {
            h
        }
    } else {
        let h1 = lists::changed(h, p, lists::with_slot(h.mem[p], i, new));
        if old != 0 {
            freeing::released(h1, seq![old])
        } else {
            h1
        }
    }
}

/// The slots of a list hold these objects, the first in the first slot.
pub open spec fn slots_filled(h: HeapV, p: usize, items: Seq<NatV>) -> HeapV
    decreases items.len(),
{
    if items.len() == 0 {
        h
    } else {
        let h1 = slots_filled(h, p, items.drop_last());
        let i = items.len() - 1;
        if h1.mem.contains_key(p) {
            let old = lists::slot_of(h1.mem[p], i);
            let (h2, new) = outward::out(h1, items.last());
            slot_filled(h2, p, i, old, new)
        } else {
            h1
        }
    }
}

/// The slots from one index up to another become NULL, and the references that
/// they held are released.
pub open spec fn slots_cleared(h: HeapV, p: usize, from: nat, to: nat) -> HeapV
    decreases to,
{
    if to <= from {
        h
    } else {
        let h1 = slots_cleared(h, p, from, (to - 1) as nat);
        if h1.mem.contains_key(p) {
            let old = lists::slot_of(h1.mem[p], to - 1);
            let h2 = lists::changed(h1, p, lists::with_slot(h1.mem[p], to - 1, 0));
            if old != 0 {
                freeing::released(h2, seq![old])
            } else {
                h2
            }
        } else {
            h1
        }
    }
}

/// A list was published: the digests are recorded, in the table of shared lists
/// where it is still there, and beside a list that was made from the VM.
pub open spec fn recorded(h: HeapV, p: usize, fp: Digest) -> HeapV {
    if !h.mem.contains_key(p) {
        h
    } else {
        let c = mirror::ptrs_digest(h.mem[p]);
        let h1 = if h.seeded.contains_key(p) {
            HeapV {
                seeded: h.seeded.insert(p, ListSync { rc_fp: Some(fp), c_ptrs: c }),
                ..h
            }
        } else {
            h
        };
        if h.mem[p].list_mint is Some {
            heap::with_store(h1, p, StoreV { list_mint: Some((c, fp)), ..h.mem[p] })
        } else {
            h1
        }
    }
}

/// Write what a VM list holds into the slots of its object.
pub open spec fn written(h: HeapV, p: usize, items: Seq<NatV>) -> HeapV {
    let n = items.len();
    let s = h.mem[p];
    let had = mirror::at_most(mirror::var_size(s.tail), (s.aux.len() / 8) as int);
    let h1 = if n > 0 {
        lists::reserved(h, p, n)
    } else {
        h
    };
    if n > 0 && !lists::roomy(h1.mem[p], n) {
        h1
    } else {
        let h2 = slots_cleared(slots_filled(h1, p, items), p, n, had);
        recorded(
            lists::changed(h2, p, lists::with_size(h2.mem[p], n)),
            p,
            mirror::objs_digest(items),
        )
    }
}

/// Publish a shared list: what C code wrote directly is adopted first, and a
/// list that did not change since it was last published is left alone. A list
/// that the VM never read is C's own and stays as it is.
pub open spec fn synced(h: HeapV, p: usize) -> HeapV {
    if !mirror::list_at(h, p) || !h.mem[p].list_synced {
        h
    } else {
        let h1 = reading::caught_up(h, p);
        match reading::live_cell(h1, h1.mem[p]) {
            None => h1,
            Some(id) => if h1.seeded.contains_key(p) && h1.seeded[p].rc_fp == Some(
                mirror::objs_digest(h1.cells[id]),
            ) {
                h1
            } else {
                written(h1, p, h1.cells[id])
            },
        }
    }
}

fn fill_slot(h: &mut Heap, p: usize, i: usize, old_ptr: usize, new: usize)
    ensures
        final(h)@ == slot_filled(old(h)@, p, i as int, old_ptr, new),
{
    if new == old_ptr {
        if new != 0 {
            decref_one(h, new);
        }
    } else {
        set_list_slot(h, p, i, new);
        if old_ptr != 0 {
            decref_one(h, old_ptr);
        }
    }
}

fn fill_slots(h: &mut Heap, p: usize, items: &Vec<Native>)
    ensures
        final(h)@ == slots_filled(old(h)@, p, value::seq_deep(items@)),
{
    let mut i: usize = 0;
    let ghost all = value::seq_deep(items@);
    proof {
        value::lemma_seq_deep(items@);
    }
    assert(all.subrange(0, 0) =~= Seq::<NatV>::empty());
    while i < items.len()
        invariant
            i <= items@.len(),
            all == value::seq_deep(items@),
            all.len() == items@.len(),
            h@ == slots_filled(old(h)@, p, all.subrange(0, i as int)),
        decreases items.len() - i,
    {
        proof {
            value::lemma_seq_deep(items@);
            assert(all[i as int] == items@[i as int]@);
            assert(all.subrange(0, i + 1).drop_last() =~= all.subrange(0, i as int));
        }
        if h.mem.contains_key(&p) {
            let old_ptr: usize = get_list_slot(h, p, i);
            let new: usize = cross(h, &items[i]);
            fill_slot(h, p, i, old_ptr, new);
        }
        i = i + 1;
    }
    assert(all.subrange(0, all.len() as int) =~= all);
}

fn clear_slots(h: &mut Heap, p: usize, from: usize, to: usize)
    ensures
        final(h)@ == slots_cleared(old(h)@, p, from as nat, to as nat),
{
    if to <= from {
        return;
    }
    let mut i: usize = from;
    while i < to
        invariant
            from <= i <= to,
            h@ == slots_cleared(old(h)@, p, from as nat, i as nat),
        decreases to - i,
    {
        if h.mem.contains_key(&p) {
            let old_ptr: usize = get_list_slot(h, p, i);
            set_list_slot(h, p, i, 0);
            if old_ptr != 0 {
                decref_one(h, old_ptr);
            }
        }
        i = i + 1;
    }
}

fn record(h: &mut Heap, p: usize, fp: Digest)
    ensures
        final(h)@ == recorded(old(h)@, p, fp),
{
    let (c, minted): (Digest, bool) = match h.store(p) {
        Some(s) => (s.list_digest(), s.list_mint.is_some()),
        None => {
            return;
        },
    };
    if h.seeded.contains_key(&p) {
        h.seeded.insert(p, ListSync { rc_fp: Some(fp), c_ptrs: c });
    }
    let ghost h1 = h@;
    if minted {
        if let Some(mut s) = h.take_store(p) {
            s.list_mint = Some((c, fp));
            h.put_store(p, s);
            assert(h@.mem =~= h1.mem.insert(p, s@));
        }
    }
    assert(h@ =~= recorded(old(h)@, p, fp));
}

fn write_list(h: &mut Heap, p: usize, items: &Vec<Native>)
    requires
        old(h)@.mem.contains_key(p),
    ensures
        final(h)@ == written(old(h)@, p, value::seq_deep(items@)),
{
    proof {
        value::lemma_seq_deep(items@);
    }
    let n: usize = items.len();
    let had: usize = match h.store(p) {
        Some(s) => min_slots(size_of(&s.tail), s.aux.len() / 8),
        None => 0,
    };
    if n > 0 && !list_reserve(h, p, n) {
        return;
    }
    fill_slots(h, p, items);
    clear_slots(h, p, n, had);
    set_list_size(h, p, n);
    record(h, p, digest_objects(items));
}

fn sync_one(h: &mut Heap, p: usize)
    ensures
        final(h)@ == synced(old(h)@, p),
{
    if !is_faithful_list(h, p) {
        return;
    }
    let shared: bool = match h.store(p) {
        Some(s) => s.list_synced,
        None => false,
    };
    if !shared {
        return;
    }
    catch_up(h, p);
    let id: usize = match live_id(h, p) {
        Some(id) => id,
        None => {
            return;
        },
    };
    let items: Vec<Native> = match h.cell(id) {
        Some(v) => copy_natives(v),
        None => {
            return;
        },
    };
    let fp: Digest = digest_objects(&items);
    let clean: bool = match h.seeded.get(&p) {
        Some(e) => e.rc_fp == Some(fp),
        None => false,
    };
    if !clean {
        write_list(h, p, &items);
    }
}

// ---------------------------------------------------------------------------
// Lists that are due
// ---------------------------------------------------------------------------

/// Publish the lists that are due, each once.
pub open spec fn published(h: HeapV, done: Seq<usize>) -> HeapV
    decreases usize::MAX - done.len(), h.due.len(),
{
    if h.due.len() == 0 || done.len() >= usize::MAX {
        h
    } else {
        let p = h.due[0];
        let h1 = HeapV { due: h.due.remove(0), ..h };
        if done.contains(p) {
            published(h1, done)
        } else {
            published(synced(h1, p), done.push(p))
        }
    }
}

/// Publish the lists that are due.
pub fn publish_due(h: &mut Heap)
    ensures
        final(h)@ == published(old(h)@, Seq::empty()),
{
    let mut done: Vec<usize> = Vec::new();
    while h.due.len() > 0 && done.len() < usize::MAX
        invariant
            published(h@, done@) == published(old(h)@, Seq::empty()),
        decreases usize::MAX - done@.len(), h@.due.len(),
    {
        let ghost h0 = h@;
        let p: usize = h.due.remove(0);
        assert(h@ =~= (HeapV { due: h0.due.remove(0), ..h0 }));
        if !contains(&done, p) {
            sync_one(h, p);
            done.push(p);
        }
    }
}

/// Publish a shared list.
pub fn sync_list_ob_item(h: &mut Heap, p: usize)
    ensures
        final(h)@ == published(synced(old(h)@, p), Seq::empty()),
{
    sync_one(h, p);
    publish_due(h);
}

// ---------------------------------------------------------------------------
// All shared lists
// ---------------------------------------------------------------------------

/// A shared list has something to publish or to adopt.
pub open spec fn dirty(h: HeapV, p: usize) -> bool {
    mirror::list_at(h, p) && h.mem[p].list_synced && h.seeded.contains_key(p) && {
        ||| h.seeded[p].c_ptrs != mirror::ptrs_digest(h.mem[p])
        ||| match reading::live_cell(h, h.mem[p]) {
            Some(id) => h.seeded[p].rc_fp != Some(mirror::objs_digest(h.cells[id])),
            None => false,
        }
    }
}

/// Those of these lists that have something to publish or to adopt.
pub open spec fn dirty_of(h: HeapV, ps: Seq<usize>) -> Seq<usize>
    decreases ps.len(),
{
    if ps.len() == 0 {
        ps
    } else if dirty(h, ps.last()) {
        dirty_of(h, ps.drop_last()).push(ps.last())
    } else {
        dirty_of(h, ps.drop_last())
    }
}

/// Publish these lists one after the other.
pub open spec fn all_synced(h: HeapV, ps: Seq<usize>) -> HeapV
    decreases ps.len(),
{
    if ps.len() == 0 {
        h
    } else {
        published(synced(all_synced(h, ps.drop_last()), ps.last()), Seq::empty())
    }
}

/// Adopt direct writes to these lists one after the other.
pub open spec fn all_reconciled(h: HeapV, ps: Seq<usize>) -> HeapV
    decreases ps.len(),
{
    if ps.len() == 0 {
        h
    } else {
        let h1 = all_reconciled(h, ps.drop_last());
        if h1.mem.contains_key(ps.last()) {
            reading::caught_up(h1, ps.last())
        } else {
            h1
        }
    }
}

/// The shared lists, each once, in some order.
pub open spec fn lists_in(h: HeapV, ps: Seq<usize>) -> bool {
    ps.no_duplicates() && ps.to_set() == h.seeded.dom()
}

fn shared_lists(h: &Heap) -> (r: Vec<usize>)
    ensures
        lists_in(h@, r@),
{
    let mut out: Vec<usize> = Vec::new();
    let ghost all = vstd::std_specs::iter::IteratorSpec::remaining(&h.seeded.keys());
    for k in iter: h.seeded.keys()
        invariant
            iter.seq() == all,
            out@.len() == iter.index(),
            forall|i: int| 0 <= i < out@.len() ==> out@[i] == *all[i],
    {
        out.push(*k);
    }
    assert(out@ =~= all.unref());
    assert forall|i: int, j: int| 0 <= i < out@.len() && 0 <= j < out@.len() && i != j implies out@[i]
        != out@[j] by {
        assert(all[i] != all[j]);
    }
    out
}

fn is_dirty(h: &Heap, p: usize) -> (r: bool)
    ensures
        r == dirty(h@, p),
{
    if !is_faithful_list(h, p) {
        return false;
    }
    let e: ListSync = match h.seeded.get(&p) {
        Some(e) => *e,
        None => {
            return false;
        },
    };
    let c: Digest = match h.store(p) {
        Some(s) => {
            if !s.list_synced {
                return false;
            }
            s.list_digest()
        },
        None => {
            return false;
        },
    };
    if e.c_ptrs != c {
        return true;
    }
    match live_id(h, p) {
        Some(id) => match h.cell(id) {
            Some(v) => e.rc_fp != Some(digest_objects(v)),
            None => false,
        },
        None => false,
    }
}

fn sync_all(h: &mut Heap, ps: &Vec<usize>)
    ensures
        final(h)@ == all_synced(old(h)@, ps@),
{
    let mut i: usize = 0;
    assert(ps@.subrange(0, 0) =~= Seq::<usize>::empty());
    while i < ps.len()
        invariant
            i <= ps@.len(),
            h@ == all_synced(old(h)@, ps@.subrange(0, i as int)),
        decreases ps.len() - i,
    {
        assert(ps@.subrange(0, i + 1).drop_last() =~= ps@.subrange(0, i as int));
        sync_list_ob_item(h, ps[i]);
        i = i + 1;
    }
    assert(ps@.subrange(0, ps@.len() as int) =~= ps@);
}

/// Publish those of these lists that have something to publish or to adopt.
pub fn flush_lists(h: &mut Heap, ps: &Vec<usize>)
    ensures
        final(h)@ == all_synced(old(h)@, dirty_of(old(h)@, ps@)),
{
    let mut todo: Vec<usize> = Vec::new();
    let mut i: usize = 0;
    assert(ps@.subrange(0, 0) =~= Seq::<usize>::empty());
    while i < ps.len()
        invariant
            i <= ps@.len(),
            h@ == old(h)@,
            todo@ == dirty_of(h@, ps@.subrange(0, i as int)),
        decreases ps.len() - i,
    {
        assert(ps@.subrange(0, i + 1).drop_last() =~= ps@.subrange(0, i as int));
        if is_dirty(h, ps[i]) {
            todo.push(ps[i]);
        }
        i = i + 1;
    }
    assert(ps@.subrange(0, ps@.len() as int) =~= ps@);
    sync_all(h, &todo);
}

/// Before C code runs: publish every shared list that has something to publish
/// or to adopt, in some order. Nothing happens where publishing is switched off.
pub fn flush_seeded_lists(h: &mut Heap, disabled: bool)
    ensures
        disabled ==> final(h)@ == old(h)@,
        !disabled ==> exists|ps: Seq<usize>| #[trigger]
            lists_in(old(h)@, ps) && final(h)@ == all_synced(old(h)@, dirty_of(old(h)@, ps)),
{
    if disabled {
        return;
    }
    let ps: Vec<usize> = shared_lists(h);
    flush_lists(h, &ps);
}

/// Adopt direct writes to these lists.
pub fn reconcile_lists(h: &mut Heap, ps: &Vec<usize>)
    ensures
        final(h)@ == all_reconciled(old(h)@, ps@),
{
    let mut i: usize = 0;
    assert(ps@.subrange(0, 0) =~= Seq::<usize>::empty());
    while i < ps.len()
        invariant
            i <= ps@.len(),
            h@ == all_reconciled(old(h)@, ps@.subrange(0, i as int)),
        decreases ps.len() - i,
    {
        assert(ps@.subrange(0, i + 1).drop_last() =~= ps@.subrange(0, i as int));
        if h.mem.contains_key(&ps[i]) {
            catch_up(h, ps[i]);
        }
        i = i + 1;
    }
    assert(ps@.subrange(0, ps@.len() as int) =~= ps@);
}

/// After C code ran: adopt what it wrote directly into shared lists, in some
/// order.
pub fn reconcile_seeded_lists(h: &mut Heap)
    ensures
        exists|ps: Seq<usize>| #[trigger]
            lists_in(old(h)@, ps) && final(h)@ == all_reconciled(old(h)@, ps),
{
    let ps: Vec<usize> = shared_lists(h);
    reconcile_lists(h, &ps);
}

/// Publish the watched lists, the oldest first.
pub fn sync_watched_lists(h: &mut Heap)
    ensures
        final(h)@ == all_synced(old(h)@, old(h)@.watched),
{
    let mut ps: Vec<usize> = Vec::new();
    let mut i: usize = 0;
    while i < h.watched.len()
        invariant
            i <= h.watched@.len(),
            ps@ == h.watched@.subrange(0, i as int),
        decreases h.watched.len() - i,
    {
        ps.push(h.watched[i]);
        i = i + 1;
        assert(ps@ =~= h.watched@.subrange(0, i as int));
    }
    assert(ps@ =~= h.watched@);
    sync_all(h, &ps);
}

// ---------------------------------------------------------------------------
// Sizes of containers
// ---------------------------------------------------------------------------

/// A dict or set now has so many entries: its object says so.
pub open spec fn counted(h: HeapV, p: usize, n: usize) -> HeapV {
    let t = h.facts.types;
    let s = h.mem[p];
    if !h.mem.contains_key(p) {
        h
    } else if mirror::exactly(h, p, t.dict_type) && s.obj.val is Dict && s.tail.len() >= 8 {
        heap::with_store(
            h,
            p,
            StoreV { tail: layout::with_field(s.tail, 16, n as u64), ..s },
        )
    } else if (mirror::exactly(h, p, t.set_type) || mirror::exactly(h, p, t.frozenset_type)) && (
    s.obj.val is PySet || s.obj.val is FrozenSet) && s.tail.len() >= 16 {
        heap::with_store(
            h,
            p,
            StoreV {
                obj: NatV {
                    id: s.obj.id,
                    val: if s.obj.val is PySet {
                        ObjV::PySet(n)
                    } else {
                        ObjV::FrozenSet(n)
                    },
                },
                tail: layout::with_field(layout::with_field(s.tail, 16, n as u64), 24, n as u64),
                ..s
            },
        )
    } else {
        h
    }
}

fn count_dict(h: &mut Heap, p: usize, n: usize) -> (r: bool)
    requires
        old(h)@.mem.contains_key(p),
        mirror::exactly(old(h)@, p, old(h)@.facts.types.dict_type),
    ensures
        ({
            let s = old(h)@.mem[p];
            r == (s.obj.val is Dict && s.tail.len() >= 8)
        }),
        r ==> final(h)@ == counted(old(h)@, p, n),
        !r ==> final(h)@ == old(h)@,
{
    let ghost h0 = h@;
    match h.store(p) {
        Some(s) => {
            if !matches!(s.obj.val, Object::Dict(_)) || s.tail.len() < 8 {
                return false;
            }
        },
        None => {
            return false;
        },
    }
    if let Some(mut s) = h.take_store(p) {
        set_field(&mut s.tail, 16, n as u64);
        h.put_store(p, s);
        assert(h@.mem =~= h0.mem.insert(p, s@));
    }
    true
}

fn count_set(h: &mut Heap, p: usize, n: usize) -> (r: bool)
    requires
        old(h)@.mem.contains_key(p),
    ensures
        ({
            let s = old(h)@.mem[p];
            &&& r == ((s.obj.val is PySet || s.obj.val is FrozenSet) && s.tail.len() >= 16)
            &&& r ==> final(h)@ == heap::with_store(
                old(h)@,
                p,
                StoreV {
                    obj: NatV {
                        id: s.obj.id,
                        val: if s.obj.val is PySet {
                            ObjV::PySet(n)
                        } else {
                            ObjV::FrozenSet(n)
                        },
                    },
                    tail: layout::with_field(
                        layout::with_field(s.tail, 16, n as u64),
                        24,
                        n as u64,
                    ),
                    ..s
                },
            )
        }),
        !r ==> final(h)@ == old(h)@,
{
    let ghost h0 = h@;
    let frozen: bool = match h.store(p) {
        Some(s) => {
            if s.tail.len() < 16 {
                return false;
            }
            match s.obj.val {
                Object::PySet(_) => false,
                Object::FrozenSet(_) => true,
                _ => {
                    return false;
                },
            }
        },
        None => {
            return false;
        },
    };
    if let Some(mut s) = h.take_store(p) {
        set_field(&mut s.tail, 16, n as u64);
        set_field(&mut s.tail, 24, n as u64);
        s.obj = Native {
            id: s.obj.id,
            val: if frozen {
                Object::FrozenSet(n)
            } else {
                Object::PySet(n)
            },
        };
        h.put_store(p, s);
        assert(h@.mem =~= h0.mem.insert(p, s@));
    }
    true
}

/// A dict now has so many entries: its object says so. Anything else stays as it
/// is.
pub fn sync_dict_ma_used(h: &mut Heap, p: usize, used: usize)
    ensures
        final(h)@ == (if mirror::exactly(old(h)@, p, old(h)@.facts.types.dict_type)
            && old(h)@.mem.contains_key(p) && old(h)@.mem[p].obj.val is Dict {
            counted(old(h)@, p, used)
        } else {
            old(h)@
        }),
{
    if is_faithful_dict(h, p) && h.mem.contains_key(&p) {
        count_dict(h, p, used);
    }
}

/// A set now has so many elements: its object says so. Anything else stays as it
/// is.
pub fn sync_set_used(h: &mut Heap, p: usize, used: usize)
    requires
        old(h)@.facts.types.dict_type != old(h)@.facts.types.set_type,
        old(h)@.facts.types.dict_type != old(h)@.facts.types.frozenset_type,
    ensures
        final(h)@ == (if mirror::exactly(old(h)@, p, old(h)@.facts.types.set_type)
            || mirror::exactly(old(h)@, p, old(h)@.facts.types.frozenset_type) {
            counted(old(h)@, p, used)
        } else {
            old(h)@
        }),
{
    if is_faithful_set(h, p) && h.mem.contains_key(&p) {
        count_set(h, p, used);
    }
}

/// A container may have changed: the object of a dict or set says how many
/// entries it has, and a list is published.
pub fn sync_container_size(h: &mut Heap, p: usize, used: usize)
    requires
        old(h)@.facts.types.dict_type != old(h)@.facts.types.set_type,
        old(h)@.facts.types.dict_type != old(h)@.facts.types.frozenset_type,
    ensures
        ({
            let t = old(h)@.facts.types;
            let o = old(h)@;
            final(h)@ == (if !mirror::mirror_at(o, p) {
                o
            } else if mirror::exactly(o, p, t.dict_type) {
                if o.mem.contains_key(p) && o.mem[p].obj.val is Dict {
                    counted(o, p, used)
                } else {
                    o
                }
            } else if mirror::exactly(o, p, t.set_type) || mirror::exactly(
                o,
                p,
                t.frozenset_type,
            ) {
                counted(o, p, used)
            } else {
                published(synced(o, p), Seq::empty())
            })
        }),
{
    if !is_mirror(h, p) {
        return;
    }
    if is_faithful_dict(h, p) {
        sync_dict_ma_used(h, p, used);
    } else if is_faithful_set(h, p) {
        sync_set_used(h, p, used);
    } else {
        sync_list_ob_item(h, p);
    }
}

/// Let the object of every one of these byte arrays show what the byte array
/// holds now.
pub open spec fn all_refreshed(h: HeapV, arrays: Seq<NatV>) -> HeapV
    decreases arrays.len(),
{
    if arrays.len() == 0 {
        h
    } else {
        let h1 = all_refreshed(h, arrays.drop_last());
        match crossing::entry(h1.bytearrays, arrays.last().id) {
            Some(p) => crossing::refreshed(h1, arrays.last(), p),
            None => h1,
        }
    }
}

/// After VM code ran: let the objects of the byte arrays show what they hold now.
pub fn sync_bytearray_boxes(h: &mut Heap, arrays: &Vec<Native>)
    ensures
        final(h)@ == all_refreshed(old(h)@, value::seq_deep(arrays@)),
{
    let mut i: usize = 0;
    let ghost all = value::seq_deep(arrays@);
    proof {
        value::lemma_seq_deep(arrays@);
    }
    assert(all.subrange(0, 0) =~= Seq::<NatV>::empty());
    while i < arrays.len()
        invariant
            i <= arrays@.len(),
            all == value::seq_deep(arrays@),
            all.len() == arrays@.len(),
            h@ == all_refreshed(old(h)@, all.subrange(0, i as int)),
        decreases arrays.len() - i,
    {
        proof {
            value::lemma_seq_deep(arrays@);
            assert(all[i as int] == arrays@[i as int]@);
            assert(all.subrange(0, i + 1).drop_last() =~= all.subrange(0, i as int));
        }
        if let Some(p) = copied(&h.bytearrays, arrays[i].id) {
            sync_bytearray_fields(h, &arrays[i], p);
        }
        i = i + 1;
    }
    assert(all.subrange(0, all.len() as int) =~= all);
}

// ---------------------------------------------------------------------------
// What C code is handed
// ---------------------------------------------------------------------------

/// An object crossed: the lists that are due then are published.
pub open spec fn handed(r: (HeapV, usize)) -> (HeapV, usize) {
    (published(r.0, Seq::empty()), r.1)
}

/// A VM object crosses as a mirror of its own type.
pub fn mirror_out(h: &mut Heap, n: &Native) -> (r: usize)
    ensures
        (final(h)@, r) == handed(
            outward::mirrored(old(h)@, n@, crossing::type_for(old(h)@, n@)),
        ),
{
    let ty: usize = type_for_object(h, n);
    mirror_out_with_type(h, n, ty)
}

/// A VM object crosses as a mirror of this type.
pub fn mirror_out_with_type(h: &mut Heap, n: &Native, ty: usize) -> (r: usize)
    ensures
        (final(h)@, r) == handed(outward::mirrored(old(h)@, n@, ty)),
{
    let p: usize = cross_mirror(h, n, ty);
    publish_due(h);
    p
}

/// A VM object crosses as a mirror that is shared with nothing.
pub fn mirror_out_unpinned(h: &mut Heap, n: &Native) -> (r: usize)
    ensures
        (final(h)@, r) == handed(
            outward::fresh_out(old(h)@, n@, crossing::type_for(old(h)@, n@), false),
        ),
{
    let ty: usize = type_for_object(h, n);
    let p: usize = mirror_out_fresh_inner(h, n, ty, false);
    publish_due(h);
    p
}

/// The tuple of the arguments of a call crosses: it is shared with nothing, and
/// its elements cross as arguments.
pub open spec fn args_out(h: HeapV, n: NatV) -> (HeapV, usize) {
    let inside = HeapV { arg_depth: pins::deeper(h.arg_depth), ..h };
    let (h1, p) = outward::fresh_out(inside, n, crossing::type_for(h, n), false);
    (HeapV { arg_depth: pins::less(h1.arg_depth, 1), ..h1 }, p)
}

/// The tuple of the arguments of a call crosses.
pub fn args_tuple_out(h: &mut Heap, n: &Native) -> (r: usize)
    ensures
        (final(h)@, r) == handed(args_out(old(h)@, n@)),
{
    let ty: usize = type_for_object(h, n);
    let scope: ArgPinGuard = enter_arg_pin(h);
    let p: usize = mirror_out_fresh_inner(h, n, ty, false);
    scope.leave(h);
    publish_due(h);
    p
}

} // verus!
