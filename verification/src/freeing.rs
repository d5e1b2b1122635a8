//! Freeing objects.

use vstd::prelude::*;
use crate::bytes;
use crate::bytes::get_slots;
use crate::heap;
use crate::heap::{Event, Heap, HeapV, Link, StoreV, Work};
use crate::layout::{get_field, HEAD};
use crate::mirror;
use crate::object;
use crate::object::ExcFields;
use crate::reading;
use crate::keeping;
use crate::value::Object;
use crate::mirror::{is_faithful_builtin, is_faithful_bytearray, is_faithful_cfunction, is_faithful_list, is_faithful_method, is_faithful_set, is_faithful_slice, is_faithful_tuple, is_mirror, min_slots, size_of};
use crate::reading::catch_up;

verus! {

broadcast use vstd::std_specs::hash::group_hash_axioms;

/// The table without an entry, if the entry still leads to this object.
pub open spec fn evicted(m: Map<usize, usize>, key: usize, p: usize) -> Map<usize, usize> {
    if m.contains_key(key) && m[key] == p {
        m.remove(key)
    } else {
        m
    }
}

/// The sequence without an address.
pub open spec fn without(s: Seq<usize>, p: usize) -> Seq<usize>
    decreases s.len(),
{
    if s.len() == 0 {
        s
    } else if s.last() == p {
        without(s.drop_last(), p)
    } else {
        without(s.drop_last(), p).push(s.last())
    }
}

/// The references that a mirror owns: a list its live slots, a tuple its
/// slots and those recorded beside it, a method, a builtin and a slice their
/// fields.
pub open spec fn owned_refs(h: HeapV, p: usize) -> Seq<usize> {
    let s = h.mem[p];
    let t = h.facts.types;
    if mirror::list_at(h, p) {
        heap::nonnull(
            bytes::slots(s.aux, 0, mirror::at_most(mirror::var_size(s.tail), (s.aux.len() / 8) as int)),
        )
    } else if mirror::tuple_at(h, p) {
        heap::nonnull(mirror::tuple_ptrs_of(s)) + heap::nonnull(mirror::snapshot_of(s))
    } else if mirror::exactly(h, p, t.method_type) {
        heap::nonnull(seq![mirror::word_at(s.tail, 16) as usize, mirror::word_at(s.tail, 24) as usize])
    } else if mirror::exactly(h, p, t.cfunction_type) {
        heap::nonnull(seq![mirror::word_at(s.tail, 24) as usize])
    } else if mirror::exactly(h, p, t.slice_type) {
        heap::nonnull(
            seq![
                mirror::word_at(s.tail, 16) as usize,
                mirror::word_at(s.tail, 24) as usize,
                mirror::word_at(s.tail, 32) as usize,
            ],
        )
    } else {
        Seq::empty()
    }
}

/// References to release.
pub open spec fn refs(ps: Seq<usize>) -> Seq<Work> {
    ps.map_values(|p: usize| Work::Ref(p))
}

/// The destructor of an object is run, where it has one.
pub open spec fn destroyed(s: StoreV, p: usize) -> Seq<Event> {
    if s.destructor != 0 {
        seq![Event::Destroy(s.destructor, p)]
    } else {
        Seq::empty()
    }
}

/// The objects whose destructors are still to run, and this one where it has one.
pub open spec fn set_aside(
    m: Map<usize, StoreV>,
    s: StoreV,
    p: usize,
) -> Map<usize, StoreV> {
    if s.destructor != 0 {
        m.insert(p, s)
    } else {
        m
    }
}

/// The heap without an object and without any table entry that leads to it.
pub open spec fn removed(h: HeapV, p: usize) -> HeapV {
    let s = h.mem[p];
    let t = h.facts.types;
    HeapV {
        minted: h.minted.remove(p),
        seeded: if mirror::list_at(h, p) {
            h.seeded.remove(p)
        } else {
            h.seeded
        },
        lists: if mirror::list_at(h, p) {
            evicted(h.lists, s.obj.id, p)
        } else {
            h.lists
        },
        watched: if mirror::list_at(h, p) {
            without(h.watched, p)
        } else {
            h.watched
        },
        sets: if mirror::exactly(h, p, t.set_type) || mirror::exactly(h, p, t.frozenset_type) {
            evicted(h.sets, s.obj.id, p)
        } else {
            h.sets
        },
        bytearrays: if mirror::exactly(h, p, t.bytearray_type) {
            evicted(h.bytearrays, s.obj.id, p)
        } else {
            h.bytearrays
        },
        builtins: if mirror::exactly(h, p, t.cfunction_type) {
            evicted(h.builtins, s.obj.id, p)
        } else {
            h.builtins
        },
        mem: h.mem.remove(p),
        ending: set_aside(h.ending, s, p),
        heads: h.heads.remove(p),
        events: h.events + destroyed(s, p),
        ..h
    }
}

/// Free a mirror: the arguments that are tethered to it are let go, and what C
/// code wrote into a list is adopted first. Its destructor runs, then the references
/// that it owned are released, and then the VM is told.
pub open spec fn freed_mirror(h: HeapV, p: usize) -> (HeapV, Seq<Work>) {
    let h0 = HeapV { events: h.events.push(Event::Untether(p)), ..h };
    let h1 = if mirror::list_at(h0, p) {
        reading::caught_up(h0, p)
    } else {
        h0
    };
    (
        removed(h1, p),
        refs(owned_refs(h1, p)).push(Work::Tell(Event::Dropped(h1.mem[p].obj.id))),
    )
}

/// How many strong references the VM has to an instance.
pub open spec fn strong_refs(h: HeapV, id: usize) -> usize {
    if h.facts.strong@.contains_key(id) {
        h.facts.strong@[id]
    } else {
        0
    }
}

/// The object is the pinned object of an instance.
pub open spec fn pinned_box(h: HeapV, p: usize) -> bool {
    let s = h.mem[p];
    s.obj.val is Instance && h.c_body.contains_key(s.obj.id) && h.c_body[s.obj.id] == p
        && h.arg_pins.contains(p)
}

/// What is left to do when a plain object is freed: the references that its
/// exception fields own are released, then the VM is told, and then its destructor
/// runs.
pub open spec fn box_end(s: StoreV, p: usize) -> Seq<Work> {
    let own = refs(heap::nonnull(s.exc.owned())).push(Work::Tell(Event::Dropped(s.obj.id)));
    if s.destructor != 0 {
        own.push(Work::Tell(Event::Destroy(s.destructor, p)))
    } else {
        own
    }
}

/// Free a plain object.
pub open spec fn freed_box(h: HeapV, p: usize) -> (HeapV, Seq<Work>) {
    let s = h.mem[p];
    (
        HeapV {
            minted: h.minted.remove(p),
            c_body: if s.obj.val is Instance {
                evicted(h.c_body, s.obj.id, p)
            } else {
                h.c_body
            },
            properties: if s.obj.val is Property {
                evicted(h.properties, s.obj.id, p)
            } else {
                h.properties
            },
            arg_pins: if pinned_box(h, p) {
                without(h.arg_pins, p)
            } else {
                h.arg_pins
            },
            mem: h.mem.remove(p),
            ending: set_aside(h.ending, s, p),
            heads: h.heads.remove(p),
            ..h
        },
        box_end(s, p),
    )
}

/// An object lost its last reference. An extension's object is given to its
/// own deallocator, an instance body to its instance. A pinned scalar and the
/// pinned object of an instance that the VM still reaches stay. All else is
/// freed, and what is left to do comes with it.
pub open spec fn dropped(h: HeapV, p: usize) -> (HeapV, Seq<Work>) {
    let h0 = HeapV { events: h.events.push(Event::Forget(p)), ..h };
    if !h.minted.contains(p) || !h.mem.contains_key(p) {
        if h.raw_longs.contains(p) {
            (
                HeapV {
                    raw_longs: h.raw_longs.remove(p),
                    heads: h.heads.remove(p),
                    events: h0.events.push(Event::LibcFree(p)),
                    ..h
                },
                Seq::empty(),
            )
        } else if heap::type_at(h, p) != 0 {
            (HeapV { events: h0.events.push(Event::Dealloc(p)), ..h }, Seq::empty())
        } else {
            (h0, Seq::empty())
        }
    } else if !(h.mem[p].link is Unlinked) {
        (HeapV { events: h0.events.push(Event::ReleaseBody(p)), ..h }, Seq::empty())
    } else if mirror::mirror_at(h, p) {
        if h.mem[p].scalar_pinned {
            (h0, Seq::empty())
        } else {
            freed_mirror(h0, p)
        }
    } else if pinned_box(h, p) && strong_refs(h, h.mem[p].obj.id) > 1 {
        (h0, Seq::empty())
    } else {
        freed_box(h0, p)
    }
}

/// One reference less, and whether it was the last.
pub open spec fn decrefed(h: HeapV, p: usize) -> (HeapV, bool) {
    if p == 0 || !h.heads.contains_key(p) || object::immortal(h.heads[p].ob_refcnt)
        || h.heads[p].ob_refcnt == i64::MIN {
        (h, false)
    } else {
        let n = (h.heads[p].ob_refcnt - 1) as i64;
        (heap::with_refcnt(h, p, n), n == 0)
    }
}

/// Dropping an object frees at most that object.
pub proof fn lemma_dropped_shrinks(h: HeapV, p: usize)
    ensures
        dropped(h, p).0.facts == h.facts,
        dropped(h, p).0.mem == h.mem ==> dropped(h, p).1.len() == 0 && dropped(h, p).0.pending
            == h.pending,
        dropped(h, p).0.mem != h.mem ==> h.mem.contains_key(p) && dropped(h, p).0.mem.dom()
            == h.mem.dom().remove(p),
{
    let h0 = HeapV { events: h.events.push(Event::Forget(p)), ..h };
    if h.minted.contains(p) && h.mem.contains_key(p) {
        let h2 = HeapV { events: h0.events.push(Event::Untether(p)), ..h0 };
        keeping::lemma_caught_up_keeps(h2, p);
        let h1 = reading::caught_up(h2, p);
        assert(h1.mem.remove(p).dom() =~= h.mem.dom().remove(p));
        assert(h.mem.remove(p).dom() =~= h.mem.dom().remove(p));
        assert(!h1.mem.remove(p).contains_key(p));
        assert(!h.mem.remove(p).contains_key(p));
    }
}

/// Do what is left to do, the last thing first, and everything that comes of it.
pub open spec fn worked(h: HeapV, work: Seq<Work>) -> HeapV
    decreases h.mem.dom().len(), work.len() + h.pending.len(), h.pending.len(),
{
    if !h.mem.dom().finite() {
        h
    } else if work.len() == 0 {
        if h.pending.len() == 0 {
            h
        } else {
            worked(HeapV { pending: Seq::empty(), ..h }, refs(h.pending))
        }
    } else {
        let rest = work.drop_last();
        match work.last() {
            Work::Tell(e) => worked(HeapV { events: h.events.push(e), ..h }, rest),
            Work::Ref(p) => {
                let (h1, last) = decrefed(h, p);
                if !last {
                    worked(h1, rest)
                } else {
                    let (h2, more) = dropped(h1, p);
                    proof {
                        lemma_dropped_shrinks(h1, p);
                    }
                    worked(h2, rest + more.reverse())
                }
            },
        }
    }
}

/// Release references, the last one first, and everything that is freed by
/// that.
pub open spec fn released(h: HeapV, ps: Seq<usize>) -> HeapV {
    worked(h, refs(ps))
}

/// Releasing references changes nothing that the VM says.
pub proof fn lemma_worked_facts(h: HeapV, work: Seq<Work>)
    ensures
        worked(h, work).facts == h.facts,
    decreases h.mem.dom().len(), work.len() + h.pending.len(), h.pending.len(),
{
    if h.mem.dom().finite() {
        if work.len() == 0 {
            if h.pending.len() > 0 {
                lemma_worked_facts(HeapV { pending: Seq::empty(), ..h }, refs(h.pending));
            }
        } else {
            let rest = work.drop_last();
            match work.last() {
                Work::Tell(e) => {
                    lemma_worked_facts(HeapV { events: h.events.push(e), ..h }, rest);
                },
                Work::Ref(p) => {
                    let (h1, last) = decrefed(h, p);
                    if !last {
                        lemma_worked_facts(h1, rest);
                    } else {
                        let (h2, more) = dropped(h1, p);
                        lemma_dropped_shrinks(h1, p);
                        lemma_worked_facts(h2, rest + more.reverse());
                    }
                },
            }
        }
    }
}

/// Releasing one reference.
pub proof fn lemma_release_one(h: HeapV, p: usize)
    requires
        h.mem.dom().finite(),
    ensures
        released(h, seq![p]) == ({
            let (h1, last) = decrefed(h, p);
            if !last {
                worked(h1, Seq::empty())
            } else {
                let (h2, more) = dropped(h1, p);
                worked(h2, more.reverse())
            }
        }),
{
    let w = refs(seq![p]);
    assert(w =~= seq![Work::Ref(p)]);
    assert(w.drop_last() =~= Seq::<Work>::empty());
    let (h1, last) = decrefed(h, p);
    let (h2, more) = dropped(h1, p);
    assert(Seq::<Work>::empty() + more.reverse() =~= more.reverse());
}

fn evict(m: &mut std::collections::HashMap<usize, usize>, key: usize, p: usize)
    ensures
        final(m)@ == evicted(old(m)@, key, p),
{
    let hit: bool = match m.get(&key) {
        Some(q) => *q == p,
        None => false,
    };
    if hit {
        m.remove(&key);
    }
}

/// An object is no longer the one for its set, unless another one is by now.
pub fn unregister_set_box(h: &mut Heap, p: usize)
    requires
        old(h)@.mem.contains_key(p),
    ensures
        final(h)@ == (HeapV {
            sets: if old(h)@.mem[p].obj.val is PySet || old(h)@.mem[p].obj.val is FrozenSet {
                evicted(old(h)@.sets, old(h)@.mem[p].obj.id, p)
            } else {
                old(h)@.sets
            },
            ..old(h)@
        }),
{
    let key: Option<usize> = match h.store(p) {
        Some(s) => match s.obj.val {
            Object::PySet(_) | Object::FrozenSet(_) => Some(s.obj.id),
            _ => None,
        },
        None => None,
    };
    if let Some(id) = key {
        evict(&mut h.sets, id, p);
    }
    assert(h@ =~= (HeapV {
        sets: if old(h)@.mem[p].obj.val is PySet || old(h)@.mem[p].obj.val is FrozenSet {
            evicted(old(h)@.sets, old(h)@.mem[p].obj.id, p)
        } else {
            old(h)@.sets
        },
        ..old(h)@
    }));
}

/// An object is no longer the one for its byte array, unless another one is by now.
pub fn unregister_bytearray_box(h: &mut Heap, p: usize)
    requires
        old(h)@.mem.contains_key(p),
    ensures
        final(h)@ == (HeapV {
            bytearrays: if old(h)@.mem[p].obj.val is ByteArray {
                evicted(old(h)@.bytearrays, old(h)@.mem[p].obj.id, p)
            } else {
                old(h)@.bytearrays
            },
            ..old(h)@
        }),
{
    let key: Option<usize> = match h.store(p) {
        Some(s) => match s.obj.val {
            Object::ByteArray(_) => Some(s.obj.id),
            _ => None,
        },
        None => None,
    };
    if let Some(id) = key {
        evict(&mut h.bytearrays, id, p);
    }
    assert(h@ =~= (HeapV {
        bytearrays: if old(h)@.mem[p].obj.val is ByteArray {
            evicted(old(h)@.bytearrays, old(h)@.mem[p].obj.id, p)
        } else {
            old(h)@.bytearrays
        },
        ..old(h)@
    }));
}

/// An object is no longer the one for its list, unless another one is by now.
pub fn unregister_list_box(h: &mut Heap, p: usize)
    requires
        old(h)@.mem.contains_key(p),
    ensures
        final(h)@ == (HeapV {
            lists: if old(h)@.mem[p].obj.val is List {
                evicted(old(h)@.lists, old(h)@.mem[p].obj.id, p)
            } else {
                old(h)@.lists
            },
            ..old(h)@
        }),
{
    let key: Option<usize> = match h.store(p) {
        Some(s) => match s.obj.val {
            Object::List(_) => Some(s.obj.id),
            _ => None,
        },
        None => None,
    };
    if let Some(id) = key {
        evict(&mut h.lists, id, p);
    }
    assert(h@ =~= (HeapV {
        lists: if old(h)@.mem[p].obj.val is List {
            evicted(old(h)@.lists, old(h)@.mem[p].obj.id, p)
        } else {
            old(h)@.lists
        },
        ..old(h)@
    }));
}

/// An object is no longer the one for its builtin, unless another one is by now.
pub fn unregister_builtin_box(h: &mut Heap, p: usize)
    requires
        old(h)@.mem.contains_key(p),
    ensures
        final(h)@ == (HeapV {
            builtins: if old(h)@.mem[p].obj.val is Builtin {
                evicted(old(h)@.builtins, old(h)@.mem[p].obj.id, p)
            } else {
                old(h)@.builtins
            },
            ..old(h)@
        }),
{
    let key: Option<usize> = match h.store(p) {
        Some(s) => match s.obj.val {
            Object::Builtin => Some(s.obj.id),
            _ => None,
        },
        None => None,
    };
    if let Some(id) = key {
        evict(&mut h.builtins, id, p);
    }
    assert(h@ =~= (HeapV {
        builtins: if old(h)@.mem[p].obj.val is Builtin {
            evicted(old(h)@.builtins, old(h)@.mem[p].obj.id, p)
        } else {
            old(h)@.builtins
        },
        ..old(h)@
    }));
}

pub(crate) fn retain_not(s: &mut Vec<usize>, p: usize)
    ensures
        final(s)@ == without(old(s)@, p),
{
    let mut out: Vec<usize> = Vec::new();
    let mut i: usize = 0;
    assert(s@.subrange(0, 0) =~= Seq::<usize>::empty());
    while i < s.len()
        invariant
            i <= s@.len(),
            s@ == old(s)@,
            out@ == without(s@.subrange(0, i as int), p),
        decreases s.len() - i,
    {
        assert(s@.subrange(0, i + 1).drop_last() =~= s@.subrange(0, i as int));
        if s[i] != p {
            out.push(s[i]);
        }
        i = i + 1;
    }
    assert(s@.subrange(0, s@.len() as int) =~= s@);
    *s = out;
}

pub(crate) fn contains(s: &Vec<usize>, p: usize) -> (r: bool)
    ensures
        r == s@.contains(p),
{
    let mut i: usize = 0;
    while i < s.len()
        invariant
            i <= s@.len(),
            forall|k: int| 0 <= k < i ==> s@[k] != p,
        decreases s.len() - i,
    {
        if s[i] == p {
            return true;
        }
        i = i + 1;
    }
    false
}

fn word_ptr(tail: &Vec<u8>, off: usize) -> (r: usize)
    requires
        HEAD <= off,
    ensures
        r == mirror::word_at(tail@, off as int) as usize,
{
    #[verifier::truncate] (get_field(tail.as_slice(), off) as usize)
}

fn refs_of(h: &Heap, p: usize) -> (r: Vec<usize>)
    requires
        h@.mem.contains_key(p),
    ensures
        r@ == owned_refs(h@, p),
{
    let mut out: Vec<usize> = Vec::new();
    if let Some(s) = h.store(p) {
        if is_faithful_list(h, p) {
            let n: usize = min_slots(size_of(&s.tail), s.aux.len() / 8);
            heap::push_nonnull(&mut out, &get_slots(s.aux.as_slice(), 0, n));
            assert(out@ =~= owned_refs(h@, p));
        } else if is_faithful_tuple(h, p) {
            heap::push_nonnull(&mut out, &s.tuple_slots());
            heap::push_nonnull(&mut out, &s.snapshot());
            assert(out@ =~= owned_refs(h@, p));
        } else if is_faithful_method(h, p) {
            let mut ps: Vec<usize> = Vec::new();
            ps.push(word_ptr(&s.tail, 16));
            ps.push(word_ptr(&s.tail, 24));
            assert(ps@ =~= seq![mirror::word_at(s.tail@, 16) as usize, mirror::word_at(s.tail@, 24) as usize]);
            heap::push_nonnull(&mut out, &ps);
            assert(out@ =~= owned_refs(h@, p));
        } else if is_faithful_cfunction(h, p) {
            let mut ps: Vec<usize> = Vec::new();
            ps.push(word_ptr(&s.tail, 24));
            assert(ps@ =~= seq![mirror::word_at(s.tail@, 24) as usize]);
            heap::push_nonnull(&mut out, &ps);
            assert(out@ =~= owned_refs(h@, p));
        } else if is_faithful_slice(h, p) {
            let mut ps: Vec<usize> = Vec::new();
            ps.push(word_ptr(&s.tail, 16));
            ps.push(word_ptr(&s.tail, 24));
            ps.push(word_ptr(&s.tail, 32));
            assert(ps@ =~= seq![
                mirror::word_at(s.tail@, 16) as usize,
                mirror::word_at(s.tail@, 24) as usize,
                mirror::word_at(s.tail@, 32) as usize,
            ]);
            heap::push_nonnull(&mut out, &ps);
            assert(out@ =~= owned_refs(h@, p));
        }
    }
    out
}

/// The storage of an object is taken out, and kept where its destructor is still to
/// run.
pub(crate) fn take_out(h: &mut Heap, p: usize)
    requires
        old(h)@.mem.contains_key(p),
    ensures
        final(h)@ == (HeapV {
            mem: old(h)@.mem.remove(p),
            ending: set_aside(old(h)@.ending, old(h)@.mem[p], p),
            ..old(h)@
        }),
{
    if let Some(s) = h.take_store(p) {
        let ghost h1 = h@;
        if s.destructor != 0 {
            h.ending.insert(p, s);
            assert(h@.ending =~= h1.ending.insert(p, s@));
        }
    }
    assert(h@ =~= (HeapV {
        mem: old(h)@.mem.remove(p),
        ending: set_aside(old(h)@.ending, old(h)@.mem[p], p),
        ..old(h)@
    }));
}

/// The destructor of an object that is gone has run: its storage goes.
pub fn destructor_ran(h: &mut Heap, p: usize)
    ensures
        final(h)@ == (HeapV { ending: old(h)@.ending.remove(p), ..old(h)@ }),
{
    h.ending.remove(&p);
    assert(h@.ending =~= old(h)@.ending.remove(p));
    assert(h@ =~= (HeapV { ending: old(h)@.ending.remove(p), ..old(h)@ }));
}

fn remove_mirror(h: &mut Heap, p: usize)
    requires
        old(h)@.mem.contains_key(p),
    ensures
        final(h)@ == removed(old(h)@, p),
{
    let (id, destructor): (usize, usize) = match h.store(p) {
        Some(s) => (s.obj.id, s.destructor),
        None => {
            return;
        },
    };
    let list: bool = is_faithful_list(h, p);
    let set: bool = is_faithful_set(h, p);
    let bytearray: bool = is_faithful_bytearray(h, p);
    let builtin: bool = is_faithful_builtin(h, p);
    h.minted.remove(&p);
    if list {
        h.seeded.remove(&p);
        evict(&mut h.lists, id, p);
        retain_not(&mut h.watched, p);
    }
    if set {
        evict(&mut h.sets, id, p);
    }
    if bytearray {
        evict(&mut h.bytearrays, id, p);
    }
    if builtin {
        evict(&mut h.builtins, id, p);
    }
    if destructor != 0 {
        h.events.push(Event::Destroy(destructor, p));
    }
    h.heads.remove(&p);
    take_out(h, p);
    assert(h@ =~= removed(old(h)@, p));
}

/// Free a mirror. The references that it owned are left to release.
fn free_mirror_storage(h: &mut Heap, p: usize) -> (r: Vec<Work>)
    requires
        old(h)@.mem.contains_key(p),
    ensures
        (final(h)@, r@) == freed_mirror(old(h)@, p),
{
    h.events.push(Event::Untether(p));
    assert(h@ =~= (HeapV { events: old(h)@.events.push(Event::Untether(p)), ..old(h)@ }));
    if is_faithful_list(h, p) {
        catch_up(h, p);
    }
    let own: Vec<usize> = refs_of(h, p);
    let id: usize = match h.store(p) {
        Some(s) => s.obj.id,
        None => 0,
    };
    remove_mirror(h, p);
    let mut work: Vec<Work> = work_of(&own);
    work.push(Work::Tell(Event::Dropped(id)));
    work
}

fn work_of(ps: &Vec<usize>) -> (r: Vec<Work>)
    ensures
        r@ == refs(ps@),
{
    let mut out: Vec<Work> = Vec::new();
    let mut i: usize = 0;
    while i < ps.len()
        invariant
            i <= ps@.len(),
            out@ =~= refs(ps@.subrange(0, i as int)),
        decreases ps.len() - i,
    {
        out.push(Work::Ref(ps[i]));
        i = i + 1;
    }
    assert(ps@.subrange(0, ps@.len() as int) =~= ps@);
    out
}

fn free_plain(h: &mut Heap, p: usize) -> (r: Vec<Work>)
    requires
        old(h)@.mem.contains_key(p),
    ensures
        (final(h)@, r@) == freed_box(old(h)@, p),
{
    let mut out: Vec<usize> = Vec::new();
    let pinned: bool = is_pinned_box(h, p);
    let (id, destructor, exc, instance, property): (
        usize,
        usize,
        ExcFields,
        bool,
        bool,
    ) = match h.store(p) {
        Some(s) => (
            s.obj.id,
            s.destructor,
            s.exc,
            matches!(s.obj.val, Object::Instance(_)),
            matches!(s.obj.val, Object::Property(_)),
        ),
        None => {
            return Vec::new();
        },
    };
    heap::push_nonnull(&mut out, &exc.owned_fields());
    assert(out@ =~= heap::nonnull(exc.owned()));
    let mut work: Vec<Work> = work_of(&out);
    work.push(Work::Tell(Event::Dropped(id)));
    if destructor != 0 {
        work.push(Work::Tell(Event::Destroy(destructor, p)));
    }
    h.minted.remove(&p);
    if instance {
        evict(&mut h.c_body, id, p);
    }
    if property {
        evict(&mut h.properties, id, p);
    }
    if pinned {
        retain_not(&mut h.arg_pins, p);
    }
    h.heads.remove(&p);
    take_out(h, p);
    assert(h@ =~= freed_box(old(h)@, p).0);
    work
}

fn is_pinned_box(h: &Heap, p: usize) -> (r: bool)
    requires
        h@.mem.contains_key(p),
    ensures
        r == pinned_box(h@, p),
{
    match h.store(p) {
        Some(s) => {
            if !matches!(s.obj.val, Object::Instance(_)) {
                return false;
            }
            let hit: bool = match h.c_body.get(&s.obj.id) {
                Some(q) => *q == p,
                None => false,
            };
            hit && contains(&h.arg_pins, p)
        },
        None => false,
    }
}

pub(crate) fn strong_of(h: &Heap, id: usize) -> (r: usize)
    ensures
        r == strong_refs(h@, id),
{
    match h.facts.strong.get(&id) {
        Some(n) => *n,
        None => 0,
    }
}

/// An object lost its last reference: see to it that it is freed, parked or
/// given to its owner. What is left to do is returned, the first thing first.
pub fn free_box(h: &mut Heap, p: usize) -> (r: Vec<Work>)
    ensures
        (final(h)@, r@) == dropped(old(h)@, p),
{
    h.events.push(Event::Forget(p));
    let ghost h0 = HeapV { events: old(h)@.events.push(Event::Forget(p)), ..old(h)@ };
    assert(h@ =~= h0);
    let none: Vec<Work> = Vec::new();
    if !h.minted.contains(&p) || !h.mem.contains_key(&p) {
        if h.raw_longs.contains(&p) {
            h.raw_longs.remove(&p);
            h.heads.remove(&p);
            h.events.push(Event::LibcFree(p));
        } else if h.get_type(p) != 0 {
            h.events.push(Event::Dealloc(p));
        }
        assert(h@ =~= dropped(old(h)@, p).0);
        return none;
    }
    let (unlinked, pinned, id): (bool, bool, usize) = match h.store(p) {
        Some(s) => (matches!(s.link, Link::Unlinked), s.scalar_pinned, s.obj.id),
        None => {
            return none;
        },
    };
    if !unlinked {
        h.events.push(Event::ReleaseBody(p));
        assert(h@ =~= dropped(old(h)@, p).0);
        return none;
    }
    if is_mirror(h, p) {
        if pinned {
            return none;
        }
        return free_mirror_storage(h, p);
    }
    if is_pinned_box(h, p) && strong_of(h, id) > 1 {
        return none;
    }
    free_plain(h, p)
}

fn decref(h: &mut Heap, p: usize) -> (r: bool)
    ensures
        (final(h)@, r) == decrefed(old(h)@, p),
{
    if p == 0 {
        return false;
    }
    let head: object::PyObject = match h.heads.get(&p) {
        Some(o) => *o,
        None => {
            return false;
        },
    };
    if object::is_immortal_refcnt(head.ob_refcnt) || head.ob_refcnt == i64::MIN {
        return false;
    }
    let n: i64 = head.ob_refcnt - 1;
    h.heads.insert(p, object::PyObject { ob_refcnt: n, ob_type: head.ob_type });
    assert(h@ =~= decrefed(old(h)@, p).0);
    n == 0
}

pub(crate) fn push_reversed(work: &mut Vec<usize>, refs: &Vec<usize>)
    ensures
        final(work)@ == old(work)@ + refs@.reverse(),
{
    let n: usize = refs.len();
    let mut i: usize = n;
    assert(work@ =~= old(work)@ + refs@.reverse().subrange(0, 0));
    while i > 0
        invariant
            i <= n == refs@.len(),
            work@ == old(work)@ + refs@.reverse().subrange(0, n - i),
        decreases i,
    {
        i = i - 1;
        work.push(refs[i]);
        assert(work@ =~= old(work)@ + refs@.reverse().subrange(0, n - i));
    }
    assert(refs@.reverse().subrange(0, n as int) =~= refs@.reverse());
}

fn push_work(work: &mut Vec<Work>, more: &Vec<Work>)
    ensures
        final(work)@ == old(work)@ + more@.reverse(),
{
    let n: usize = more.len();
    let mut i: usize = n;
    assert(work@ =~= old(work)@ + more@.reverse().subrange(0, 0));
    while i > 0
        invariant
            i <= n == more@.len(),
            work@ == old(work)@ + more@.reverse().subrange(0, n - i),
        decreases i,
    {
        i = i - 1;
        work.push(more[i]);
        assert(work@ =~= old(work)@ + more@.reverse().subrange(0, n - i));
    }
    assert(more@.reverse().subrange(0, n as int) =~= more@.reverse());
}

fn work_off(h: &mut Heap, start: Vec<Work>)
    ensures
        final(h)@ == worked(old(h)@, start@),
{
    let mut work: Vec<Work> = start;
    while work.len() > 0 || h.pending.len() > 0
        invariant
            worked(h@, work@) == worked(old(h)@, start@),
        decreases h@.mem.dom().len(), work@.len() + h@.pending.len(), h@.pending.len(),
    {
        assert(h.mem@.dom().finite());
        assert(h@.mem.dom() =~= h.mem@.dom());
        if work.len() == 0 {
            let ghost before = h@;
            let mut left: Vec<usize> = Vec::new();
            std::mem::swap(&mut left, &mut h.pending);
            assert(h@ =~= (HeapV { pending: Seq::empty(), ..before }));
            work = work_of(&left);
        } else {
            let ghost w = work@;
            let ghost before = h@;
            let n: usize = work.len();
            let next: Work = work[n - 1];
            work.pop();
            assert(work@ =~= w.drop_last());
            match next {
                Work::Tell(e) => {
                    h.events.push(e);
                    assert(h@ =~= (HeapV { events: before.events.push(e), ..before }));
                },
                Work::Ref(p) => {
                    if decref(h, p) {
                        proof {
                            lemma_dropped_shrinks(h@, p);
                            assert(h@.mem.dom() =~= h.mem@.dom());
                        }
                        let more: Vec<Work> = free_box(h, p);
                        push_work(&mut work, &more);
                    }
                },
            }
        }
    }
    assert(h.mem@.dom().finite());
    assert(h@.mem.dom() =~= h.mem@.dom());
}

/// Release references, the last one first, and everything that is freed by
/// that.
pub fn release(h: &mut Heap, start: Vec<usize>)
    ensures
        final(h)@ == released(old(h)@, start@),
{
    let work: Vec<Work> = work_of(&start);
    work_off(h, work);
}

/// Free an object that lost its last reference, and do what comes of it, first to
/// last.
pub(crate) fn free_and_work(h: &mut Heap, p: usize)
    ensures
        final(h)@ == ({
            let (h1, more) = dropped(old(h)@, p);
            worked(h1, more.reverse())
        }),
{
    let more: Vec<Work> = free_box(h, p);
    let mut work: Vec<Work> = Vec::new();
    push_work(&mut work, &more);
    assert(work@ =~= more@.reverse());
    work_off(h, work);
}

/// Free a mirror, and do what comes of it, first to last.
pub open spec fn mirror_freed(h: HeapV, p: usize) -> HeapV {
    let (h1, more) = freed_mirror(h, p);
    worked(h1, more.reverse())
}

/// Free a mirror that C code no longer refers to.
pub fn free_mirror(h: &mut Heap, p: usize)
    requires
        old(h)@.mem.contains_key(p),
    ensures
        final(h)@ == mirror_freed(old(h)@, p),
{
    let more: Vec<Work> = free_mirror_storage(h, p);
    let mut work: Vec<Work> = Vec::new();
    push_work(&mut work, &more);
    assert(work@ =~= more@.reverse());
    work_off(h, work);
}

} // verus!
