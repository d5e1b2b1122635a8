//! What keeps an object alive and what lets it go: the tables of pins, the references
//! that an object holds, and the one object that stands for a VM object.

use vstd::prelude::*;
use crate::argpins;
use crate::bytes;
use crate::crossing;
use crate::fields::{lemma_other_field, lemma_own_field};
use crate::descriptors;
use crate::freeing;
use crate::heap;
use crate::heap::{Event, HeapV, ScalarPinKey, Work};
use crate::layout;
use crate::mirror;
use crate::object;
use crate::object::ExcFields;
use crate::outward;
use crate::pins;
use crate::value;
use crate::value::{NatV, ObjV};

verus! {

/// A pin that is taken out of the table is gone, and the others are found as before. A
/// pin that is put in is found.
pub proof fn law_pin_table(t: Seq<(ScalarPinKey, usize)>, k: ScalarPinKey, j: ScalarPinKey, p: usize)
    ensures
        pins::pin_at(Seq::empty(), k) is None,
        pins::pin_at(pins::pins_without(t, k), k) is None,
        j != k ==> pins::pin_at(pins::pins_without(t, k), j) == pins::pin_at(t, j),
        pins::pin_at(t.push((k, p)), k) == Some(p),
        j != k ==> pins::pin_at(t.push((k, p)), j) == pins::pin_at(t, j),
    decreases t.len(),
{
    assert(t.push((k, p)).drop_last() =~= t);
    if t.len() > 0 {
        law_pin_table(t.drop_last(), k, j, p);
        let front = pins::pins_without(t.drop_last(), k);
        assert(front.push(t.last()).drop_last() =~= front);
        assert(front.push(t.last()).last() == t.last());
    }
}

/// A value that is pinned is found under its key, and its object stays although nothing
/// refers to it. The bytes that pins hold grow by those of the value.
pub proof fn law_value_is_pinned(h: HeapV, k: ScalarPinKey, p: usize)
    requires
        h.mem.contains_key(p),
        pins::pin_at(h.pins, k) is None,
        pins::payload(h.mem[p].obj) + h.pin_bytes <= usize::MAX,
        !pins::sweep_due(h, pins::payload(h.mem[p].obj) as usize),
    ensures
        ({
            let g = pins::pinned(h, k, p);
            &&& pins::pin_at(g.pins, k) == Some(p)
            &&& g.mem[p].scalar_pinned
            &&& g.mem[p].obj == h.mem[p].obj
            &&& g.heads == h.heads
            &&& g.pin_bytes == h.pin_bytes + pins::payload(h.mem[p].obj)
        }),
{
    reveal(pins::pinned);
    law_pin_table(pins::pins_without(h.pins, k), k, k, p);
}

/// Two values have one key only where they are equal integers, floats of the same bits,
/// or one object of the VM.
pub proof fn law_keys_of_pins(a: NatV, b: NatV)
    requires
        pins::pin_key(a) is Some,
        pins::pin_key(a) == pins::pin_key(b),
    ensures
        a.val is Int ==> b.val == a.val,
        a.val is Float ==> b.val == a.val,
        !(a.val is Int || a.val is Float) ==> a.id == b.id,
        a.val is Str == b.val is Str,
        a.val is Bytes == b.val is Bytes,
        a.val is Tuple == b.val is Tuple,
        a.val is Long == b.val is Long,
        a.val is Complex == b.val is Complex,
{
}

/// What a pinned value weighs: five times its encoding for a text, its length for
/// bytes, and for a tuple sixteen for each element and what the elements weigh.
pub proof fn law_weight(s: Seq<NatV>, t: Seq<NatV>, n: NatV, id: usize)
    ensures
        n.val matches ObjV::Bytes(b) ==> pins::payload(n) == b.len(),
        n.val matches ObjV::Str(c) ==> pins::payload(n) == 5 * vstd::utf8::encode_utf8(c).len(),
        n.val is Int || n.val is Float || n.val is Long ==> pins::payload(n) == 16,
        pins::payload(NatV { id, val: ObjV::Tuple(Seq::empty()) }) == 0,
        pins::payload(NatV { id, val: ObjV::Tuple(s.push(n)) }) == pins::payload(
            NatV { id, val: ObjV::Tuple(s) },
        ) + 16 + pins::payload(n),
{
    assert(s.push(n).drop_last() =~= s);
    assert(s.push(n).last() == n);
    assert(pins::payloads(s.push(n)) == pins::payloads(s) + 16 + pins::payload(n));
    assert(pins::payloads(Seq::<NatV>::empty()) == 0);
}

/// The boxes that are kept for calls are sorted into those that are dead and those that
/// are not, each of them into one of the two, in their order.
pub proof fn law_boxes_are_sorted(h: HeapV, s: Seq<usize>, p: usize)
    ensures
        argpins::sorted_out(h, Seq::empty(), true).len() == 0,
        argpins::sorted_out(h, Seq::empty(), false).len() == 0,
        argpins::dead_box(h, p) ==> argpins::sorted_out(h, s.push(p), true)
            == argpins::sorted_out(h, s, true).push(p) && argpins::sorted_out(h, s.push(p), false)
            == argpins::sorted_out(h, s, false),
        !argpins::dead_box(h, p) ==> argpins::sorted_out(h, s.push(p), false)
            == argpins::sorted_out(h, s, false).push(p) && argpins::sorted_out(h, s.push(p), true)
            == argpins::sorted_out(h, s, true),
        heap::refcnt_at(h, p) > 0 ==> !argpins::dead_box(h, p),
{
    assert(s.push(p).drop_last() =~= s);
}

/// A box that is handed to a call is kept for it, once, and so are those that were kept
/// before.
pub proof fn law_box_is_kept(h: HeapV, p: usize)
    requires
        h.arg_pins.len() < argpins::INSTANCE_PIN_HWM,
    ensures
        ({
            let g = argpins::arg_pinned(h, p);
            &&& g.arg_pins.contains(p)
            &&& forall|q: usize| h.arg_pins.contains(q) ==> #[trigger] g.arg_pins.contains(q)
            &&& argpins::arg_pinned(g, p).arg_pins.len() == g.arg_pins.len()
                || g.arg_pins.len() >= argpins::INSTANCE_PIN_HWM
            &&& g == HeapV { arg_pins: g.arg_pins, ..h }
        }),
{
    reveal(argpins::arg_pinned);
    let g = argpins::arg_pinned(h, p);
    if !h.arg_pins.contains(p) {
        let t = h.arg_pins.push(p);
        assert(t[h.arg_pins.len() as int] == p);
        assert forall|q: usize| h.arg_pins.contains(q) implies #[trigger] t.contains(q) by {
            let i = choose|i: int| 0 <= i < h.arg_pins.len() && h.arg_pins[i] == q;
            assert(t[i] == q);
        }
    }
}

proof fn lemma_without(s: Seq<usize>, p: usize, q: usize)
    ensures
        !freeing::without(s, p).contains(p),
        q != p ==> freeing::without(s, p).contains(q) == s.contains(q),
    decreases s.len(),
{
    if s.len() > 0 {
        let front = s.drop_last();
        lemma_without(front, p, q);
        let f = freeing::without(front, p);
        let last = s.last();
        assert(s =~= front.push(last));
        assert forall|x: usize| #[trigger] s.contains(x) implies front.contains(x) || x == last by {
            let i = choose|i: int| 0 <= i < s.len() && s[i] == x;
            if i < front.len() {
                assert(front[i] == x);
            }
        }
        assert forall|x: usize| front.contains(x) || x == last implies #[trigger] s.contains(x) by {
            if front.contains(x) {
                let i = choose|i: int| 0 <= i < front.len() && front[i] == x;
                assert(s[i] == x);
            } else {
                assert(s[s.len() - 1] == x);
            }
        }
        if last != p {
            let g = f.push(last);
            assert forall|x: usize| #[trigger] g.contains(x) implies f.contains(x) || x == last by {
                let i = choose|i: int| 0 <= i < g.len() && g[i] == x;
                if i < f.len() {
                    assert(f[i] == x);
                }
            }
            assert forall|x: usize| f.contains(x) || x == last implies #[trigger] g.contains(x) by {
                if f.contains(x) {
                    let i = choose|i: int| 0 <= i < f.len() && f[i] == x;
                    assert(g[i] == x);
                } else {
                    assert(g[f.len() as int] == x);
                }
            }
        }
    }
}

/// A plain object that is freed is gone from every table, and every other object stays.
/// Its destructor is run where it has one, and the VM learns that it lost the object.
pub proof fn law_plain_object_is_freed(h: HeapV, p: usize, q: usize)
    requires
        h.mem.contains_key(p),
    ensures
        ({
            let (g, work) = freeing::freed_box(h, p);
            let s = h.mem[p];
            &&& !g.mem.contains_key(p)
            &&& !g.heads.contains_key(p)
            &&& !g.minted.contains(p)
            &&& s.obj.val is Instance ==> !(g.c_body.contains_key(s.obj.id)
                && g.c_body[s.obj.id] == p)
            &&& s.obj.val is Property ==> !(g.properties.contains_key(s.obj.id)
                && g.properties[s.obj.id] == p)
            &&& freeing::pinned_box(h, p) ==> !g.arg_pins.contains(p)
            &&& q != p ==> {
                &&& g.mem.contains_key(q) == h.mem.contains_key(q)
                &&& h.mem.contains_key(q) ==> g.mem[q] == h.mem[q]
                &&& g.heads.contains_key(q) == h.heads.contains_key(q)
                &&& h.heads.contains_key(q) ==> g.heads[q] == h.heads[q]
                &&& g.minted.contains(q) == h.minted.contains(q)
                &&& g.arg_pins.contains(q) == h.arg_pins.contains(q)
            }
            &&& work.contains(Work::Tell(Event::Dropped(s.obj.id)))
            &&& s.destructor != 0 ==> work.contains(Work::Tell(Event::Destroy(s.destructor, p)))
                && g.ending.contains_key(p)
        }),
{
    let s = h.mem[p];
    let own = freeing::refs(heap::nonnull(s.exc.owned()));
    let told = own.push(Work::Tell(Event::Dropped(s.obj.id)));
    assert(told[own.len() as int] == Work::Tell(Event::Dropped(s.obj.id)));
    let all = told.push(Work::Tell(Event::Destroy(s.destructor, p)));
    assert(all[own.len() as int] == Work::Tell(Event::Dropped(s.obj.id)));
    assert(all[told.len() as int] == Work::Tell(Event::Destroy(s.destructor, p)));
    lemma_without(h.arg_pins, p, q);
}

/// The numbers of places that hold an address.
proof fn lemma_counted(s: Seq<usize>, t: Seq<usize>, q: usize)
    ensures
        pins::times(s + t, q) == pins::times(s, q) + pins::times(t, q),
    decreases t.len(),
{
    if t.len() == 0 {
        assert(s + t =~= s);
    } else {
        lemma_counted(s, t.drop_last(), q);
        assert((s + t).drop_last() =~= s + t.drop_last());
        assert((s + t).last() == t.last());
    }
}

proof fn lemma_kept(s: Seq<usize>, q: usize)
    requires
        q != 0,
    ensures
        pins::times(heap::nonnull(s), q) == pins::times(s, q),
    decreases s.len(),
{
    if s.len() > 0 {
        lemma_kept(s.drop_last(), q);
        let front = heap::nonnull(s.drop_last());
        assert(front.push(s.last()).drop_last() =~= front);
    }
}

/// The word at an offset of an object.
pub open spec fn at(h: HeapV, p: usize, off: int) -> usize {
    mirror::word_at(h.mem[p].tail, off) as usize
}

/// How often an address stands in a field.
pub open spec fn once(a: usize, q: usize) -> nat {
    if a == q {
        1
    } else {
        0
    }
}

/// An object that is freed lets go of each object that its body points to, once for each
/// time: a tuple of its elements and of the elements that were recorded beside it, a
/// slice of its three bounds, a method of its function and its receiver, a builtin
/// function of what it is bound to.
pub proof fn law_references_of_an_object(h: HeapV, p: usize, q: usize)
    requires
        q != 0,
        !mirror::list_at(h, p),
    ensures
        ({
            let n = pins::times(freeing::owned_refs(h, p), q);
            let t = h.facts.types;
            if mirror::tuple_at(h, p) {
                n == pins::times(mirror::tuple_ptrs_of(h.mem[p]), q) + pins::times(
                    mirror::snapshot_of(h.mem[p]),
                    q,
                )
            } else if mirror::exactly(h, p, t.method_type) {
                n == once(at(h, p, 16), q) + once(at(h, p, 24), q)
            } else if mirror::exactly(h, p, t.cfunction_type) {
                n == once(at(h, p, 24), q)
            } else if mirror::exactly(h, p, t.slice_type) {
                n == once(at(h, p, 16), q) + once(at(h, p, 24), q) + once(at(h, p, 32), q)
            } else {
                n == 0
            }
        }),
{
    let a = at(h, p, 16);
    let b = at(h, p, 24);
    let c = at(h, p, 32);
    lemma_kept(mirror::tuple_ptrs_of(h.mem[p]), q);
    lemma_kept(mirror::snapshot_of(h.mem[p]), q);
    lemma_counted(
        heap::nonnull(mirror::tuple_ptrs_of(h.mem[p])),
        heap::nonnull(mirror::snapshot_of(h.mem[p])),
        q,
    );
    lemma_kept(seq![a, b], q);
    lemma_kept(seq![b], q);
    lemma_kept(seq![a, b, c], q);
    reveal_with_fuel(pins::times, 4);
    assert(seq![a, b].drop_last() =~= seq![a]);
    assert(seq![a].drop_last() =~= Seq::<usize>::empty());
    assert(seq![b].drop_last() =~= Seq::<usize>::empty());
    assert(seq![a, b, c].drop_last() =~= seq![a, b]);
}

/// A new box is of its type, with the references that it was made with, and stands for
/// its VM object. No other object changes.
pub proof fn law_new_box(h: HeapV, n: NatV, ty: usize, refcnt: i64, q: usize)
    requires
        crossing::boxed(h, n, ty, refcnt).1 != 0,
    ensures
        ({
            let (g, p) = crossing::boxed(h, n, ty, refcnt);
            &&& g.heads[p].ob_refcnt == refcnt
            &&& g.heads[p].ob_type == ty
            &&& g.minted.contains(p)
            &&& g.mem[p].obj == n
            &&& q != p ==> {
                &&& g.heads.contains_key(q) == h.heads.contains_key(q)
                &&& h.heads.contains_key(q) ==> g.heads[q] == h.heads[q]
                &&& g.mem.contains_key(q) == h.mem.contains_key(q)
                &&& h.mem.contains_key(q) ==> g.mem[q] == h.mem[q]
            }
        }),
{
}

/// A module crosses as one object however often it crosses, and so do a property and a
/// getter. Each time that a property crosses, its object has one more reference.
pub proof fn law_one_object_each(h: HeapV, n: NatV, m: value::PropV)
    ensures
        ({
            let (g, p) = crossing::module_box(h, n);
            p != 0 ==> crossing::module_box(g, n) == (g, p)
        }),
        ({
            let (g, p) = crossing::property_box(h, n);
            p != 0 ==> crossing::property_box(g, n) == (heap::increfed(g, p), p)
        }),
        ({
            let (g, p) = descriptors::getset_box(h, n, m);
            p != 0 ==> descriptors::getset_box(g, n, m) == (g, p)
        }),
{
    reveal(crossing::module_box);
    reveal(crossing::property_box);
    reveal(descriptors::getset_box);
    reveal(descriptors::described);
}

/// An instance with a body of its own crosses as that body, with one more reference. Any
/// other instance crosses as one object however often it crosses.
pub proof fn law_instance_is_one_object(h: HeapV, n: NatV, ty: usize, i: value::InstV)
    requires
        !h.facts.inline_types@.contains(ty),
    ensures
        i.body != 0 ==> outward::instance_out(h, n, ty, i) == (
            heap::increfed(h, i.body),
            i.body,
        ),
        i.body == 0 && h.c_body.contains_key(n.id) && h.arg_depth == 0 ==> outward::instance_out(
            h,
            n,
            ty,
            i,
        ) == (heap::increfed(h, h.c_body[n.id]), h.c_body[n.id]),
{
}

/// The box of an exception shows its arguments at offset 24 where they are one tuple. The
/// box of a `StopIteration` shows its value at offset 72, `None` where it has none.
pub proof fn law_exception_is_filled(h: HeapV, p: usize, i: value::InstV)
    requires
        i.exception,
        i.args.len() == 1 && i.args[0].val is Tuple,
        outward::outs(h, i.args).0.mem.contains_key(p),
        outward::outs(h, i.args).1.len() == 1,
        i.value.len() == 0,
    ensures
        ({
            let g = outward::exc_filled(h, p, i);
            let (h1, kids) = outward::outs(h, i.args);
            &&& g.mem.contains_key(p)
            &&& bytes::word(g.mem[p].tail, 24 - 16, 8) == kids[0]
            &&& bytes::word(g.mem[p].tail, 72 - 16, 8) == (if i.stop {
                h1.facts.singles.none.addr as nat
            } else {
                0
            })
            &&& g.mem[p].exc.args == kids[0]
            &&& g.heads == h1.heads
        }),
{
    let (h1, kids) = outward::outs(h, i.args);
    let e1 = ExcFields { args: kids[0], ..object::no_exc() };
    let e2 = ExcFields { value: h1.facts.singles.none.addr, ..e1 };
    let z = bytes::zeros((crossing::BOX_SIZE - layout::HEAD) as nat);
    lemma_own_field(z, 24, kids[0] as u64);
    let a = layout::with_field(z, 24, kids[0] as u64);
    lemma_own_field(a, 72, e1.value as u64);
    lemma_other_field(a, 72, e1.value as u64, 24);
    lemma_own_field(a, 72, e2.value as u64);
    lemma_other_field(a, 72, e2.value as u64, 24);
    reveal_with_fuel(outward::exc_filled, 2);
}

/// The last reference to a plain object frees it: the VM is told to forget it and loses
/// its own object.
pub proof fn law_last_reference_frees(h: HeapV, p: usize)
    requires
        p != 0,
        h.heads.contains_key(p),
        h.heads[p].ob_refcnt == 1,
        h.minted.contains(p),
        h.mem.contains_key(p),
        h.mem[p].link is Unlinked,
        h.mem[p].destructor == 0,
        h.mem[p].exc == object::no_exc(),
        !mirror::mirror_at(h, p),
        !h.arg_pins.contains(p),
        h.pending.len() == 0,
        h.mem.dom().finite(),
    ensures
        ({
            let g = freeing::released(h, seq![p]);
            &&& !g.mem.contains_key(p)
            &&& !g.heads.contains_key(p)
            &&& !g.minted.contains(p)
            &&& g.events == h.events.push(Event::Forget(p)).push(
                Event::Dropped(h.mem[p].obj.id),
            )
        }),
{
    freeing::lemma_release_one(h, p);
    let (h1, last) = freeing::decrefed(h, p);
    assert(last);
    let (h2, more) = freeing::dropped(h1, p);
    let s = h.mem[p];
    assert(h1.mem == h.mem);
    reveal_with_fuel(heap::nonnull, 10);
    let own = heap::nonnull(s.exc.owned());
    assert(s.exc.owned().drop_last() =~= seq![0usize]);
    assert(seq![0usize].drop_last() =~= Seq::<usize>::empty());
    assert(own.len() == 0);
    assert(more =~= seq![Work::Tell(Event::Dropped(s.obj.id))]);
    assert(more.reverse() =~= more);
    assert(more.drop_last() =~= Seq::<Work>::empty());
    reveal_with_fuel(freeing::worked, 3);
}

/// A value of a builtin type crosses as an object of that type. Any other object has the
/// type that the VM says, and without one it is a plain object.
pub proof fn law_type_of_a_value(h: HeapV, n: NatV)
    ensures
        ({
            let t = h.facts.types;
            let ty = crossing::type_for(h, n);
            &&& n.val is Float ==> ty == t.float_type
            &&& n.val is Int || n.val is Long ==> ty == t.long_type
            &&& n.val is Bool ==> ty == t.bool_type
            &&& n.val is Complex ==> ty == t.complex_type
            &&& n.val is Bytes ==> ty == t.bytes_type
            &&& n.val is ByteArray ==> ty == t.bytearray_type
            &&& n.val is Str || n.val is WStr ==> ty == t.unicode_type
            &&& n.val is Tuple ==> ty == t.tuple_type
            &&& n.val is List ==> ty == t.list_type
            &&& n.val is Dict ==> ty == t.dict_type
            &&& n.val is PySet ==> ty == t.set_type
            &&& n.val is FrozenSet ==> ty == t.frozenset_type
            &&& n.val is Builtin ==> ty == t.cfunction_type
            &&& n.val is BoundMethod ==> ty == t.method_type
            &&& n.val is Slice ==> ty == t.slice_type
            &&& n.val is MemoryView ==> ty == t.memoryview_type
            &&& mirror::obj_faithful(n.val) && ty != 0 ==> mirror::faithful(t, ty)
            &&& !mirror::obj_faithful(n.val) && h.facts.type_of@.contains_key(n.id) ==> ty
                == h.facts.type_of@[n.id]
            &&& !mirror::obj_faithful(n.val) && !h.facts.type_of@.contains_key(n.id) ==> ty
                == t.object_type
        }),
{
}

/// The pins that are swept are those whose objects nothing refers to, each of them, in
/// their order.
pub proof fn law_dead_pins_are_found(
    h: HeapV,
    s: Seq<(ScalarPinKey, usize)>,
    k: ScalarPinKey,
    p: usize,
)
    ensures
        pins::dead_pins(h, Seq::empty()).len() == 0,
        heap::refcnt_at(h, p) <= 0 ==> pins::dead_pins(h, s.push((k, p))) == pins::dead_pins(
            h,
            s,
        ).push((k, p)),
        heap::refcnt_at(h, p) > 0 ==> pins::dead_pins(h, s.push((k, p))) == pins::dead_pins(h, s),
{
    assert(s.push((k, p)).drop_last() =~= s);
}

/// A text that is interned is found again, and no other text is found in its place.
pub proof fn law_interned_text(t: Seq<(Seq<char>, usize)>, s: Seq<char>, p: usize, other: Seq<char>)
    ensures
        pins::interned_at(Seq::empty(), s) is None,
        pins::interned_at(t.push((s, p)), s) == Some(p),
        other != s ==> pins::interned_at(t.push((s, p)), other) == pins::interned_at(t, other),
{
    assert(t.push((s, p)).drop_last() =~= t);
}

/// A list that is freed lets go of each object in its slots, once for each slot.
pub proof fn law_references_of_a_list(h: HeapV, p: usize, q: usize)
    requires
        q != 0,
        mirror::list_at(h, p),
        mirror::word_at(h.mem[p].tail, 24) != 0,
    ensures
        pins::times(freeing::owned_refs(h, p), q) == pins::times(
            mirror::list_ptrs_of(h.mem[p]),
            q,
        ),
{
    lemma_kept(mirror::list_ptrs_of(h.mem[p]), q);
}

/// A body is filled with what the VM says of its object: its hash, -1 where the VM has
/// none, its buffer and its capacity, and for a builtin function its definition and
/// what it is bound to.
pub proof fn law_surroundings(h: HeapV, n: NatV, place: crossing::Place)
    ensures
        ({
            let e = crossing::env_at(h, n, place);
            let f = h.facts;
            &&& e.at == place.at
            &&& e.aux == place.aux
            &&& f.hashes@.contains_key(n.id) ==> e.hash == f.hashes@[n.id]
            &&& !f.hashes@.contains_key(n.id) ==> e.hash == -1
            &&& f.buffers@.contains_key(n.id) ==> (e.buffer, e.capacity) == f.buffers@[n.id]
            &&& f.extras@.contains_key(n.id) ==> (e.m_self, e.ml) == f.extras@[n.id]
            &&& !f.extras@.contains_key(n.id) ==> e.m_self == f.singles.none.addr && e.ml == 0
        }),
{
}

/// Which object a value crosses as. There is one object for a set, for a list, a byte array
/// and a builtin function of their own types, and for a truth value. A text crosses as
/// its interned object where texts are interned. Bytes, and in a call every other
/// immutable value, keep their object.
pub proof fn law_lanes(h: HeapV, n: NatV, ty: usize)
    ensures
        ({
            let l = crossing::lane(h, n, ty);
            let t = h.facts.types;
            &&& n.val matches ObjV::Bool(b) ==> l == crossing::Lane::Truth(b)
            &&& n.val is PySet || n.val is FrozenSet ==> l is OneSet
            &&& n.val is List ==> (l is OneList <==> ty == t.list_type)
            &&& n.val is ByteArray ==> (l is OneByteArray <==> ty == t.bytearray_type)
            &&& n.val is Builtin ==> l is OneBuiltin
            &&& n.val is Str && h.intern_depth > 0 && ty == t.unicode_type ==> l is Interned
            &&& (n.val is Int || n.val is Float || n.val is Long || n.val is Complex || n.val
                is Tuple || (n.val is Str && h.intern_depth == 0)) && h.arg_depth > 0 ==> Some(l)
                == match pins::pin_key(n) {
                Some(k) => Some(crossing::Lane::Pinned(k)),
                None => None,
            }
            &&& n.val is Bytes && ty == t.bytes_type ==> l is Pinned
            &&& (n.val is Int || n.val is Float || n.val is Long || n.val is Tuple) && h.arg_depth
                == 0 && ty != t.bytes_type ==> l is Fresh
            &&& n.val is Dict || n.val is Slice || n.val is MemoryView || n.val is BoundMethod
                ==> l is Fresh
        }),
{
}

} // verus!
