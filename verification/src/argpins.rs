//! Instances that crossed as arguments: their objects stay while the VM can
//! still reach them.

use vstd::prelude::*;
use crate::heap;
use crate::heap::{Heap, HeapV};
use crate::freeing;
use crate::freeing::{contains, free_and_work, strong_of};
use crate::value::Object;

verus! {

broadcast use vstd::std_specs::hash::group_hash_axioms;

/// So many pinned instances make a sweep due.
pub const INSTANCE_PIN_HWM: usize = 65536;

/// A pinned object can go: C code does not refer to it, and nothing but it
/// refers to its instance.
pub open spec fn dead_box(h: HeapV, p: usize) -> bool {
    heap::refcnt_at(h, p) <= 0 && (h.mem.contains_key(p) && h.mem[p].obj.val is Instance
        ==> freeing::strong_refs(h, h.mem[p].obj.id) <= 1)
}

/// Whether a pinned object can go.
pub fn pinned_box_is_dead(h: &Heap, p: usize) -> (r: bool)
    ensures
        r == dead_box(h@, p),
{
    if h.get_refcnt(p) > 0 {
        return false;
    }
    match h.store(p) {
        Some(s) => match &s.obj.val {
            Object::Instance(_) => strong_of(h, s.obj.id) <= 1,
            _ => true,
        },
        None => true,
    }
}

/// The pinned objects that can go, or those that stay.
pub open spec fn sorted_out(h: HeapV, ps: Seq<usize>, dead: bool) -> Seq<usize>
    decreases ps.len(),
{
    if ps.len() == 0 {
        ps
    } else if dead_box(h, ps.last()) == dead {
        sorted_out(h, ps.drop_last(), dead).push(ps.last())
    } else {
        sorted_out(h, ps.drop_last(), dead)
    }
}

fn pick(h: &Heap, dead: bool) -> (r: Vec<usize>)
    ensures
        r@ == sorted_out(h@, h@.arg_pins, dead),
{
    let mut out: Vec<usize> = Vec::new();
    let mut i: usize = 0;
    assert(h.arg_pins@.subrange(0, 0) =~= Seq::<usize>::empty());
    while i < h.arg_pins.len()
        invariant
            i <= h.arg_pins@.len(),
            out@ == sorted_out(h@, h.arg_pins@.subrange(0, i as int), dead),
        decreases h.arg_pins.len() - i,
    {
        assert(h.arg_pins@.subrange(0, i + 1).drop_last() =~= h.arg_pins@.subrange(0, i as int));
        if pinned_box_is_dead(h, h.arg_pins[i]) == dead {
            out.push(h.arg_pins[i]);
        }
        i = i + 1;
    }
    assert(h.arg_pins@.subrange(0, h.arg_pins@.len() as int) =~= h.arg_pins@);
    out
}

/// Free an object that lost its last reference, and release the references that
/// it owned.
pub open spec fn box_freed(h: HeapV, p: usize) -> HeapV {
    let (h1, more) = freeing::dropped(h, p);
    freeing::worked(h1, more.reverse())
}

/// Free an object that lost its last reference, and release the references that
/// it owned.
pub fn free_owned_storage(h: &mut Heap, p: usize)
    ensures
        final(h)@ == box_freed(old(h)@, p),
{
    free_and_work(h, p);
}

/// Free these objects, first to last.
pub open spec fn all_freed(h: HeapV, ps: Seq<usize>) -> HeapV
    decreases ps.len(),
{
    if ps.len() == 0 {
        h
    } else {
        box_freed(all_freed(h, ps.drop_last()), ps.last())
    }
}

/// Pin the object of an instance that crosses as an argument. Where many are
/// pinned, those that can go are freed first.
#[verifier::opaque]
pub open spec fn arg_pinned(h: HeapV, p: usize) -> HeapV {
    if h.arg_pins.len() >= INSTANCE_PIN_HWM {
        let stay = sorted_out(h, h.arg_pins, false);
        let go = sorted_out(h, h.arg_pins, true);
        all_freed(
            HeapV {
                arg_pins: if stay.contains(p) {
                    stay
                } else {
                    stay.push(p)
                },
                ..h
            },
            go,
        )
    } else if h.arg_pins.contains(p) {
        h
    } else {
        HeapV { arg_pins: h.arg_pins.push(p), ..h }
    }
}

/// Pin the object of an instance that crosses as an argument.
pub fn pin_instance_arg_box(h: &mut Heap, p: usize)
    ensures
        final(h)@ == arg_pinned(old(h)@, p),
{
    proof {
        reveal(arg_pinned);
    }
    if h.arg_pins.len() < INSTANCE_PIN_HWM {
        if !contains(&h.arg_pins, p) {
            h.arg_pins.push(p);
            assert(h@ =~= arg_pinned(old(h)@, p));
        }
        return;
    }
    let go: Vec<usize> = pick(h, true);
    let stay: Vec<usize> = pick(h, false);
    h.arg_pins = stay;
    if !contains(&h.arg_pins, p) {
        h.arg_pins.push(p);
    }
    let ghost h1 = h@;
    proof {
        let s = sorted_out(old(h)@, old(h)@.arg_pins, false);
        assert(h1 =~= (HeapV {
            arg_pins: if s.contains(p) {
                s
            } else {
                s.push(p)
            },
            ..old(h)@
        }));
    }
    let mut i: usize = 0;
    assert(go@.subrange(0, 0) =~= Seq::<usize>::empty());
    while i < go.len()
        invariant
            i <= go@.len(),
            h@ == all_freed(h1, go@.subrange(0, i as int)),
        decreases go.len() - i,
    {
        assert(go@.subrange(0, i + 1).drop_last() =~= go@.subrange(0, i as int));
        free_owned_storage(h, go[i]);
        i = i + 1;
    }
    assert(go@.subrange(0, go@.len() as int) =~= go@);
}

/// An instance crosses as an argument: it is pinned.
pub open spec fn pinned_if_arg(h: HeapV, p: usize) -> HeapV {
    if h.arg_depth > 0 {
        arg_pinned(h, p)
    } else {
        h
    }
}

} // verus!
