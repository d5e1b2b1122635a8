//! Every VM object crossing to C code.

use vstd::prelude::*;
use crate::argpins;
use crate::argpins::pin_instance_arg_box;
use crate::crossing;
use crate::crossing::{
    copied, fill_mirror, keep, lane_of, new_box, one_property_box, open_mirror, set_exc,
    share_known, stable_module_box, type_for_object, Lane, BOX_SIZE,
};
use crate::descriptors;
use crate::descriptors::getset_descr_box;
use crate::heap;
use crate::heap::{Heap, HeapV};
use crate::layout;
use crate::mirror;
use crate::mirror::obj_is_faithful;
use crate::object;
use crate::object::{ExcFields, Py_IncRef};
use crate::value;
use crate::value::{NatV, Native, ObjV, Object};

verus! {

broadcast use vstd::std_specs::hash::group_hash_axioms;

/// Objects cross one after the other.
pub open spec fn outs(h: HeapV, s: Seq<NatV>) -> (HeapV, Seq<usize>)
    decreases s, 0nat,
{
    if s.len() == 0 {
        (h, Seq::empty())
    } else {
        let (h1, front) = outs(h, s.drop_last());
        let (h2, p) = out(h1, s.last());
        (h2, front.push(p))
    }
}

/// The elements of an object cross one after the other.
pub open spec fn kids_out(h: HeapV, o: ObjV) -> (HeapV, Seq<usize>)
    decreases o, 0nat,
{
    match o {
        ObjV::Tuple(v) => outs(h, v),
        ObjV::List(v) => outs(h, v),
        ObjV::Slice(v) => outs(h, v),
        ObjV::BoundMethod(v) => outs(h, v),
        _ => (h, Seq::empty()),
    }
}

/// An object crosses as a mirror of its own, without a look at what is shared.
pub open spec fn fresh_out(h: HeapV, n: NatV, ty: usize, one_list: bool) -> (HeapV, usize)
    decreases n, 0nat,
{
    if !crossing::can_open(h, n.val) {
        (h, 0)
    } else {
        let (h1, place) = crossing::opened(h, n, ty, one_list);
        let (h2, kids) = kids_out(h1, n.val);
        (crossing::filled_in(h2, n, place, kids), place.at)
    }
}

/// An object crosses as a mirror of this type.
pub open spec fn mirrored(h: HeapV, n: NatV, ty: usize) -> (HeapV, usize)
    decreases n, 1nat,
{
    match crossing::known(h, n, ty) {
        Some(p) => (crossing::shared(h, n, ty, p), p),
        None => {
            let (h1, p) = fresh_out(h, n, ty, crossing::lane(h, n, ty) is OneList);
            if p == 0 || !h1.mem.contains_key(p) {
                (h1, p)
            } else {
                (crossing::kept(h1, n, ty, p), p)
            }
        },
    }
}

/// The exception fields of an instance: the tuple of its arguments and, for a
/// `StopIteration`, its value.
pub open spec fn exc_filled(h: HeapV, p: usize, i: value::InstV) -> HeapV
    decreases i, 0nat,
{
    if !i.exception {
        h
    } else {
        let (h1, e1) = if i.args.len() == 1 && i.args[0].val is Tuple {
            let (h1, kids) = outs(h, i.args);
            (h1, ExcFields { args: kids[0], ..object::no_exc() })
        } else {
            (h, object::no_exc())
        };
        let h2 = crossing::with_exc(h1, p, e1);
        if !i.stop {
            h2
        } else if i.value.len() == 1 {
            let (h3, kids) = outs(h2, i.value);
            crossing::with_exc(h3, p, ExcFields { value: kids[0], ..e1 })
        } else {
            crossing::with_exc(h2, p, ExcFields { value: h2.facts.singles.none.addr, ..e1 })
        }
    }
}

/// An instance crosses. One whose type keeps its fields inline crosses as the body that
/// was made for it, and as NULL where none could be made. Any other crosses as the body
/// that was made for it, as the object it crossed as before, or as a new plain object. A
/// plain object of a type whose objects have bodies is not remembered.
pub open spec fn instance_out(h: HeapV, n: NatV, ty: usize, i: value::InstV) -> (HeapV, usize)
    decreases i, 1nat,
{
    if i.body != 0 || h.facts.inline_types@.contains(ty) {
        (heap::increfed(h, i.body), i.body)
    } else {
        match crossing::entry(h.c_body, n.id) {
            Some(p) => (argpins::pinned_if_arg(heap::increfed(h, p), p), p),
            None => if !heap::has_room(h, BOX_SIZE as nat) {
                (h, 0)
            } else if mirror::mirror_type(h.facts, ty) {
                crossing::boxed(h, n, ty, 1)
            } else {
                let (h1, p) = crossing::boxed(h, n, ty, 1);
                let h2 = HeapV { c_body: h1.c_body.insert(n.id, p), ..h1 };
                (argpins::pinned_if_arg(exc_filled(h2, p, i), p), p)
            },
        }
    }
}

/// A VM object crosses to C code, which then owns one reference to it.
pub open spec fn out(h: HeapV, n: NatV) -> (HeapV, usize)
    decreases n, 2nat,
{
    let s = h.facts.singles;
    match n.val {
        ObjV::PyNone => (h, s.none.addr),
        ObjV::Ellipsis => (h, s.ellipsis.addr),
        ObjV::NotImplemented => (h, s.not_implemented.addr),
        ObjV::Foreign(p) => (heap::increfed(h, p), p),
        ObjV::Type(p) => (heap::increfed(h, p), p),
        ObjV::Capsule(p) => (heap::increfed(h, p), p),
        ObjV::Module => crossing::module_box(h, n),
        ObjV::Property(m) => if m.getset {
            let (h1, p) = descriptors::getset_box(h, n, m);
            (heap::increfed(h1, p), p)
        } else {
            crossing::property_box(h, n)
        },
        ObjV::Instance(i) => instance_out(h, n, crossing::type_for(h, n), i),
        ObjV::Code(p) => if p != 0 {
            (heap::increfed(h, p), p)
        } else {
            crossing::boxed(h, n, crossing::type_for(h, n), 1)
        },
        _ => if mirror::obj_faithful(n.val) {
            mirrored(h, n, crossing::type_for(h, n))
        } else {
            crossing::boxed(h, n, crossing::type_for(h, n), 1)
        },
    }
}

pub(crate) fn cross_all(h: &mut Heap, v: &Vec<Native>) -> (r: Vec<usize>)
    ensures
        (final(h)@, r@) == outs(old(h)@, value::seq_deep(v@)),
        r@.len() == v@.len(),
    decreases v@, 0nat,
{
    let mut out: Vec<usize> = Vec::new();
    let mut i: usize = 0;
    let ghost all = value::seq_deep(v@);
    proof {
        value::lemma_seq_deep(v@);
    }
    assert(all.subrange(0, 0) =~= Seq::<NatV>::empty());
    while i < v.len()
        invariant
            i <= v@.len(),
            all == value::seq_deep(v@),
            all.len() == v@.len(),
            out@.len() == i,
            (h@, out@) == outs(old(h)@, all.subrange(0, i as int)),
        decreases v.len() - i,
    {
        proof {
            value::lemma_seq_deep(v@);
            assert(all[i as int] == v@[i as int]@);
            assert(all.subrange(0, i + 1).drop_last() =~= all.subrange(0, i as int));
        }
        let p: usize = cross(h, &v[i]);
        out.push(p);
        i = i + 1;
    }
    assert(all.subrange(0, all.len() as int) =~= all);
    out
}

fn cross_kids(h: &mut Heap, o: &Object) -> (r: Vec<usize>)
    ensures
        (final(h)@, r@) == kids_out(old(h)@, o@),
        r@.len() == layout::kids_of(o@).len(),
    decreases *o, 0nat,
{
    match o {
        Object::Tuple(v) | Object::List(v) | Object::Slice(v) | Object::BoundMethod(v) => {
            proof {
                value::lemma_seq_deep(v@);
            }
            cross_all(h, v)
        },
        _ => Vec::new(),
    }
}

pub(crate) fn mirror_out_fresh_inner(h: &mut Heap, n: &Native, ty: usize, one_list: bool) -> (r: usize)
    ensures
        (final(h)@, r) == fresh_out(old(h)@, n@, ty, one_list),
    decreases *n, 0nat,
{
    match open_mirror(h, n, ty, one_list) {
        Some((place, plan)) => {
            let kids: Vec<usize> = cross_kids(h, &n.val);
            fill_mirror(h, n, place, plan, &kids);
            place.at
        },
        None => 0,
    }
}

pub(crate) fn cross_mirror(h: &mut Heap, n: &Native, ty: usize) -> (r: usize)
    ensures
        (final(h)@, r) == mirrored(old(h)@, n@, ty),
    decreases *n, 1nat,
{
    if let Some(p) = share_known(h, n, ty) {
        return p;
    }
    let one_list: bool = lane_of(h, n, ty) == Lane::OneList;
    let p: usize = mirror_out_fresh_inner(h, n, ty, one_list);
    if p != 0 && h.mem.contains_key(&p) {
        keep(h, n, ty, p);
    }
    p
}

pub(crate) fn fill_exception_tail(h: &mut Heap, p: usize, i: &value::InstInfo)
    ensures
        final(h)@ == exc_filled(old(h)@, p, value::inst_view(*i)),
    decreases *i, 0nat,
{
    proof {
        value::lemma_seq_deep(i.args@);
        value::lemma_seq_deep(i.value@);
    }
    if !i.exception {
        return;
    }
    let mut e: ExcFields = ExcFields::default();
    if i.args.len() == 1 && matches!(i.args[0].val, Object::Tuple(_)) {
        let kids: Vec<usize> = cross_all(h, &i.args);
        e.args = kids[0];
    }
    set_exc(h, p, e);
    if !i.stop {
        return;
    }
    if i.value.len() == 1 {
        let kids: Vec<usize> = cross_all(h, &i.value);
        e.value = kids[0];
    } else {
        e.value = h.facts.singles.none.addr;
    }
    set_exc(h, p, e);
}

pub(crate) fn cross_instance(h: &mut Heap, n: &Native, ty: usize, i: &value::InstInfo) -> (r: usize)
    requires
        n.val == Object::Instance(*i),
    ensures
        (final(h)@, r) == instance_out(old(h)@, n@, ty, value::inst_view(*i)),
    decreases *i, 1nat,
{
    if i.body != 0 || h.facts.inline_types.contains(&ty) {
        Py_IncRef(h, i.body);
        return i.body;
    }
    let p: usize = match copied(&h.c_body, n.id) {
        Some(p) => {
            Py_IncRef(h, p);
            p
        },
        None => {
            if h.facts.is_mirror_type(ty) {
                return match new_box(h, n, ty, 1) {
                    Some(p) => p,
                    None => 0,
                };
            }
            match new_box(h, n, ty, 1) {
                Some(p) => {
                    let ghost h1 = h@;
                    h.c_body.insert(n.id, p);
                    assert(h@ =~= (HeapV { c_body: h1.c_body.insert(n.id, p), ..h1 }));
                    fill_exception_tail(h, p, i);
                    p
                },
                None => {
                    return 0;
                },
            }
        },
    };
    if h.arg_depth > 0 {
        pin_instance_arg_box(h, p);
    }
    p
}

fn cross_plain(h: &mut Heap, n: &Native) -> (r: usize)
    ensures
        (final(h)@, r) == crossing::boxed(old(h)@, n@, crossing::type_for(old(h)@, n@), 1),
{
    let ty: usize = type_for_object(h, n);
    match new_box(h, n, ty, 1) {
        Some(p) => p,
        None => 0,
    }
}

pub(crate) fn cross(h: &mut Heap, n: &Native) -> (r: usize)
    ensures
        (final(h)@, r) == out(old(h)@, n@),
    decreases *n, 2nat,
{
    match &n.val {
        Object::PyNone => h.facts.singles.none.addr,
        Object::Ellipsis => h.facts.singles.ellipsis.addr,
        Object::NotImplemented => h.facts.singles.not_implemented.addr,
        Object::Foreign(p) => {
            Py_IncRef(h, *p);
            *p
        },
        Object::Type(p) => {
            Py_IncRef(h, *p);
            *p
        },
        Object::Capsule(p) => {
            Py_IncRef(h, *p);
            *p
        },
        Object::Module => stable_module_box(h, n),
        Object::Property(m) => {
            if m.getset {
                let p: usize = getset_descr_box(h, n, m);
                Py_IncRef(h, p);
                p
            } else {
                one_property_box(h, n)
            }
        },
        Object::Instance(i) => {
            let ty: usize = type_for_object(h, n);
            cross_instance(h, n, ty, i)
        },
        Object::Code(p) => {
            if *p != 0 {
                Py_IncRef(h, *p);
                *p
            } else {
                cross_plain(h, n)
            }
        },
        _ => {
            if obj_is_faithful(&n.val) {
                let ty: usize = type_for_object(h, n);
                cross_mirror(h, n, ty)
            } else {
                cross_plain(h, n)
            }
        },
    }
}

} // verus!
