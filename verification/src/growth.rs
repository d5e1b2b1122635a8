//! Crossing takes nothing away: outside a call's arguments, the objects that are
//! there stay, and lists keep the object that they crossed as.

use vstd::prelude::*;
use crate::crossing;
use crate::descriptors;
use crate::heap;
use crate::heap::HeapV;
use crate::mirror;
use crate::object;
use crate::outward;
use crate::pins;
use crate::trips;
use crate::value;
use crate::value::{NatV, ObjV};

verus! {

broadcast use vstd::std_specs::hash::group_hash_axioms;

/// Nothing was taken away: every object below the next address still has its
/// type and its storage, and every list still has its object.
pub open spec fn grew(h: HeapV, g: HeapV) -> bool {
    &&& g.facts == h.facts
    &&& g.arg_depth == h.arg_depth
    &&& g.next >= h.next
    &&& forall|q: usize| #[trigger]
        h.heads.contains_key(q) && q < h.next ==> g.heads.contains_key(q) && g.heads[q].ob_type
            == h.heads[q].ob_type
    &&& forall|q: usize| #[trigger]
        h.mem.contains_key(q) && q < h.next ==> g.mem.contains_key(q)
    &&& forall|id: usize| #[trigger]
        h.lists.contains_key(id) ==> g.lists.contains_key(id) && g.lists[id] == h.lists[id]
}

/// The type of bytes is none of the other types whose objects can be pinned.
pub open spec fn bytes_apart(h: HeapV) -> bool {
    let t = h.facts.types;
    t.bytes_type != t.long_type && t.bytes_type != t.float_type && t.bytes_type != t.complex_type
        && t.bytes_type != t.unicode_type && t.bytes_type != t.tuple_type
}

/// The object is not pinned when it crosses under this type.
pub open spec fn pins_nothing(h: HeapV, n: NatV, ty: usize) -> bool {
    h.arg_depth == 0 && (ty != h.facts.types.bytes_type || pins::pin_key(n) is None)
}

/// No bytes object is inside, so that none is pinned.
pub open spec fn quiet(n: NatV) -> bool
    decreases n, 0nat,
{
    match n.val {
        ObjV::Bytes(_) => false,
        ObjV::Tuple(v) => quiet_all(v),
        ObjV::List(v) => quiet_all(v),
        ObjV::Slice(v) => quiet_all(v),
        ObjV::BoundMethod(v) => quiet_all(v),
        ObjV::Instance(i) => quiet_all(i.args) && quiet_all(i.value),
        _ => true,
    }
}

/// No bytes object is inside any of them.
pub open spec fn quiet_all(s: Seq<NatV>) -> bool
    decreases s, 1nat,
{
    if s.len() == 0 {
        true
    } else {
        quiet_all(s.drop_last()) && quiet(s.last())
    }
}

proof fn lemma_increfed_grew(h: HeapV, p: usize)
    ensures
        grew(h, heap::increfed(h, p)),
        heap::increfed(h, p).mem == h.mem,
        heap::increfed(h, p).lists == h.lists,
        heap::increfed(h, p).next == h.next,
        heap::increfed(h, p).heads.dom() == h.heads.dom(),
{
    assert(heap::increfed(h, p).heads.dom() =~= h.heads.dom());
}

proof fn lemma_all_increfed_grew(h: HeapV, ps: Seq<usize>)
    ensures
        grew(h, heap::all_increfed(h, ps)),
        heap::all_increfed(h, ps).mem == h.mem,
        heap::all_increfed(h, ps).lists == h.lists,
        heap::all_increfed(h, ps).next == h.next,
    decreases ps.len(),
{
    if ps.len() > 0 {
        lemma_all_increfed_grew(h, ps.drop_last());
        lemma_increfed_grew(heap::all_increfed(h, ps.drop_last()), ps.last());
    }
}

proof fn lemma_boxed_grew(h: HeapV, n: NatV, ty: usize, refcnt: i64)
    ensures
        grew(h, crossing::boxed(h, n, ty, refcnt).0),
{
}

proof fn lemma_opened_grew(h: HeapV, n: NatV, ty: usize, one_list: bool)
    requires
        crossing::can_open(h, n.val),
        one_list ==> !h.lists.contains_key(n.id),
    ensures
        grew(h, crossing::opened(h, n, ty, one_list).0),
        ({
            let (g, place) = crossing::opened(h, n, ty, one_list);
            &&& place.at == h.next
            &&& h.next < g.next
            &&& g.heads.contains_key(h.next)
            &&& g.heads[h.next].ob_type == ty
            &&& one_list ==> g.lists.contains_key(n.id) && g.lists[n.id] == h.next
        }),
{
    reveal(crossing::opened);
}

proof fn lemma_filled_grew(h: HeapV, n: NatV, place: crossing::Place, kids: Seq<usize>)
    ensures
        grew(h, crossing::filled_in(h, n, place, kids)),
{
    reveal(crossing::filled_in);
    lemma_all_increfed_grew(h, crossing::own_refs(h, n, kids));
}

proof fn lemma_kept_grew(h: HeapV, n: NatV, ty: usize, p: usize)
    requires
        pins_nothing(h, n, ty),
        h.mem.contains_key(p),
    ensures
        grew(h, crossing::kept(h, n, ty, p)),
{
    reveal(crossing::kept);
}

proof fn lemma_shared_grew(h: HeapV, n: NatV, ty: usize, p: usize)
    ensures
        grew(h, crossing::shared(h, n, ty, p)),
{
    reveal(crossing::shared);
    lemma_increfed_grew(h, p);
}

proof fn lemma_leaf_grew(h: HeapV, n: NatV, ty: usize)
    requires
        pins_nothing(h, n, ty),
    ensures
        grew(h, crossing::leaf(h, n, ty).0),
{
    reveal(crossing::leaf);
    match crossing::known(h, n, ty) {
        Some(p) => {
            lemma_shared_grew(h, n, ty, p);
        },
        None => {
            if crossing::can_open(h, n.val) {
                let one = crossing::lane(h, n, ty) is OneList;
                reveal(crossing::known);
                lemma_opened_grew(h, n, ty, one);
                let (h1, place) = crossing::opened(h, n, ty, one);
                lemma_filled_grew(h1, n, place, Seq::empty());
                let h2 = crossing::filled_in(h1, n, place, Seq::empty());
                assert(h2.mem.contains_key(place.at)) by {
                    reveal(crossing::filled_in);
                }
                lemma_kept_grew(h2, n, ty, place.at);
            }
        },
    }
}

proof fn lemma_getset_grew(h: HeapV, n: NatV, m: value::PropV)
    requires
        h.arg_depth == 0,
        bytes_apart(h),
    ensures
        grew(h, descriptors::getset_box(h, n, m).0),
{
    reveal(descriptors::getset_box);
    reveal(descriptors::described);
    let (h1, at) = heap::allocated(h, descriptors::GETSET_SIZE as nat);
    let (h2, aux) = heap::allocated(h1, descriptors::getset_aux(m.name, m.doc).len());
    let (h3, id) = heap::new_cell(h2);
    lemma_leaf_grew(
        h3,
        NatV { id, val: ObjV::Str(m.name) },
        h.facts.types.unicode_type,
    );
    let h4 = crossing::leaf(
        h3,
        NatV { id, val: ObjV::Str(m.name) },
        h.facts.types.unicode_type,
    ).0;
    assert(grew(h, h3));
    assert(grew(h, h4));
    if crossing::entry(h.getsets, n.id) is None && descriptors::can_describe(h, m) {
        assert(at == h.next);
        assert(grew(h, descriptors::described(h, n, m).0));
    }
}

proof fn lemma_outs_grew(h: HeapV, s: Seq<NatV>)
    requires
        h.arg_depth == 0,
        bytes_apart(h),
        quiet_all(s),
    ensures
        grew(h, outward::outs(h, s).0),
    decreases s, 0nat,
{
    if s.len() > 0 {
        lemma_outs_grew(h, s.drop_last());
        lemma_out_grew(outward::outs(h, s.drop_last()).0, s.last());
    }
}

proof fn lemma_kids_grew(h: HeapV, o: ObjV)
    requires
        h.arg_depth == 0,
        bytes_apart(h),
        quiet(NatV { id: 0, val: o }),
    ensures
        grew(h, outward::kids_out(h, o).0),
    decreases o, 0nat,
{
    match o {
        ObjV::Tuple(v) => {
            lemma_outs_grew(h, v);
        },
        ObjV::List(v) => {
            lemma_outs_grew(h, v);
        },
        ObjV::Slice(v) => {
            lemma_outs_grew(h, v);
        },
        ObjV::BoundMethod(v) => {
            lemma_outs_grew(h, v);
        },
        _ => {},
    }
}

pub proof fn lemma_fresh_grew(h: HeapV, n: NatV, ty: usize, one_list: bool)
    requires
        h.arg_depth == 0,
        bytes_apart(h),
        quiet(n),
        one_list ==> !h.lists.contains_key(n.id),
    ensures
        grew(h, outward::fresh_out(h, n, ty, one_list).0),
        crossing::can_open(h, n.val) ==> ({
            let (g, p) = outward::fresh_out(h, n, ty, one_list);
            &&& p == h.next
            &&& g.mem.contains_key(p)
            &&& g.heads.contains_key(p)
            &&& g.heads[p].ob_type == ty
            &&& one_list ==> g.lists.contains_key(n.id) && g.lists[n.id] == p
        }),
    decreases n, 0nat,
{
    if crossing::can_open(h, n.val) {
        lemma_opened_grew(h, n, ty, one_list);
        let (h1, place) = crossing::opened(h, n, ty, one_list);
        assert(quiet(NatV { id: 0, val: n.val }));
        lemma_kids_grew(h1, n.val);
        let (h2, kids) = outward::kids_out(h1, n.val);
        lemma_filled_grew(h2, n, place, kids);
        trips::law_new_mirror(h, n, ty, one_list);
    }
}

proof fn lemma_mirrored_grew(h: HeapV, n: NatV, ty: usize)
    requires
        h.arg_depth == 0,
        bytes_apart(h),
        quiet(n),
        pins_nothing(h, n, ty),
    ensures
        grew(h, outward::mirrored(h, n, ty).0),
    decreases n, 1nat,
{
    match crossing::known(h, n, ty) {
        Some(p) => {
            lemma_shared_grew(h, n, ty, p);
        },
        None => {
            let one = crossing::lane(h, n, ty) is OneList;
            assert(one ==> !h.lists.contains_key(n.id)) by {
                reveal(crossing::known);
            }
            lemma_fresh_grew(h, n, ty, one);
            let (h1, p) = outward::fresh_out(h, n, ty, one);
            if p != 0 && h1.mem.contains_key(p) {
                lemma_kept_grew(h1, n, ty, p);
            }
        },
    }
}

proof fn lemma_exc_grew(h: HeapV, p: usize, i: value::InstV)
    requires
        h.arg_depth == 0,
        bytes_apart(h),
        quiet_all(i.args),
        quiet_all(i.value),
    ensures
        grew(h, outward::exc_filled(h, p, i)),
    decreases i, 0nat,
{
    if i.exception {
        lemma_outs_grew(h, i.args);
        let (h1, e1) = if i.args.len() == 1 && i.args[0].val is Tuple {
            let (h1, kids) = outward::outs(h, i.args);
            (h1, object::ExcFields { args: kids[0], ..object::no_exc() })
        } else {
            (h, object::no_exc())
        };
        let h2 = crossing::with_exc(h1, p, e1);
        assert(grew(h1, h2));
        lemma_outs_grew(h2, i.value);
    }
}

proof fn lemma_instance_grew(h: HeapV, n: NatV, ty: usize, i: value::InstV)
    requires
        h.arg_depth == 0,
        bytes_apart(h),
        quiet_all(i.args),
        quiet_all(i.value),
    ensures
        grew(h, outward::instance_out(h, n, ty, i).0),
    decreases i, 1nat,
{
    if i.body != 0 || h.facts.inline_types@.contains(ty) {
        lemma_increfed_grew(h, i.body);
    } else {
        match crossing::entry(h.c_body, n.id) {
            Some(p) => {
                lemma_increfed_grew(h, p);
            },
            None => {
                let (h1, p) = crossing::boxed(h, n, ty, 1);
                lemma_boxed_grew(h, n, ty, 1);
                let h2 = HeapV { c_body: h1.c_body.insert(n.id, p), ..h1 };
                lemma_exc_grew(h2, p, i);
                assert(grew(h, h2));
                assert(grew(h, outward::exc_filled(h2, p, i)));
            },
        }
    }
}

proof fn lemma_out_grew(h: HeapV, n: NatV)
    requires
        h.arg_depth == 0,
        bytes_apart(h),
        quiet(n),
    ensures
        grew(h, outward::out(h, n).0),
    decreases n, 2nat,
{
    match n.val {
        ObjV::Foreign(p) => {
            lemma_increfed_grew(h, p);
        },
        ObjV::Type(p) => {
            lemma_increfed_grew(h, p);
        },
        ObjV::Capsule(p) => {
            lemma_increfed_grew(h, p);
        },
        ObjV::Module => {
            reveal(crossing::module_box);
        },
        ObjV::Property(m) => {
            if m.getset {
                lemma_getset_grew(h, n, m);
                let (h1, p) = descriptors::getset_box(h, n, m);
                lemma_increfed_grew(h1, p);
            } else {
                reveal(crossing::property_box);
                match crossing::entry(h.properties, n.id) {
                    Some(p) => {
                        lemma_increfed_grew(h, p);
                    },
                    None => {},
                }
            }
        },
        ObjV::Instance(i) => {
            lemma_instance_grew(h, n, crossing::type_for(h, n), i);
        },
        ObjV::Code(p) => {
            lemma_increfed_grew(h, p);
            lemma_boxed_grew(h, n, crossing::type_for(h, n), 1);
        },
        _ => {
            if mirror::obj_faithful(n.val) {
                lemma_mirrored_grew(h, n, crossing::type_for(h, n));
            } else {
                lemma_boxed_grew(h, n, crossing::type_for(h, n), 1);
            }
        },
    }
}

/// Crossing takes nothing away: no object goes or changes its type, and no list
/// changes its object. Arguments of calls and bytes are another matter: their
/// objects are pinned, and pins are swept.
pub proof fn law_crossing_takes_nothing_away(h: HeapV, n: NatV)
    requires
        h.arg_depth == 0,
        bytes_apart(h),
        quiet(n),
    ensures
        grew(h, outward::out(h, n).0),
{
    lemma_out_grew(h, n);
}

/// A list is the one object for its VM list: the next crossing gives the same
/// address.
pub proof fn law_one_object_for_one_list(h: HeapV, n: NatV)
    requires
        n.val is List,
        h.arg_depth == 0,
        bytes_apart(h),
        quiet(n),
        crossing::can_open(h, n.val),
        h.next != 0,
    ensures
        ({
            let ty = h.facts.types.list_type;
            let (g, p) = outward::mirrored(h, n, ty);
            &&& crossing::known(g, n, ty) == Some(p)
            &&& outward::mirrored(g, n, ty).1 == p
        }),
{
    let ty = h.facts.types.list_type;
    reveal(crossing::known);
    match crossing::known(h, n, ty) {
        Some(p) => {
            lemma_shared_grew(h, n, ty, p);
        },
        None => {
            lemma_fresh_grew(h, n, ty, true);
            let (h1, p) = outward::fresh_out(h, n, ty, true);
            lemma_kept_grew(h1, n, ty, p);
        },
    }
}

} // verus!
