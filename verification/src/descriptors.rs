//! The objects that stand for C getters and setters.

use vstd::prelude::*;
use crate::bytes;
use crate::bytes::zero_block;
use crate::crossing;
use crate::crossing::{copied, leaf_out, Place};
use crate::heap;
use crate::heap::{Heap, HeapV, Link, Store, StoreV};
use crate::layout;
use crate::layout::{get_field, set_field, HEAD};
use crate::mirror;
use crate::object;
use crate::object::{ExcFields, PyObject};
use crate::text::slice_of;
use crate::utf8::encode;
use crate::value;
use crate::value::{copy_native, NatV, Native, ObjV, Object};

verus! {

broadcast use vstd::std_specs::hash::group_hash_axioms;

/// The size of a getter descriptor with the definition inside it.
pub const GETSET_SIZE: usize = 88;

/// The offset of the definition inside a getter descriptor.
pub const GETSET_DEF: usize = 48;

/// A text as C code reads it; empty where it holds a NUL.
pub open spec fn c_text(s: Seq<char>) -> Seq<u8> {
    let b = vstd::utf8::encode_utf8(s);
    if b.contains(0u8) {
        seq![0u8]
    } else {
        b.push(0u8)
    }
}

/// A documentation text as C code reads it; none where it holds a NUL.
pub open spec fn c_doc(d: Option<Seq<char>>) -> Option<Seq<u8>> {
    match d {
        Some(s) => if vstd::utf8::encode_utf8(s).contains(0u8) {
            None
        } else {
            Some(vstd::utf8::encode_utf8(s).push(0u8))
        },
        None => None,
    }
}

fn bytes_for_c(s: &Vec<char>) -> (r: Option<Vec<u8>>)
    ensures
        match r {
            Some(b) => !vstd::utf8::encode_utf8(s@).contains(0u8) && b@
                == vstd::utf8::encode_utf8(s@).push(0u8),
            None => vstd::utf8::encode_utf8(s@).contains(0u8),
        },
{
    let mut b: Vec<u8> = encode(s.as_slice());
    let mut i: usize = 0;
    while i < b.len()
        invariant
            i <= b@.len(),
            b@ == vstd::utf8::encode_utf8(s@),
            forall|k: int| 0 <= k < i ==> b@[k] != 0,
        decreases b.len() - i,
    {
        if b[i] == 0 {
            assert(b@.contains(b@[i as int]));
            return None;
        }
        i = i + 1;
    }
    b.push(0);
    Some(b)
}

/// The buffer beside a getter descriptor: its name and its documentation.
pub open spec fn getset_aux(name: Seq<char>, doc: Option<Seq<char>>) -> Seq<u8> {
    match c_doc(doc) {
        Some(d) => c_text(name) + d,
        None => c_text(name),
    }
}

/// The bytes of a getter descriptor after its head: its class, its name object,
/// its definition, and in the definition its name and its documentation.
pub open spec fn getset_tail(
    place: Place,
    d_type: usize,
    d_name: usize,
    name: Seq<char>,
    doc: Option<Seq<char>>,
) -> Seq<u8> {
    let z = bytes::zeros((GETSET_SIZE - HEAD) as nat);
    let a = layout::with_field(z, 16, d_type as u64);
    let b = layout::with_field(a, 24, d_name as u64);
    let c = layout::with_field(b, 40, (place.at + GETSET_DEF) as u64);
    let d = layout::with_field(c, 48, place.aux as u64);
    match c_doc(doc) {
        Some(_) => layout::with_field(d, 72, (place.aux + c_text(name).len()) as u64),
        None => d,
    }
}

/// There is room for a getter descriptor and its texts.
pub open spec fn can_describe(h: HeapV, m: value::PropV) -> bool {
    &&& getset_aux(m.name, m.doc).len() <= isize::MAX
    &&& heap::has_room(h, GETSET_SIZE as nat)
    &&& heap::has_room(
        heap::allocated(h, GETSET_SIZE as nat).0,
        getset_aux(m.name, m.doc).len(),
    )
}

/// Make the object of a C getter: never freed. Its name crosses as a text.
#[verifier::opaque]
pub open spec fn described(h: HeapV, n: NatV, m: value::PropV) -> (HeapV, usize) {
    let (h1, at) = heap::allocated(h, GETSET_SIZE as nat);
    let (h2, aux) = heap::allocated(h1, getset_aux(m.name, m.doc).len());
    let (h3, id) = heap::new_cell(h2);
    let (h4, d_name) = crossing::leaf(h3, NatV { id, val: ObjV::Str(m.name) }, h.facts.types.unicode_type);
    let place = Place { at, aux };
    (
        HeapV {
            heads: h4.heads.insert(
                at,
                PyObject {
                    ob_refcnt: object::IMMORTAL_REFCNT,
                    ob_type: h4.facts.types.getset_type,
                },
            ),
            mem: h4.mem.insert(
                at,
                StoreV {
                    tail: getset_tail(place, m.d_type, d_name, m.name, m.doc),
                    aux: getset_aux(m.name, m.doc),
                    aux_addr: aux,
                    ..crossing::box_store(n, object::no_exc())
                },
            ),
            minted: h4.minted.insert(at),
            getsets: h4.getsets.insert(n.id, at),
            getset_boxes: h4.getset_boxes.insert(at),
            ..h4
        },
        at,
    )
}

/// The object of a C getter: one for each, never freed.
#[verifier::opaque]
pub open spec fn getset_box(h: HeapV, n: NatV, m: value::PropV) -> (HeapV, usize) {
    match crossing::entry(h.getsets, n.id) {
        Some(p) => (h, p),
        None => if can_describe(h, m) {
            described(h, n, m)
        } else {
            (h, 0)
        },
    }
}

fn getset_texts(m: &value::PropInfo) -> (r: (Vec<u8>, usize, bool))
    ensures
        r.0@ == getset_aux(m.name@, value::opt_text(m.doc)),
        r.1 == c_text(m.name@).len(),
        r.2 == c_doc(value::opt_text(m.doc)) is Some,
        r.1 <= r.0@.len(),
{
    let mut all: Vec<u8> = match bytes_for_c(&m.name) {
        Some(b) => b,
        None => {
            let mut z: Vec<u8> = Vec::new();
            z.push(0);
            assert(z@ =~= seq![0u8]);
            z
        },
    };
    let k: usize = all.len();
    assert(all@ == c_text(m.name@));
    let mut documented: bool = false;
    if let Some(d) = &m.doc {
        if let Some(b) = bytes_for_c(d) {
            let mut rest: Vec<u8> = b;
            all.append(&mut rest);
            documented = true;
        }
    }
    (all, k, documented)
}

pub(crate) fn getset_descr_box(h: &mut Heap, n: &Native, m: &value::PropInfo) -> (r: usize)
    requires
        n.val == Object::Property(*m),
    ensures
        ({
            let v = value::PropV {
                getset: m.getset,
                d_type: m.d_type,
                name: m.name@,
                doc: value::opt_text(m.doc),
            };
            (final(h)@, r) == getset_box(old(h)@, n@, v)
        }),
{
    proof {
        reveal(getset_box);
        reveal(described);
    }
    if let Some(p) = copied(&h.getsets, n.id) {
        return p;
    }
    let (texts, k, documented): (Vec<u8>, usize, bool) = getset_texts(m);
    let size: usize = texts.len();
    if size > isize::MAX as usize {
        return 0;
    }
    let beside: u128 = (size as u128 / 256 + 1) * 256;
    if h.next as u128 + 256 + beside > usize::MAX as u128 {
        return 0;
    }
    let at: usize = h.fresh_addr(GETSET_SIZE);
    let aux: usize = h.fresh_addr(size);
    assert(at + 256 <= usize::MAX && aux + size <= usize::MAX);
    let id: usize = h.fresh_cell();
    let name: Vec<char> = slice_of(m.name.as_slice(), 0, m.name.len());
    assert(m.name@.subrange(0, m.name@.len() as int) =~= m.name@);
    let named = Native { id, val: Object::Str(name) };
    let ty: usize = h.facts.types.unicode_type;
    let d_name: usize = leaf_out(h, &named, ty);
    let mut tail: Vec<u8> = zero_block(GETSET_SIZE - HEAD);
    set_field(&mut tail, 16, m.d_type as u64);
    set_field(&mut tail, 24, d_name as u64);
    set_field(&mut tail, 40, (at + GETSET_DEF) as u64);
    set_field(&mut tail, 48, aux as u64);
    if documented {
        set_field(&mut tail, 72, (aux + k) as u64);
    }
    let s = Store {
        obj: copy_native(n),
        link: Link::Unlinked,
        destructor: 0,
        tail,
        aux: texts,
        aux_addr: aux,
        str_buffer: false,
        bytes_buffer: false,
        list_synced: false,
        scalar_pinned: false,
        list_mint: None,
        exc: ExcFields::default(),
    };
    let getset_type: usize = h.facts.types.getset_type;
    h.heads.insert(at, PyObject { ob_refcnt: object::IMMORTAL_REFCNT, ob_type: getset_type });
    h.minted.insert(at);
    h.getsets.insert(n.id, at);
    h.getset_boxes.insert(at);
    h.put_store(at, s);
    proof {
        let v = value::PropV {
            getset: m.getset,
            d_type: m.d_type,
            name: m.name@,
            doc: value::opt_text(m.doc),
        };
        assert(h@ =~= described(old(h)@, n@, v).0);
    }
    at
}

/// Where the documentation of a C getter is now: an extension may have written
/// another one. `None` where no object was made for it and where it has none.
pub open spec fn live_doc(h: HeapV, n: NatV) -> Option<usize> {
    if n.val is Property {
        match crossing::entry(h.getsets, n.id) {
            Some(p) => if h.mem.contains_key(p) && mirror::word_at(h.mem[p].tail, 72) != 0 {
                Some(mirror::word_at(h.mem[p].tail, 72) as usize)
            } else {
                None
            },
            None => None,
        }
    } else {
        None
    }
}

/// Where the documentation of a C getter is now.
pub fn getset_live_doc(h: &Heap, n: &Native) -> (r: Option<usize>)
    ensures
        r == live_doc(h@, n@),
{
    if !matches!(n.val, Object::Property(_)) {
        return None;
    }
    let p: usize = match copied(&h.getsets, n.id) {
        Some(p) => p,
        None => {
            return None;
        },
    };
    match h.store(p) {
        Some(s) => {
            let w: u64 = get_field(s.tail.as_slice(), 72);
            if w == 0 {
                None
            } else {
                Some(#[verifier::truncate] (w as usize))
            }
        },
        None => None,
    }
}

/// The VM object behind the object of a C getter; `None` for every other object.
pub open spec fn payload_at(h: HeapV, p: usize) -> Option<NatV> {
    if h.getset_boxes.contains(p) && h.mem.contains_key(p) {
        Some(h.mem[p].obj)
    } else {
        None
    }
}

/// The VM object behind the object of a C getter.
pub fn getset_descr_payload(h: &Heap, p: usize) -> (r: Option<Native>)
    ensures
        match r {
            Some(n) => payload_at(h@, p) == Some(n@),
            None => payload_at(h@, p) is None,
        },
{
    if !h.getset_boxes.contains(&p) {
        return None;
    }
    match h.store(p) {
        Some(s) => Some(copy_native(&s.obj)),
        None => None,
    }
}

} // verus!
