//! The bodies of instances whose types keep their fields inline.

use vstd::prelude::*;
use crate::bytes;
use crate::bytes::{put_slots, zero_block};
use crate::freeing;
use crate::freeing::{push_reversed, release, take_out};
use crate::heap;
use crate::heap::{Event, Heap, HeapV, Link, Store, StoreV};
use crate::layout;
use crate::layout::{set_field, HEAD, LIST_SIZE};
use crate::lists::live_id;
use crate::mirror;
use crate::mirror::{is_faithful_list, is_faithful_tuple, is_mirror, min_slots, size_of};
use crate::object;
use crate::object::{ExcFields, PyObject};
use crate::outward;
use crate::outward::cross_all;
use crate::publish;
use crate::publish::publish_due;
use crate::reading;
use crate::reading::{catch_up, register_seeded_list};
use crate::value;
use crate::value::{copy_native, copy_natives, NatV, Native, ObjV, Object};

verus! {

broadcast use vstd::std_specs::hash::group_hash_axioms;

// ---------------------------------------------------------------------------
// Making and freeing
// ---------------------------------------------------------------------------

/// The storage of a new body of an instance: all zero.
pub open spec fn body_store(n: NatV, size: nat) -> StoreV {
    StoreV {
        obj: n,
        link: Link::Alive,
        destructor: 0,
        tail: bytes::zeros((size - HEAD) as nat),
        aux: Seq::empty(),
        aux_addr: 0,
        str_buffer: false,
        bytes_buffer: false,
        list_synced: false,
        scalar_pinned: false,
        list_mint: None,
        exc: object::no_exc(),
    }
}

/// The size of a body: at least that of a head.
pub open spec fn body_size(want: nat) -> nat {
    if want < HEAD {
        HEAD as nat
    } else {
        want
    }
}

/// Make the body of an instance; NULL where there is no room. The instance owns
/// the body, which only refers back to it.
pub open spec fn body_made(h: HeapV, ty: usize, want: nat, n: NatV) -> (HeapV, usize) {
    let size = body_size(want);
    if size > isize::MAX || !heap::has_room(h, size) {
        (h, 0)
    } else {
        let (h1, p) = heap::allocated(h, size);
        (
            HeapV {
                heads: h1.heads.insert(p, PyObject { ob_refcnt: 1, ob_type: ty }),
                mem: h1.mem.insert(p, body_store(n, size)),
                minted: h1.minted.insert(p),
                ..h1
            },
            p,
        )
    }
}

/// Make the body of an instance.
pub fn alloc_instance_body(h: &mut Heap, ty: usize, body_bytes: usize, n: &Native) -> (r: usize)
    ensures
        (final(h)@, r) == body_made(old(h)@, ty, body_bytes as nat, n@),
{
    let size: usize = if body_bytes < HEAD {
        HEAD
    } else {
        body_bytes
    };
    if size > isize::MAX as usize {
        return 0;
    }
    let need: u128 = (size as u128 / 256 + 1) * 256;
    if h.next as u128 + need > usize::MAX as u128 {
        return 0;
    }
    let p: usize = h.fresh_addr(size);
    let s = Store {
        obj: copy_native(n),
        link: Link::Alive,
        destructor: 0,
        tail: zero_block(size - HEAD),
        aux: Vec::new(),
        aux_addr: 0,
        str_buffer: false,
        bytes_buffer: false,
        list_synced: false,
        scalar_pinned: false,
        list_mint: None,
        exc: ExcFields::default(),
    };
    assert(s@ =~= body_store(n@, size as nat));
    h.heads.insert(p, PyObject { ob_refcnt: 1, ob_type: ty });
    h.minted.insert(p);
    h.put_store(p, s);
    assert(h@ =~= body_made(old(h)@, ty, body_bytes as nat, n@).0);
    p
}

/// The object is the body of an instance.
pub open spec fn body_at(h: HeapV, p: usize) -> bool {
    mirror::mirror_at(h, p) && h.minted.contains(p) && h.mem.contains_key(p)
        && !(h.mem[p].link is Unlinked)
}

/// Whether an object is the body of an instance.
pub fn is_instance_body(h: &Heap, p: usize) -> (r: bool)
    ensures
        r == body_at(h@, p),
{
    if !is_mirror(h, p) || !h.minted.contains(&p) {
        return false;
    }
    match h.store(p) {
        Some(s) => !matches!(s.link, Link::Unlinked),
        None => false,
    }
}

/// Whether an object is the body of an instance that is gone.
pub fn is_orphaned_instance_body(h: &Heap, p: usize) -> (r: bool)
    ensures
        r == (body_at(h@, p) && h@.mem[p].link is Dead),
{
    if !is_instance_body(h, p) {
        return false;
    }
    match h.store(p) {
        Some(s) => matches!(s.link, Link::Dead),
        None => false,
    }
}

/// The references that a body owns: those in the slots of a list or a tuple.
pub open spec fn body_refs(h: HeapV, p: usize) -> Seq<usize> {
    let s = h.mem[p];
    if mirror::list_at(h, p) {
        heap::nonnull(
            bytes::slots(
                s.aux,
                0,
                mirror::at_most(mirror::var_size(s.tail), (s.aux.len() / 8) as int),
            ),
        )
    } else if mirror::tuple_at(h, p) {
        heap::nonnull(mirror::tuple_ptrs_of(s))
    } else {
        Seq::empty()
    }
}

/// Free the body of an instance: what C code wrote into a list is adopted first,
/// and the references that the body owned are released, first to last.
pub open spec fn body_freed(h: HeapV, p: usize) -> HeapV {
    let h1 = if mirror::list_at(h, p) {
        reading::caught_up(h, p)
    } else {
        h
    };
    let h2 = HeapV {
        minted: h1.minted.remove(p),
        seeded: if mirror::list_at(h1, p) {
            h1.seeded.remove(p)
        } else {
            h1.seeded
        },
        mem: h1.mem.remove(p),
        ending: freeing::set_aside(h1.ending, h1.mem[p], p),
        heads: h1.heads.remove(p),
        events: if h1.mem[p].destructor != 0 {
            h1.events.push(Event::Destroy(h1.mem[p].destructor, p))
        } else {
            h1.events
        },
        ..h1
    };
    freeing::released(h2, body_refs(h1, p).reverse())
}

fn refs_of_body(h: &Heap, p: usize) -> (r: Vec<usize>)
    requires
        h@.mem.contains_key(p),
    ensures
        r@ == body_refs(h@, p),
{
    let mut out: Vec<usize> = Vec::new();
    if let Some(s) = h.store(p) {
        if is_faithful_list(h, p) {
            let n: usize = min_slots(size_of(&s.tail), s.aux.len() / 8);
            heap::push_nonnull(&mut out, &bytes::get_slots(s.aux.as_slice(), 0, n));
            assert(out@ =~= body_refs(h@, p));
        } else if is_faithful_tuple(h, p) {
            heap::push_nonnull(&mut out, &s.tuple_slots());
            assert(out@ =~= body_refs(h@, p));
        }
    }
    out
}

/// Free the body of an instance that is gone.
pub fn free_instance_body(h: &mut Heap, p: usize)
    requires
        old(h)@.mem.contains_key(p),
    ensures
        final(h)@ == body_freed(old(h)@, p),
{
    if is_faithful_list(h, p) {
        catch_up(h, p);
    }
    let ghost h1 = h@;
    let refs: Vec<usize> = refs_of_body(h, p);
    let list: bool = is_faithful_list(h, p);
    let destructor: usize = match h.store(p) {
        Some(s) => s.destructor,
        None => 0,
    };
    h.minted.remove(&p);
    if list {
        h.seeded.remove(&p);
    }
    if destructor != 0 {
        h.events.push(Event::Destroy(destructor, p));
    }
    h.heads.remove(&p);
    take_out(h, p);
    assert(h@ =~= (HeapV {
        minted: h1.minted.remove(p),
        seeded: if mirror::list_at(h1, p) {
            h1.seeded.remove(p)
        } else {
            h1.seeded
        },
        mem: h1.mem.remove(p),
        ending: freeing::set_aside(h1.ending, h1.mem[p], p),
        heads: h1.heads.remove(p),
        events: if h1.mem[p].destructor != 0 {
            h1.events.push(Event::Destroy(h1.mem[p].destructor, p))
        } else {
            h1.events
        },
        ..h1
    }));
    let mut work: Vec<usize> = Vec::new();
    push_reversed(&mut work, &refs);
    assert(work@ =~= refs@.reverse());
    release(h, work);
}

// ---------------------------------------------------------------------------
// Lists and tuples
// ---------------------------------------------------------------------------

/// The storage of a list body with these elements.
pub open spec fn packed_list(s: StoreV, ps: Seq<usize>, at: usize) -> StoreV {
    StoreV {
        tail: layout::with_field(
            layout::with_field(
                layout::with_field(s.tail, 16, ps.len() as u64),
                24,
                if ps.len() == 0 {
                    0
                } else {
                    at as u64
                },
            ),
            32,
            ps.len() as u64,
        ),
        aux: if ps.len() == 0 {
            s.aux
        } else {
            mirror::slot_bytes(ps)
        },
        aux_addr: if ps.len() == 0 {
            s.aux_addr
        } else {
            at
        },
        list_synced: true,
        ..s
    }
}

/// Fill the body of an instance of a list type from the list that the instance
/// is, and record it as shared. Where the instance is no list, or there is no
/// room, the body stays an empty list.
pub open spec fn list_packed(h: HeapV, p: usize) -> HeapV {
    match reading::live_cell(h, h.mem[p]) {
        None => h,
        Some(id) => {
            let n = h.cells[id].len();
            if n > 0 && !heap::has_room(h, 8 * n) {
                h
            } else {
                let (h1, at) = if n > 0 {
                    heap::allocated(h, 8 * n)
                } else {
                    (h, 0)
                };
                let (h2, ps) = outward::outs(h1, h.cells[id]);
                if !h2.mem.contains_key(p) || h2.mem[p].tail.len() < LIST_SIZE - HEAD {
                    h2
                } else {
                    reading::registered(
                        heap::with_store(h2, p, packed_list(h2.mem[p], ps, at)),
                        p,
                    )
                }
            }
        },
    }
}

fn pack_list(s: &mut Store, ps: &Vec<usize>, at: usize)
    requires
        old(s)@.tail.len() >= LIST_SIZE - HEAD,
        8 * ps@.len() <= usize::MAX,
    ensures
        final(s)@ == packed_list(old(s)@, ps@, at),
{
    let n: usize = ps.len();
    set_field(&mut s.tail, 16, n as u64);
    set_field(
        &mut s.tail,
        24,
        if n == 0 {
            0
        } else {
            at as u64
        },
    );
    set_field(&mut s.tail, 32, n as u64);
    if n > 0 {
        s.aux = mirror::buffer_of(ps);
        s.aux_addr = at;
    }
    s.list_synced = true;
    assert(s@ =~= packed_list(old(s)@, ps@, at));
}

/// Fill the body of an instance of a list type, and publish the lists that are
/// due then.
pub fn pack_list_subclass_body(h: &mut Heap, p: usize)
    requires
        old(h)@.mem.contains_key(p),
    ensures
        final(h)@ == publish::published(list_packed(old(h)@, p), Seq::empty()),
{
    fill_list_body(h, p);
    publish_due(h);
}

fn fill_list_body(h: &mut Heap, p: usize)
    requires
        old(h)@.mem.contains_key(p),
    ensures
        final(h)@ == list_packed(old(h)@, p),
{
    let id: usize = match live_id(h, p) {
        Some(id) => id,
        None => {
            return;
        },
    };
    let items: Vec<Native> = match h.cell(id) {
        Some(v) => copy_natives(v),
        None => {
            return;
        },
    };
    proof {
        value::lemma_seq_deep(items@);
    }
    let n: usize = items.len();
    let mut at: usize = 0;
    if n > 0 {
        let need: u128 = (8 * n as u128 / 256 + 1) * 256;
        if h.next as u128 + need > usize::MAX as u128 {
            return;
        }
        assert(8 * n <= usize::MAX);
        at = h.fresh_addr(8 * n);
    }
    let ps: Vec<usize> = cross_all(h, &items);
    let ghost h2 = h@;
    match h.store(p) {
        Some(s) => {
            if s.tail.len() < LIST_SIZE - HEAD {
                return;
            }
        },
        None => {
            return;
        },
    }
    if let Some(mut s) = h.take_store(p) {
        pack_list(&mut s, &ps, at);
        h.put_store(p, s);
        assert(h@.mem =~= h2.mem.insert(p, s@));
        register_seeded_list(h, p);
    }
}

/// The elements of the tuple that an instance is.
pub open spec fn tuple_of(s: StoreV) -> Option<Seq<NatV>> {
    match s.obj.val {
        ObjV::Instance(i) => if i.native.len() > 0 {
            match i.native[0].val {
                ObjV::Tuple(t) => Some(t),
                _ => None,
            }
        } else {
            None
        },
        _ => None,
    }
}

/// Fill the body of an instance of a tuple type from the tuple that the instance
/// is. Where it is none, or the body is too small, the body stays as it is.
pub open spec fn tuple_packed(h: HeapV, p: usize) -> HeapV {
    match tuple_of(h.mem[p]) {
        None => h,
        Some(t) => {
            let (h1, ps) = outward::outs(h, t);
            if !h1.mem.contains_key(p) || h1.mem[p].tail.len() < 8 + 8 * ps.len() {
                h1
            } else {
                let s = h1.mem[p];
                heap::with_store(
                    h1,
                    p,
                    StoreV {
                        tail: bytes::put(
                            layout::with_field(s.tail, 16, ps.len() as u64),
                            8,
                            mirror::slot_bytes(ps),
                        ),
                        ..s
                    },
                )
            }
        },
    }
}

fn items_of_tuple(s: &Store) -> (r: Option<Vec<Native>>)
    ensures
        match r {
            Some(v) => tuple_of(s@) == Some(value::seq_deep(v@)),
            None => tuple_of(s@) is None,
        },
{
    match &s.obj.val {
        Object::Instance(i) => {
            proof {
                value::lemma_seq_deep(i.native@);
            }
            if i.native.len() == 0 {
                return None;
            }
            match &i.native[0].val {
                Object::Tuple(t) => Some(copy_natives(t)),
                _ => None,
            }
        },
        _ => None,
    }
}

/// Fill the body of an instance of a tuple type, and publish the lists that are
/// due then.
pub fn pack_tuple_subclass_body(h: &mut Heap, p: usize)
    requires
        old(h)@.mem.contains_key(p),
    ensures
        final(h)@ == publish::published(tuple_packed(old(h)@, p), Seq::empty()),
{
    fill_tuple_body(h, p);
    publish_due(h);
}

fn fill_tuple_body(h: &mut Heap, p: usize)
    requires
        old(h)@.mem.contains_key(p),
    ensures
        final(h)@ == tuple_packed(old(h)@, p),
{
    let items: Vec<Native> = match h.store(p) {
        Some(s) => match items_of_tuple(s) {
            Some(v) => v,
            None => {
                return;
            },
        },
        None => {
            return;
        },
    };
    let ps: Vec<usize> = cross_all(h, &items);
    let ghost h1 = h@;
    match h.store(p) {
        Some(s) => {
            if (s.tail.len() as u128) < 8 + 8 * ps.len() as u128 {
                return;
            }
        },
        None => {
            return;
        },
    }
    if let Some(mut s) = h.take_store(p) {
        set_field(&mut s.tail, 16, ps.len() as u64);
        put_slots(&mut s.tail, 8, &ps);
        h.put_store(p, s);
        assert(h@.mem =~= h1.mem.insert(p, s@));
    }
}

} // verus!
