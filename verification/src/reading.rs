//! From C objects back to the VM objects that they stand for.

use vstd::prelude::*;
use crate::freeing;
use crate::freeing::release;
use crate::heap;
use crate::heap::{Digest, Heap, HeapV, Link, ListSync, Store, StoreV};
use crate::layout;
use crate::layout::{get_field, get_half, read_bytes_value, read_str, read_unicode_value, HEAD};
use crate::mirror;
use crate::value;
use crate::value::{copy_native, copy_natives, InstInfo, InstV, NatV, Native, ObjV, Object};
use crate::mirror::{buffer_of, digest_objects, is_faithful_list, is_mirror, same_slots};

verus! {

broadcast use vstd::std_specs::hash::group_hash_axioms;

/// How deeply lists inside lists are looked at for direct writes.
pub const LIST_DEPTH: usize = 6;

/// How deeply containers that C code filled are followed: deeper than any can be
/// that does not contain itself.
pub open spec fn reach(h: HeapV) -> nat {
    if h.mem.dom().len() < usize::MAX {
        h.mem.dom().len() + 1
    } else {
        usize::MAX as nat
    }
}

fn depth_for(h: &Heap) -> (r: usize)
    ensures
        r == reach(h@),
{
    assert(h@.mem.dom() =~= h.mem@.dom());
    let n: usize = h.mem.len();
    if n < usize::MAX {
        n + 1
    } else {
        n
    }
}

/// The value `None`.
pub open spec fn none_nat() -> NatV {
    NatV { id: 0, val: ObjV::PyNone }
}

/// The cell of the VM list behind a list mirror.
pub open spec fn list_cell(s: StoreV) -> Option<usize> {
    match s.obj.val {
        ObjV::List(_) => Some(s.obj.id),
        ObjV::Instance(i) => if i.native.len() > 0 && i.native[0].val is List {
            Some(i.native[0].id)
        } else {
            None
        },
        _ => None,
    }
}

/// The cell of the VM list behind a list mirror, where the VM still has it.
pub open spec fn live_cell(h: HeapV, s: StoreV) -> Option<usize> {
    match list_cell(s) {
        Some(id) => if h.cells.contains_key(id) {
            Some(id)
        } else {
            None
        },
        None => None,
    }
}

/// The bytes in a bytes block that holds as many as it says.
pub open spec fn bytes_in(tail: Seq<u8>) -> Option<Seq<u8>> {
    if tail.len() >= 8 && mirror::word_at(tail, 16) < 0x8000_0000_0000_0000 && 16 + mirror::word_at(tail, 16)
        <= tail.len() {
        layout::block_bytes(tail)
    } else {
        None
    }
}

/// The text in a text block that holds as much as it says.
pub open spec fn text_in(tail: Seq<u8>) -> Option<ObjV> {
    if layout::text_fits(tail) {
        layout::block_text(tail)
    } else {
        None
    }
}

/// Record a list as shared by the VM and C.
pub open spec fn registered(h: HeapV, p: usize) -> HeapV {
    HeapV {
        seeded: h.seeded.insert(p, ListSync { rc_fp: None, c_ptrs: mirror::ptrs_digest(h.mem[p]) }),
        ..h
    }
}

/// Give a VM list new contents.
pub open spec fn with_cell(h: HeapV, id: usize, vals: Seq<NatV>) -> HeapV {
    HeapV { cells: h.cells.insert(id, vals), ..h }
}

/// Give the VM list behind a mirror new contents, making one where there is
/// none.
pub open spec fn filled(h: HeapV, p: usize, vals: Seq<NatV>) -> HeapV {
    match list_cell(h.mem[p]) {
        Some(id) => with_cell(h, id, vals),
        None => {
            let (h1, id) = heap::new_cell(h);
            with_cell(
                heap::with_store(
                    h1,
                    p,
                    StoreV { obj: NatV { id, val: ObjV::List(vals) }, ..h1.mem[p] },
                ),
                id,
                vals,
            )
        },
    }
}

/// The VM object that a list mirror stands for.
pub open spec fn list_value(h: HeapV, p: usize) -> NatV {
    let s = h.mem[p];
    if s.obj.val is List && h.cells.contains_key(s.obj.id) {
        NatV { id: s.obj.id, val: ObjV::List(h.cells[s.obj.id]) }
    } else {
        s.obj
    }
}

/// A dict holds what the VM has there now.
pub open spec fn up_to_date(h: HeapV, n: NatV) -> NatV {
    if n.val is Dict && h.cells.contains_key(n.id) {
        NatV { id: n.id, val: ObjV::Dict(h.cells[n.id]) }
    } else {
        n
    }
}

/// What the slots of a container resolve to, in order. NULL is `None`.
pub open spec fn read_ptrs(h: HeapV, ps: Seq<usize>, fuel: nat) -> (HeapV, Seq<NatV>)
    decreases fuel, 1nat, ps.len(), 0nat,
{
    if ps.len() == 0 {
        (h, Seq::empty())
    } else {
        let (h1, front) = read_ptrs(h, ps.drop_last(), fuel);
        if ps.last() == 0 || fuel == 0 {
            (h1, front.push(none_nat()))
        } else {
            let (h2, v) = resolve(h1, ps.last(), (fuel - 1) as nat);
            (h2, front.push(v))
        }
    }
}

/// C code wrote into a list's slots since both sides last agreed. For a list
/// that is not recorded as shared, the VM list must not have changed either.
pub open spec fn written_by_c(h: HeapV, p: usize) -> bool {
    let s = h.mem[p];
    match live_cell(h, s) {
        None => false,
        Some(id) => if h.seeded.contains_key(p) {
            h.seeded[p].c_ptrs != mirror::ptrs_digest(s)
        } else {
            match s.list_mint {
                Some((mint_c, mint_fp)) => mirror::ptrs_digest(s) != mint_c && mirror::objs_digest(h.cells[id])
                    == mint_fp,
                None => false,
            }
        },
    }
}

/// Adopt what C code wrote directly into a list's slots. Where the slots are
/// as they were when both sides last agreed, the VM list stays as it is.
pub open spec fn reconciled(h: HeapV, p: usize, fuel: nat) -> HeapV
    decreases fuel, 3nat, 0nat, 0nat,
{
    if written_by_c(h, p) {
        adopted(h, p, live_cell(h, h.mem[p])->0, fuel)
    } else {
        h
    }
}

/// Adopt direct writes to the lists inside a list.
pub open spec fn nested(h: HeapV, p: usize, depth: nat, fuel: nat) -> HeapV
    decreases fuel, 4nat, 2 * (LIST_DEPTH - depth) + 1, 0nat,
{
    if depth >= LIST_DEPTH || h.seeded.is_empty() {
        h
    } else {
        nested_in(h, p, mirror::list_ptrs_of(h.mem[p]), depth, fuel)
    }
}

/// Adopt direct writes to the lists in these slots.
pub open spec fn nested_in(h: HeapV, p: usize, ps: Seq<usize>, depth: nat, fuel: nat) -> HeapV
    decreases fuel, 4nat, 2 * (LIST_DEPTH - depth), ps.len(),
{
    if ps.len() == 0 || depth >= LIST_DEPTH {
        h
    } else {
        let h1 = nested_in(h, p, ps.drop_last(), depth, fuel);
        let c = ps.last();
        if c != 0 && c != p && mirror::list_at(h1, c) {
            nested(reconciled(h1, c, fuel), c, depth + 1, fuel)
        } else {
            h1
        }
    }
}

/// A tuple mirror stands for this VM object while its slots are these, to which
/// it holds references of its own. Those that it held before are left to release.
#[verifier::opaque]
pub open spec fn tuple_recorded(h: HeapV, p: usize, ps: Seq<usize>, v: NatV) -> HeapV {
    let s = h.mem[p];
    let (h1, addr) = if s.aux.len() == 8 * ps.len() {
        (h, s.aux_addr)
    } else {
        heap::allocated(h, 8 * ps.len())
    };
    let h2 = heap::with_store(
        h1,
        p,
        StoreV { obj: v, aux: mirror::slot_bytes(ps), aux_addr: addr, ..s },
    );
    let h3 = HeapV { pending: h2.pending + heap::nonnull(mirror::snapshot_of(s)), ..h2 };
    heap::all_increfed(h3, ps)
}

/// The VM object of a tuple mirror: the one it was made from while its slots
/// are as recorded, else one rebuilt from its slots, which are recorded anew.
pub open spec fn tuple_native(h: HeapV, p: usize, fuel: nat) -> (HeapV, NatV)
    decreases fuel, 5nat, 0nat, 0nat,
{
    let s = h.mem[p];
    let ps = mirror::tuple_ptrs_of(s);
    if ps.len() == 0 {
        if s.obj.val is Tuple {
            (h, s.obj)
        } else {
            let (h1, id) = heap::new_cell(h);
            (h1, NatV { id, val: ObjV::Tuple(Seq::empty()) })
        }
    } else if s.obj.val is Tuple && s.aux.len() == 8 * ps.len() && mirror::snapshot_of(s) == ps {
        (h, s.obj)
    } else {
        let (h1, vals) = read_ptrs(h, ps, fuel);
        let (h2, id) = heap::new_cell(h1);
        let v = NatV { id, val: ObjV::Tuple(vals) };
        (tuple_recorded(h2, p, ps, v), v)
    }
}

/// The VM object of a list mirror. The first time the VM list is filled from
/// the slots; from then on the VM list leads and direct writes are adopted.
pub open spec fn list_native(h: HeapV, p: usize, fuel: nat) -> (HeapV, NatV)
    decreases fuel, 5nat, 0nat, 0nat,
{
    let s = h.mem[p];
    let h9 = if !s.list_synced {
        let h1 = heap::with_store(h, p, StoreV { list_synced: true, ..s });
        let (h2, vals) = read_ptrs(h1, mirror::list_ptrs_of(s), fuel);
        registered(filled(h2, p, vals), p)
    } else {
        nested(reconciled(h, p, fuel), p, 0, fuel)
    };
    (h9, list_value(h9, p))
}

/// The instance behind a body holds no builtin value yet.
pub open spec fn valueless(s: StoreV) -> bool {
    match s.obj.val {
        ObjV::Instance(i) => i.native.len() == 0,
        _ => false,
    }
}

/// An instance that holds no builtin value yet gets this one.
pub open spec fn with_value(h: HeapV, p: usize, o: ObjV) -> HeapV {
    match h.mem[p].obj.val {
        ObjV::Instance(i) => if i.native.len() == 0 {
            let (h1, id) = heap::new_cell(h);
            heap::with_store(
                h1,
                p,
                StoreV {
                    obj: NatV {
                        id: h.mem[p].obj.id,
                        val: ObjV::Instance(InstV { native: seq![NatV { id, val: o }], ..i }),
                    },
                    ..h.mem[p]
                },
            )
        } else {
            h
        },
        _ => h,
    }
}

/// A type derives from another one.
pub open spec fn derives(kin: Set<usize>, base: usize, ty: usize) -> bool {
    ty != 0 && ty != base && kin.contains(ty)
}

/// The data of a text lies where the text says: in its block where it is compact,
/// else in data of its own.
pub open spec fn readable(tail: Seq<u8>, far: Option<Seq<u8>>) -> bool {
    if tail.len() < 24 || layout::text_len(tail) > usize::MAX {
        false
    } else if layout::state_compact(layout::text_state(tail)) {
        layout::text_fits(tail)
    } else {
        far matches Some(d) && layout::text_len(tail) * layout::unit_width(
            layout::state_kind(layout::text_state(tail)),
        ) <= d.len()
    }
}

/// The data of a text that is not compact.
pub open spec fn far_at(h: HeapV, p: usize) -> Option<Seq<u8>> {
    if h.facts.far_texts@.contains_key(p) {
        Some(h.facts.far_texts@[p]@)
    } else {
        None
    }
}

/// The text in a body.
pub open spec fn body_text(h: HeapV, p: usize) -> Option<Seq<char>> {
    if readable(h.mem[p].tail, far_at(h, p)) {
        layout::any_text(h.mem[p].tail, far_at(h, p))
    } else {
        None
    }
}

/// An instance of a type that derives from the text type, and that holds no
/// value yet, gets the text in its body.
#[verifier::opaque]
pub open spec fn text_valued(h: HeapV, p: usize) -> HeapV {
    let f = h.facts;
    if valueless(h.mem[p]) && derives(f.text_kin@, f.types.unicode_type, heap::type_at(h, p)) {
        match body_text(h, p) {
            Some(t) => with_value(h, p, ObjV::Str(t)),
            None => h,
        }
    } else {
        h
    }
}

/// An instance of a type that derives from the bytes type, and that holds no
/// value yet, gets the bytes in its body.
#[verifier::opaque]
pub open spec fn bytes_valued(h: HeapV, p: usize) -> HeapV {
    let f = h.facts;
    if valueless(h.mem[p]) && derives(f.bytes_kin@, f.types.bytes_type, heap::type_at(h, p)) {
        match bytes_in(h.mem[p].tail) {
            Some(b) => with_value(h, p, ObjV::Bytes(b)),
            None => h,
        }
    } else {
        h
    }
}

/// An instance of a type that derives from the tuple type, and that holds no
/// value yet, gets what the slots in its body resolve to. A negative size says
/// no tuple.
pub open spec fn tuple_valued(h: HeapV, p: usize, fuel: nat) -> HeapV
    decreases fuel, 4nat, 0nat, 0nat,
{
    let f = h.facts;
    let s = h.mem[p];
    if valueless(s) && derives(f.tuple_kin@, f.types.tuple_type, heap::type_at(h, p))
        && mirror::word_at(s.tail, 16) < 0x8000_0000_0000_0000 {
        let (h1, vals) = read_ptrs(h, mirror::tuple_ptrs_of(s), fuel);
        with_value(h1, p, ObjV::Tuple(vals))
    } else {
        h
    }
}

/// An instance whose type derives from a builtin one gets the value that its body
/// holds, where it holds none yet.
pub open spec fn valued(h: HeapV, p: usize, fuel: nat) -> HeapV
    decreases fuel, 5nat, 0nat, 0nat,
{
    tuple_valued(bytes_valued(text_valued(h, p), p), p, fuel)
}

/// The VM object behind a mirror.
pub open spec fn native_v(h: HeapV, p: usize, fuel: nat) -> (HeapV, NatV)
    decreases fuel, 6nat, 0nat, 0nat,
{
    let s = h.mem[p];
    if s.link is Dead {
        (h, none_nat())
    } else if s.link is Alive {
        let h1 = valued(h, p, fuel);
        (
            if h1.mem[p].list_synced {
                reconciled(h1, p, fuel)
            } else {
                h1
            },
            h1.mem[p].obj,
        )
    } else if mirror::tuple_at(h, p) {
        tuple_native(h, p, fuel)
    } else if mirror::list_at(h, p) {
        list_native(h, p, fuel)
    } else if s.str_buffer {
        match text_in(s.tail) {
            None => (h, s.obj),
            Some(o) => {
                let (h1, id) = heap::new_cell(h);
                (h1, NatV { id, val: o })
            },
        }
    } else if s.bytes_buffer {
        match bytes_in(s.tail) {
            None => (h, s.obj),
            Some(b) => {
                let (h1, id) = heap::new_cell(h);
                let v = NatV { id, val: ObjV::Bytes(b) };
                (heap::with_store(h1, p, StoreV { obj: v, bytes_buffer: false, ..s }), v)
            },
        }
    } else {
        (h, up_to_date(h, s.obj))
    }
}

/// A staged tuple is a list that wears the tuple type: it is frozen.
pub open spec fn frozen(h: HeapV, p: usize, v: NatV) -> (HeapV, NatV) {
    match v.val {
        ObjV::List(items) => if heap::type_at(h, p) != 0 && heap::type_at(h, p)
            == h.facts.types.tuple_type {
            let (h1, id) = heap::new_cell(h);
            (h1, NatV { id, val: ObjV::Tuple(items) })
        } else {
            (h, v)
        },
        _ => (h, v),
    }
}

/// An extension's object, a block of digits or a code object.
pub open spec fn foreign_native(h: HeapV, p: usize) -> NatV {
    if h.raw_longs.contains(p) && h.facts.raw_values@.contains_key(p) {
        h.facts.raw_values@[p]@
    } else if h.facts.codes@.contains_key(p) {
        NatV { id: h.facts.codes@[p], val: ObjV::Code(p) }
    } else {
        NatV { id: p, val: ObjV::Foreign(p) }
    }
}

/// The VM object behind a C object.
pub open spec fn resolve(h: HeapV, p: usize, fuel: nat) -> (HeapV, NatV)
    decreases fuel, 7nat, 0nat, 0nat,
{
    let s = h.facts.singles;
    if p == 0 || p == s.none.addr {
        (h, none_nat())
    } else if p == s.tru.addr {
        (h, NatV { id: 0, val: ObjV::Bool(true) })
    } else if p == s.fals.addr {
        (h, NatV { id: 0, val: ObjV::Bool(false) })
    } else if p == s.not_implemented.addr {
        (h, NatV { id: 0, val: ObjV::NotImplemented })
    } else if p == s.ellipsis.addr {
        (h, NatV { id: 0, val: ObjV::Ellipsis })
    } else if h.facts.classes@.contains(p) {
        (h, NatV { id: p, val: ObjV::Type(p) })
    } else if h.getset_boxes.contains(p) && h.mem.contains_key(p) {
        (h, h.mem[p].obj)
    } else if !h.minted.contains(p) || !h.mem.contains_key(p) {
        (h, foreign_native(h, p))
    } else if h.facts.capsules@.contains(p) {
        (h, NatV { id: p, val: ObjV::Capsule(p) })
    } else if mirror::mirror_at(h, p) {
        if h.mem[p].link is Dead && !h.facts.in_flight@.contains(p) {
            (h, NatV { id: p, val: ObjV::Foreign(p) })
        } else {
            let (h1, v) = native_v(h, p, fuel);
            frozen(h1, p, v)
        }
    } else {
        frozen(h, p, h.mem[p].obj)
    }
}

/// No object came or went, and the facts stayed.
pub open spec fn same_objects(a: HeapV, b: HeapV) -> bool {
    a.mem.dom() == b.mem.dom() && a.facts == b.facts
}

fn none_value() -> (r: Native)
    ensures
        r@ == none_nat(),
{
    Native { id: 0, val: Object::PyNone }
}

pub(crate) fn cell_of(s: &Store) -> (r: Option<usize>)
    ensures
        r == list_cell(s@),
{
    match &s.obj.val {
        Object::List(_) => Some(s.obj.id),
        Object::Instance(i) => {
            proof {
                value::lemma_seq_deep(i.native@);
            }
            if i.native.len() > 0 {
                assert(value::seq_deep(i.native@)[0] == value::nat_deep(i.native@[0]));
                match &i.native[0].val {
                    Object::List(_) => Some(i.native[0].id),
                    _ => None,
                }
            } else {
                None
            }
        },
        _ => None,
    }
}

fn slots_within(
    h: &mut Heap,
    ps: &Vec<usize>,
    depth: usize,
) -> (r: Vec<Native>)
    ensures
        (final(h)@, value::seq_deep(r@)) == read_ptrs(old(h)@, ps@, depth as nat),
        same_objects(old(h)@, final(h)@),
    decreases depth, 1nat, 0nat, 0nat,
{
    let mut out: Vec<Native> = Vec::new();
    let mut i: usize = 0;
    assert(ps@.subrange(0, 0) =~= Seq::<usize>::empty());
    while i < ps.len()
        invariant
            i <= ps@.len(),
            (h@, value::seq_deep(out@)) == read_ptrs(
                old(h)@,
                ps@.subrange(0, i as int),
                depth as nat,
            ),
            same_objects(old(h)@, h@),
        decreases ps.len() - i,
    {
        assert(ps@.subrange(0, i + 1).drop_last() =~= ps@.subrange(0, i as int));
        let v: Native = if ps[i] == 0 || depth == 0 {
            none_value()
        } else {
            clone_within(h, ps[i], depth - 1)
        };
        proof {
            value::lemma_seq_deep_push(out@, v);
        }
        out.push(v);
        i = i + 1;
    }
    assert(ps@.subrange(0, ps@.len() as int) =~= ps@);
    out
}

/// The slots of a list become the contents of its VM list, and both agree.
pub open spec fn adopted(h: HeapV, p: usize, id: usize, fuel: nat) -> HeapV
    decreases fuel, 2nat, 0nat, 0nat,
{
    let s = h.mem[p];
    let (h1, vals) = read_ptrs(h, mirror::list_ptrs_of(s), fuel);
    let h2 = with_cell(h1, id, vals);
    if h.seeded.contains_key(p) {
        HeapV {
            seeded: h2.seeded.insert(
                p,
                ListSync { rc_fp: Some(mirror::objs_digest(vals)), c_ptrs: mirror::ptrs_digest(s) },
            ),
            ..h2
        }
    } else {
        heap::with_store(
            h2,
            p,
            StoreV { list_mint: Some((mirror::ptrs_digest(s), mirror::objs_digest(vals))), ..h2.mem[p] },
        )
    }
}

fn adopt_within(h: &mut Heap, p: usize, id: usize, depth: usize)
    requires
        old(h)@.mem.contains_key(p),
    ensures
        final(h)@ == adopted(old(h)@, p, id, depth as nat),
        same_objects(old(h)@, final(h)@),
    decreases depth, 2nat, 0nat, 0nat,
{
    let (cur, ps): (Digest, Vec<usize>) = match h.store(p) {
        Some(s) => (s.list_digest(), s.list_slots()),
        None => {
            return;
        },
    };
    let seeded: bool = h.seeded.contains_key(&p);
    let vals: Vec<Native> = slots_within(h, &ps, depth);
    let fp: Digest = digest_objects(&vals);
    h.put_cell(id, vals);
    let ghost h2 = h@;
    if seeded {
        h.seeded.insert(p, ListSync { rc_fp: Some(fp), c_ptrs: cur });
        assert(h@ =~= (HeapV {
            seeded: h2.seeded.insert(p, ListSync { rc_fp: Some(fp), c_ptrs: cur }),
            ..h2
        }));
    } else {
        if let Some(mut s) = h.take_store(p) {
            s.list_mint = Some((cur, fp));
            h.put_store(p, s);
            assert(h@.mem =~= h2.mem.insert(p, s@));
        }
    }
}

fn reconcile_within(h: &mut Heap, p: usize, depth: usize)
    requires
        old(h)@.mem.contains_key(p),
    ensures
        final(h)@ == reconciled(old(h)@, p, depth as nat),
        same_objects(old(h)@, final(h)@),
    decreases depth, 3nat, 0nat, 0nat,
{
    let (cur, mint, cell): (Digest, Option<(Digest, Digest)>, Option<usize>) = match h.store(p) {
        Some(s) => (s.list_digest(), s.list_mint, cell_of(s)),
        None => {
            return;
        },
    };
    let id: usize = match cell {
        Some(id) => id,
        None => {
            return;
        },
    };
    let now: Digest = match h.cell(id) {
        Some(v) => digest_objects(v),
        None => {
            return;
        },
    };
    let go: bool = match h.seeded.get(&p) {
        Some(e) => e.c_ptrs != cur,
        None => match mint {
            Some(m) => cur != m.0 && now == m.1,
            None => false,
        },
    };
    if go {
        adopt_within(h, p, id, depth);
    }
}

fn reconcile_nested_lists(h: &mut Heap, p: usize, level: usize, depth: usize)
    requires
        old(h)@.mem.contains_key(p),
    ensures
        final(h)@ == nested(old(h)@, p, level as nat, depth as nat),
        same_objects(old(h)@, final(h)@),
    decreases depth, 4nat, LIST_DEPTH - level, 0nat,
{
    if level >= LIST_DEPTH || h.seeded.is_empty() {
        return;
    }
    let ps: Vec<usize> = match h.store(p) {
        Some(s) => s.list_slots(),
        None => {
            return;
        },
    };
    let mut i: usize = 0;
    assert(ps@.subrange(0, 0) =~= Seq::<usize>::empty());
    while i < ps.len()
        invariant
            i <= ps@.len(),
            level < LIST_DEPTH,
            h@ == nested_in(
                old(h)@,
                p,
                ps@.subrange(0, i as int),
                level as nat,
                depth as nat,
            ),
            same_objects(old(h)@, h@),
        decreases ps.len() - i,
    {
        assert(ps@.subrange(0, i + 1).drop_last() =~= ps@.subrange(0, i as int));
        let c: usize = ps[i];
        if c != 0 && c != p && is_faithful_list(h, c) {
            reconcile_within(h, c, depth);
            reconcile_nested_lists(h, c, level + 1, depth);
        }
        i = i + 1;
    }
    assert(ps@.subrange(0, ps@.len() as int) =~= ps@);
}

fn record_tuple(h: &mut Heap, p: usize, ps: &Vec<usize>, v: Native)
    requires
        old(h)@.mem.contains_key(p),
        8 * ps@.len() <= usize::MAX,
    ensures
        final(h)@ == tuple_recorded(old(h)@, p, ps@, v@),
        same_objects(old(h)@, final(h)@),
{
    proof {
        reveal(tuple_recorded);
    }
    let (old_slots, old_len, old_addr): (Vec<usize>, usize, usize) = match h.store(p) {
        Some(s) => (s.snapshot(), s.aux.len(), s.aux_addr),
        None => {
            return;
        },
    };
    let addr: usize = if old_len == 8 * ps.len() {
        old_addr
    } else {
        h.fresh_addr(8 * ps.len())
    };
    let ghost h1 = h@;
    if let Some(mut s) = h.take_store(p) {
        s.obj = v;
        s.aux = buffer_of(ps);
        s.aux_addr = addr;
        h.put_store(p, s);
        assert(h@.mem =~= h1.mem.insert(p, s@));
    }
    heap::push_nonnull(&mut h.pending, &old_slots);
    h.incref_all(ps);
}

fn tuple_native_shared(h: &mut Heap, p: usize, depth: usize) -> (r: Native)
    requires
        old(h)@.mem.contains_key(p),
    ensures
        (final(h)@, r@) == tuple_native(old(h)@, p, depth as nat),
        same_objects(old(h)@, final(h)@),
    decreases depth, 5nat, 0nat, 0nat,
{
    let ps: Vec<usize> = match h.store(p) {
        Some(s) => {
            let ps: Vec<usize> = s.tuple_slots();
            let t: bool = matches!(s.obj.val, Object::Tuple(_));
            let same: bool = s.aux.len() / 8 == ps.len() && s.aux.len() % 8 == 0 && same_slots(
                &s.snapshot(),
                &ps,
            );
            if t && (ps.len() == 0 || same) {
                return copy_native(&s.obj);
            }
            ps
        },
        None => {
            return none_value();
        },
    };
    if ps.len() == 0 {
        let id: usize = h.fresh_cell();
        let empty: Vec<Native> = Vec::new();
        assert(value::seq_deep(empty@) =~= Seq::<NatV>::empty());
        return Native { id, val: Object::Tuple(empty) };
    }
    let vals: Vec<Native> = slots_within(h, &ps, depth);
    let id: usize = h.fresh_cell();
    let v = Native { id, val: Object::Tuple(vals) };
    let out: Native = copy_native(&v);
    record_tuple(h, p, &ps, v);
    out
}

fn list_within(h: &mut Heap, p: usize, depth: usize) -> (r: Native)
    requires
        old(h)@.mem.contains_key(p),
    ensures
        (final(h)@, r@) == list_native(old(h)@, p, depth as nat),
        same_objects(old(h)@, final(h)@),
    decreases depth, 5nat, 0nat, 0nat,
{
    let (ps, synced): (Vec<usize>, bool) = match h.store(p) {
        Some(s) => (s.list_slots(), s.list_synced),
        None => {
            return none_value();
        },
    };
    if !synced {
        let ghost h0 = h@;
        if let Some(mut s) = h.take_store(p) {
            s.list_synced = true;
            h.put_store(p, s);
            assert(h@ =~= heap::with_store(h0, p, StoreV { list_synced: true, ..h0.mem[p] }));
        }
        let vals: Vec<Native> = slots_within(h, &ps, depth);
        fill_cell(h, p, vals);
        register_seeded_list(h, p);
    } else {
        reconcile_within(h, p, depth);
        reconcile_nested_lists(h, p, 0, depth);
    }
    list_object(h, p)
}

fn fill_cell(h: &mut Heap, p: usize, vals: Vec<Native>)
    requires
        old(h)@.mem.contains_key(p),
    ensures
        final(h)@ == filled(old(h)@, p, value::seq_deep(vals@)),
        same_objects(old(h)@, final(h)@),
{
    let cell: Option<usize> = match h.store(p) {
        Some(s) => cell_of(s),
        None => None,
    };
    match cell {
        Some(id) => {
            h.put_cell(id, vals);
        },
        None => {
            let id: usize = h.fresh_cell();
            let copy: Vec<Native> = copy_natives(&vals);
            let ghost h1 = h@;
            if let Some(mut s) = h.take_store(p) {
                s.obj = Native { id, val: Object::List(copy) };
                h.put_store(p, s);
                assert(h@.mem =~= h1.mem.insert(p, s@));
            }
            h.put_cell(id, vals);
        },
    }
}

fn list_object(h: &Heap, p: usize) -> (r: Native)
    requires
        h@.mem.contains_key(p),
    ensures
        r@ == list_value(h@, p),
{
    match h.store(p) {
        Some(s) => {
            if let Object::List(_) = &s.obj.val {
                if let Some(v) = h.cell(s.obj.id) {
                    return Native { id: s.obj.id, val: Object::List(copy_natives(v)) };
                }
            }
            copy_native(&s.obj)
        },
        None => none_value(),
    }
}

/// Record a list as shared by the VM and C: its slots agree with the VM list
/// right now.
pub fn register_seeded_list(h: &mut Heap, p: usize)
    requires
        old(h)@.mem.contains_key(p),
    ensures
        final(h)@ == registered(old(h)@, p),
        same_objects(old(h)@, final(h)@),
{
    if let Some(s) = h.store(p) {
        let c: Digest = s.list_digest();
        h.seeded.insert(p, ListSync { rc_fp: None, c_ptrs: c });
        assert(h@ =~= registered(old(h)@, p));
    }
}

pub(crate) fn text_fits_in(tail: &Vec<u8>) -> (r: bool)
    ensures
        r == layout::text_fits(tail@),
{
    if tail.len() < 24 {
        return false;
    }
    let raw: u64 = get_field(tail.as_slice(), 16);
    let len: u64 = if raw < 0x8000_0000_0000_0000 {
        raw
    } else {
        0
    };
    assert(layout::text_len(tail@) == len);
    if len as u128 > usize::MAX as u128 {
        return false;
    }
    let info: layout::TextInfo = layout::str_buffer_info(tail.as_slice());
    let w: u128 = if info.kind == 1 {
        1
    } else if info.kind == 2 {
        2
    } else {
        4
    };
    proof {
        assert(len as int * w as int <= u64::MAX * 4) by (nonlinear_arith)
            requires
                len <= u64::MAX,
                w <= 4,
        ;
    }
    info.data_off as u128 + len as u128 * w <= tail.len() as u128 + HEAD as u128
}

fn text_of_store(tail: &Vec<u8>) -> (r: Option<Object>)
    ensures
        match r {
            Some(o) => text_in(tail@) == Some(o@),
            None => text_in(tail@) is None,
        },
{
    if !text_fits_in(tail) {
        return None;
    }
    read_str(tail.as_slice())
}

fn bytes_of_store(tail: &Vec<u8>) -> (r: Option<Vec<u8>>)
    ensures
        match r {
            Some(b) => bytes_in(tail@) == Some(b@),
            None => bytes_in(tail@) is None,
        },
{
    if tail.len() < 8 {
        return None;
    }
    let raw: u64 = get_field(tail.as_slice(), 16);
    if raw >= 0x8000_0000_0000_0000 || raw as u128 + 16 > tail.len() as u128 {
        return None;
    }
    read_bytes_value(tail.as_slice())
}

fn is_valueless(h: &Heap, p: usize) -> (r: bool)
    ensures
        r == (h@.mem.contains_key(p) && valueless(h@.mem[p])),
{
    match h.store(p) {
        Some(s) => match &s.obj.val {
            Object::Instance(i) => {
                proof {
                    value::lemma_seq_deep(i.native@);
                }
                i.native.len() == 0
            },
            _ => false,
        },
        None => false,
    }
}

fn with_native(i: &InstInfo, n: Native) -> (r: InstInfo)
    ensures
        value::inst_view(r) == (InstV { native: seq![n@], ..value::inst_view(*i) }),
{
    let mut native: Vec<Native> = Vec::new();
    proof {
        value::lemma_seq_deep_push(native@, n);
        assert(value::seq_deep(native@) =~= Seq::<NatV>::empty());
        assert(Seq::<NatV>::empty().push(n@) =~= seq![n@]);
    }
    native.push(n);
    InstInfo {
        body: i.body,
        exception: i.exception,
        stop: i.stop,
        args: copy_natives(&i.args),
        value: copy_natives(&i.value),
        native,
    }
}

fn give_value(h: &mut Heap, p: usize, o: Object)
    requires
        old(h)@.mem.contains_key(p),
    ensures
        final(h)@ == with_value(old(h)@, p, o@),
        same_objects(old(h)@, final(h)@),
{
    let now: InstInfo = match h.store(p) {
        Some(s) => match &s.obj.val {
            Object::Instance(i) => {
                proof {
                    value::lemma_seq_deep(i.native@);
                }
                if i.native.len() > 0 {
                    return;
                }
                value::copy_inst(i)
            },
            _ => {
                return;
            },
        },
        None => {
            return;
        },
    };
    let id: usize = h.fresh_cell();
    let ghost h1 = h@;
    if let Some(mut s) = h.take_store(p) {
        s.obj = Native {
            id: s.obj.id,
            val: Object::Instance(with_native(&now, Native { id, val: o })),
        };
        h.put_store(p, s);
        assert(h@.mem =~= h1.mem.insert(p, s@));
        assert(h@.mem.dom() =~= old(h)@.mem.dom());
    }
}

fn text_of_body(h: &Heap, p: usize) -> (r: Option<Vec<char>>)
    requires
        h@.mem.contains_key(p),
    ensures
        match r {
            Some(t) => body_text(h@, p) == Some(t@),
            None => body_text(h@, p) is None,
        },
{
    let tail: &Vec<u8> = match h.store(p) {
        Some(s) => &s.tail,
        None => {
            return None;
        },
    };
    if tail.len() < 24 {
        return None;
    }
    let compact: bool = (get_half(tail.as_slice(), 32) / 32) % 2 == 1;
    if compact {
        if !text_fits_in(tail) {
            return None;
        }
        return read_unicode_value(tail.as_slice(), None);
    }
    let raw: u64 = get_field(tail.as_slice(), 16);
    let len: u64 = if raw < 0x8000_0000_0000_0000 {
        raw
    } else {
        0
    };
    assert(layout::text_len(tail@) == len);
    if len as u128 > usize::MAX as u128 {
        return None;
    }
    let w: usize = layout::width_of(layout::str_buffer_info(tail.as_slice()).kind);
    proof {
        assert(len as int * w as int <= u64::MAX * 4) by (nonlinear_arith)
            requires
                len <= u64::MAX,
                w <= 4,
        ;
    }
    match h.facts.far_texts.get(&p) {
        None => None,
        Some(d) => {
            if len as u128 * w as u128 > d.len() as u128 {
                return None;
            }
            read_unicode_value(tail.as_slice(), Some(d.as_slice()))
        },
    }
}

fn give_text(h: &mut Heap, p: usize)
    requires
        old(h)@.mem.contains_key(p),
    ensures
        final(h)@ == text_valued(old(h)@, p),
        same_objects(old(h)@, final(h)@),
{
    proof {
        reveal(text_valued);
    }
    let ty: usize = h.get_type(p);
    if is_valueless(h, p) && ty != 0 && ty != h.facts.types.unicode_type && h.facts.text_kin.contains(
        &ty,
    ) {
        if let Some(t) = text_of_body(h, p) {
            give_value(h, p, Object::Str(t));
        }
    }
}

fn give_bytes(h: &mut Heap, p: usize)
    requires
        old(h)@.mem.contains_key(p),
    ensures
        final(h)@ == bytes_valued(old(h)@, p),
        same_objects(old(h)@, final(h)@),
{
    proof {
        reveal(bytes_valued);
    }
    let ty: usize = h.get_type(p);
    if is_valueless(h, p) && ty != 0 && ty != h.facts.types.bytes_type && h.facts.bytes_kin.contains(
        &ty,
    ) {
        let data: Option<Vec<u8>> = match h.store(p) {
            Some(s) => bytes_of_store(&s.tail),
            None => None,
        };
        if let Some(b) = data {
            give_value(h, p, Object::Bytes(b));
        }
    }
}

fn give_tuple(h: &mut Heap, p: usize, depth: usize)
    requires
        old(h)@.mem.contains_key(p),
    ensures
        final(h)@ == tuple_valued(old(h)@, p, depth as nat),
        same_objects(old(h)@, final(h)@),
    decreases depth, 4nat, 0nat, 0nat,
{
    let ty: usize = h.get_type(p);
    if is_valueless(h, p) && ty != 0 && ty != h.facts.types.tuple_type && h.facts.tuple_kin.contains(
        &ty,
    ) {
        let slots: Option<Vec<usize>> = match h.store(p) {
            Some(s) => if get_field(s.tail.as_slice(), 16) < 0x8000_0000_0000_0000 {
                Some(s.tuple_slots())
            } else {
                None
            },
            None => None,
        };
        if let Some(ps) = slots {
            let vals: Vec<Native> = slots_within(h, &ps, depth);
            give_value(h, p, Object::Tuple(vals));
        }
    }
}

fn now_in(h: &Heap, n: &Native) -> (r: Native)
    ensures
        r@ == up_to_date(h@, n@),
{
    if let Object::Dict(_) = &n.val {
        if let Some(entries) = h.cell(n.id) {
            return Native { id: n.id, val: Object::Dict(copy_natives(entries)) };
        }
    }
    copy_native(n)
}

fn native_within(h: &mut Heap, p: usize, depth: usize) -> (r: Native)
    requires
        old(h)@.mem.contains_key(p),
    ensures
        (final(h)@, r@) == native_v(old(h)@, p, depth as nat),
        same_objects(old(h)@, final(h)@),
    decreases depth, 6nat, 0nat, 0nat,
{
    let link: Link = match h.store(p) {
        Some(s) => s.link,
        None => {
            return none_value();
        },
    };
    match link {
        Link::Dead => {
            return none_value();
        },
        Link::Alive => {
            give_text(h, p);
            give_bytes(h, p);
            give_tuple(h, p, depth);
            let (out, synced): (Native, bool) = match h.store(p) {
                Some(s) => (copy_native(&s.obj), s.list_synced),
                None => {
                    return none_value();
                },
            };
            if synced {
                reconcile_within(h, p, depth);
            }
            return out;
        },
        Link::Unlinked => {},
    }
    if p != 0 && h.facts.is_tuple_type(h.get_type(p)) {
        return tuple_native_shared(h, p, depth);
    }
    if p != 0 && h.facts.is_list_type(h.get_type(p)) {
        return list_within(h, p, depth);
    }
    let (text, data): (Option<Object>, Option<Vec<u8>>) = match h.store(p) {
        Some(s) => {
            if s.str_buffer {
                match text_of_store(&s.tail) {
                    None => {
                        return copy_native(&s.obj);
                    },
                    Some(o) => (Some(o), None),
                }
            } else if s.bytes_buffer {
                match bytes_of_store(&s.tail) {
                    None => {
                        return copy_native(&s.obj);
                    },
                    Some(b) => (None, Some(b)),
                }
            } else {
                return now_in(h, &s.obj);
            }
        },
        None => {
            return none_value();
        },
    };
    if let Some(o) = text {
        let id: usize = h.fresh_cell();
        return Native { id, val: o };
    }
    if let Some(b) = data {
        let id: usize = h.fresh_cell();
        let v = Native { id, val: Object::Bytes(b) };
        let out: Native = copy_native(&v);
        let ghost h1 = h@;
        if let Some(mut s) = h.take_store(p) {
            s.obj = v;
            s.bytes_buffer = false;
            h.put_store(p, s);
            assert(h@.mem =~= h1.mem.insert(p, s@));
        }
        return out;
    }
    none_value()
}

fn freeze(h: &mut Heap, p: usize, v: Native) -> (r: Native)
    ensures
        (final(h)@, r@) == frozen(old(h)@, p, v@),
        same_objects(old(h)@, final(h)@),
{
    let ty: usize = h.get_type(p);
    if ty == 0 || ty != h.facts.types.tuple_type {
        return v;
    }
    match v.val {
        Object::List(items) => {
            let id: usize = h.fresh_cell();
            Native { id, val: Object::Tuple(items) }
        },
        val => Native { id: v.id, val },
    }
}

fn foreign_value(h: &Heap, p: usize) -> (r: Native)
    ensures
        r@ == foreign_native(h@, p),
{
    if h.raw_longs.contains(&p) {
        if let Some(v) = h.facts.raw_values.get(&p) {
            return copy_native(v);
        }
    }
    match h.facts.codes.get(&p) {
        Some(id) => Native { id: *id, val: Object::Code(p) },
        None => Native { id: p, val: Object::Foreign(p) },
    }
}

/// The VM object behind a C object, following containers this deeply.
fn clone_within(h: &mut Heap, p: usize, depth: usize) -> (r: Native)
    ensures
        (final(h)@, r@) == resolve(old(h)@, p, depth as nat),
        same_objects(old(h)@, final(h)@),
    decreases depth, 7nat, 0nat, 0nat,
{
    if p == 0 || p == h.facts.singles.none.addr {
        return none_value();
    }
    if p == h.facts.singles.tru.addr {
        return Native { id: 0, val: Object::Bool(true) };
    }
    if p == h.facts.singles.fals.addr {
        return Native { id: 0, val: Object::Bool(false) };
    }
    if p == h.facts.singles.not_implemented.addr {
        return Native { id: 0, val: Object::NotImplemented };
    }
    if p == h.facts.singles.ellipsis.addr {
        return Native { id: 0, val: Object::Ellipsis };
    }
    if h.facts.classes.contains(&p) {
        return Native { id: p, val: Object::Type(p) };
    }
    if h.getset_boxes.contains(&p) {
        if let Some(s) = h.store(p) {
            return copy_native(&s.obj);
        }
    }
    if !h.minted.contains(&p) || !h.mem.contains_key(&p) {
        return foreign_value(h, p);
    }
    if h.facts.capsules.contains(&p) {
        return Native { id: p, val: Object::Capsule(p) };
    }
    let (dead, obj): (bool, Native) = match h.store(p) {
        Some(s) => (matches!(s.link, Link::Dead), copy_native(&s.obj)),
        None => {
            return none_value();
        },
    };
    if is_mirror(h, p) {
        if dead && !h.facts.in_flight.contains(&p) {
            return Native { id: p, val: Object::Foreign(p) };
        }
        let v: Native = native_within(h, p, depth);
        freeze(h, p, v)
    } else {
        freeze(h, p, obj)
    }
}

// ---------------------------------------------------------------------------
// Reading as deeply as objects are followed
// ---------------------------------------------------------------------------

/// The VM object behind a C object, and the heap after it was read.
#[verifier::opaque]
pub open spec fn object_at(h: HeapV, p: usize) -> (HeapV, NatV) {
    resolve(h, p, reach(h))
}

/// The VM object behind a mirror, and the heap after it was read.
#[verifier::opaque]
pub open spec fn native_at(h: HeapV, p: usize) -> (HeapV, NatV) {
    native_v(h, p, reach(h))
}

/// The VM objects behind these slots, and the heap after they were read.
#[verifier::opaque]
pub open spec fn objects_at(h: HeapV, ps: Seq<usize>) -> (HeapV, Seq<NatV>) {
    read_ptrs(h, ps, reach(h))
}

/// The heap after what C code wrote directly into a list was adopted.
#[verifier::opaque]
pub open spec fn caught_up(h: HeapV, p: usize) -> HeapV {
    reconciled(h, p, reach(h))
}

/// The VM object behind a C object.
pub(crate) fn read_object(h: &mut Heap, p: usize) -> (r: Native)
    ensures
        (final(h)@, r@) == object_at(old(h)@, p),
        same_objects(old(h)@, final(h)@),
{
    proof {
        reveal(object_at);
    }
    let depth: usize = depth_for(h);
    clone_within(h, p, depth)
}

/// The VM objects behind these slots.
pub(crate) fn read_slots(h: &mut Heap, ps: &Vec<usize>) -> (r: Vec<Native>)
    ensures
        (final(h)@, value::seq_deep(r@)) == objects_at(old(h)@, ps@),
        same_objects(old(h)@, final(h)@),
{
    proof {
        reveal(objects_at);
    }
    let depth: usize = depth_for(h);
    slots_within(h, ps, depth)
}

/// References that are left to release are released.
pub open spec fn tidied(h: HeapV) -> HeapV {
    freeing::released(h, Seq::empty())
}

pub(crate) fn tidy(h: &mut Heap)
    ensures
        final(h)@ == tidied(old(h)@),
{
    let none: Vec<usize> = Vec::new();
    assert(none@ =~= Seq::<usize>::empty());
    release(h, none);
}

pub(crate) fn catch_up(h: &mut Heap, p: usize)
    requires
        old(h)@.mem.contains_key(p),
    ensures
        final(h)@ == caught_up(old(h)@, p),
        same_objects(old(h)@, final(h)@),
{
    proof {
        reveal(caught_up);
    }
    let depth: usize = depth_for(h);
    reconcile_within(h, p, depth);
}

/// Adopt what C code wrote directly into a list.
pub fn reconcile_list_from_c(h: &mut Heap, p: usize)
    requires
        old(h)@.mem.contains_key(p),
    ensures
        final(h)@ == tidied(caught_up(old(h)@, p)),
{
    catch_up(h, p);
    tidy(h);
}

pub(crate) fn read_mirror(h: &mut Heap, p: usize) -> (r: Native)
    requires
        old(h)@.mem.contains_key(p),
    ensures
        (final(h)@, r@) == native_at(old(h)@, p),
        same_objects(old(h)@, final(h)@),
{
    proof {
        reveal(native_at);
    }
    let depth: usize = depth_for(h);
    native_within(h, p, depth)
}

/// The VM object behind a mirror, whose reference count stays as it is.
pub fn native_of(h: &mut Heap, p: usize) -> (r: Native)
    requires
        old(h)@.mem.contains_key(p),
    ensures
        ({
            let (h1, v) = native_at(old(h)@, p);
            final(h)@ == tidied(h1) && r@ == v
        }),
{
    let v: Native = read_mirror(h, p);
    tidy(h);
    v
}

/// The objects in the slots of a tuple as a new tuple, NULL as `None`.
pub fn read_tuple(h: &mut Heap, p: usize) -> (r: Native)
    requires
        old(h)@.mem.contains_key(p),
    ensures
        ({
            let (h1, vals) = objects_at(old(h)@, mirror::tuple_ptrs_of(old(h)@.mem[p]));
            let (h2, id) = heap::new_cell(h1);
            final(h)@ == tidied(h2) && r@ == NatV { id, val: ObjV::Tuple(vals) }
        }),
{
    let slots: Vec<usize> = match h.store(p) {
        Some(s) => s.tuple_slots(),
        None => Vec::new(),
    };
    let vals: Vec<Native> = read_slots(h, &slots);
    let id: usize = h.fresh_cell();
    tidy(h);
    Native { id, val: Object::Tuple(vals) }
}

/// The objects in the slots of a list as a new list, NULL as `None`.
pub fn read_list(h: &mut Heap, p: usize) -> (r: Native)
    requires
        old(h)@.mem.contains_key(p),
    ensures
        ({
            let (h1, vals) = objects_at(old(h)@, mirror::list_ptrs_of(old(h)@.mem[p]));
            let (h2, id) = heap::new_cell(h1);
            final(h)@ == tidied(h2) && r@ == NatV { id, val: ObjV::List(vals) }
        }),
{
    let slots: Vec<usize> = match h.store(p) {
        Some(s) => s.list_slots(),
        None => Vec::new(),
    };
    let vals: Vec<Native> = read_slots(h, &slots);
    let id: usize = h.fresh_cell();
    tidy(h);
    Native { id, val: Object::List(vals) }
}

} // verus!
