//! Lists and tuples that C code reads and writes directly.

use vstd::prelude::*;
use crate::bytes;
use crate::bytes::{get_slot, get_slots, put_slots, put_u64, zero_block};
use crate::heap;
use crate::heap::{Digest, Heap, HeapV, ListSync, Store, StoreV};
use crate::layout;
use crate::layout::{get_field, set_field, LIST_SIZE, HEAD};
use crate::freeing;
use crate::mirror;
use crate::reading;
use crate::freeing::{contains, release, retain_not};
use crate::mirror::{digest_objects, is_faithful_list, size_of};
use crate::reading::{catch_up, cell_of, read_object, read_slots, register_seeded_list, tidy};
use crate::object::Py_IncRef;
use crate::value;
use crate::value::Native;

verus! {

broadcast use vstd::std_specs::hash::group_hash_axioms;

// ---------------------------------------------------------------------------
// Reading
// ---------------------------------------------------------------------------

/// The number of elements of a list.
pub fn list_size(h: &Heap, p: usize) -> (r: u64)
    requires
        mirror::list_at(h@, p),
    ensures
        r == mirror::var_size(h@.mem[p].tail),
{
    match h.store(p) {
        Some(s) => size_of(&s.tail),
        None => 0,
    }
}

/// The element at an index, which the list still owns; `None` where the index is
/// out of range.
pub fn list_slot(h: &Heap, p: usize, pos: i64) -> (r: Option<usize>)
    requires
        mirror::list_at(h@, p),
    ensures
        ({
            let ps = mirror::list_ptrs_of(h@.mem[p]);
            r == if 0 <= pos < ps.len() {
                Some(ps[pos as int])
            } else {
                None::<usize>
            }
        }),
{
    let ps: Vec<usize> = list_ptrs(h, p);
    if pos < 0 || pos as u64 >= ps.len() as u64 {
        return None;
    }
    Some(ps[pos as usize])
}

/// The elements of a list, which the list still owns.
pub fn list_ptrs(h: &Heap, p: usize) -> (r: Vec<usize>)
    requires
        mirror::list_at(h@, p),
    ensures
        r@ == mirror::list_ptrs_of(h@.mem[p]),
{
    match h.store(p) {
        Some(s) => s.list_slots(),
        None => Vec::new(),
    }
}

/// The element of a tuple at an index, which the tuple still owns; `None` where
/// the index is out of range.
pub fn tuple_slot(h: &Heap, p: usize, pos: i64) -> (r: Option<usize>)
    requires
        mirror::tuple_at(h@, p),
    ensures
        ({
            let ps = mirror::tuple_ptrs_of(h@.mem[p]);
            r == if 0 <= pos < ps.len() {
                Some(ps[pos as int])
            } else {
                None::<usize>
            }
        }),
{
    let ps: Vec<usize> = match h.store(p) {
        Some(s) => s.tuple_slots(),
        None => {
            return None;
        },
    };
    if pos < 0 || pos as u64 >= ps.len() as u64 {
        return None;
    }
    Some(ps[pos as usize])
}

// ---------------------------------------------------------------------------
// Writing slots
// ---------------------------------------------------------------------------

/// The address in a slot of a list's buffer; NULL past its end.
pub open spec fn slot_of(s: StoreV, i: int) -> usize {
    if 0 <= i && 8 * i + 8 <= s.aux.len() {
        bytes::slot(s.aux, 8 * i)
    } else {
        0
    }
}

/// The storage with an address in a slot of the buffer.
pub open spec fn with_slot(s: StoreV, i: int, v: usize) -> StoreV {
    if 0 <= i && 8 * i + 8 <= s.aux.len() {
        StoreV { aux: bytes::put(s.aux, 8 * i, bytes::le_bytes(v as nat, 8)), ..s }
    } else {
        s
    }
}

/// The storage of a list with another size; a body too small for a list stays
/// as it is.
pub open spec fn with_size(s: StoreV, n: nat) -> StoreV {
    if s.tail.len() >= LIST_SIZE - HEAD {
        StoreV { tail: layout::with_field(s.tail, 16, n as u64), ..s }
    } else {
        s
    }
}

/// Change the storage of an object, if it still exists.
pub open spec fn changed(h: HeapV, p: usize, s: StoreV) -> HeapV {
    if h.mem.contains_key(p) {
        heap::with_store(h, p, s)
    } else {
        h
    }
}

pub(crate) fn get_list_slot(h: &Heap, p: usize, i: usize) -> (r: usize)
    requires
        h@.mem.contains_key(p),
    ensures
        r == slot_of(h@.mem[p], i as int),
{
    match h.store(p) {
        Some(s) => {
            let n: usize = s.aux.len() / 8;
            if i >= n {
                return 0;
            }
            get_slot(s.aux.as_slice(), 8 * i)
        },
        None => 0,
    }
}

pub(crate) fn set_list_slot(h: &mut Heap, p: usize, i: usize, v: usize)
    ensures
        final(h)@ == changed(old(h)@, p, with_slot(old(h)@.mem[p], i as int, v)),
{
    let ghost h0 = h@;
    if let Some(mut s) = h.take_store(p) {
        let n: usize = s.aux.len() / 8;
        if i < n {
            put_u64(&mut s.aux, 8 * i, v as u64);
        }
        h.put_store(p, s);
        assert(h@.mem =~= h0.mem.insert(p, s@));
    } else {
        assert(h@.mem =~= h0.mem);
    }
}

pub(crate) fn set_list_size(h: &mut Heap, p: usize, n: usize)
    ensures
        final(h)@ == changed(old(h)@, p, with_size(old(h)@.mem[p], n as nat)),
{
    let ghost h0 = h@;
    if let Some(mut s) = h.take_store(p) {
        if s.tail.len() >= LIST_SIZE - HEAD {
            set_field(&mut s.tail, 16, n as u64);
        }
        h.put_store(p, s);
        assert(h@.mem =~= h0.mem.insert(p, s@));
    } else {
        assert(h@.mem =~= h0.mem);
    }
}

// ---------------------------------------------------------------------------
// Growing
// ---------------------------------------------------------------------------

/// How many slots a list says it has room for.
pub open spec fn room_of(s: StoreV) -> nat {
    let w = mirror::word_at(s.tail, 32);
    if w < 0x8000_0000_0000_0000 {
        w as nat
    } else {
        0
    }
}

/// The buffer holds at least so many slots.
pub open spec fn roomy(s: StoreV, min: nat) -> bool {
    min <= room_of(s) && min <= s.aux.len() / 8 && mirror::word_at(s.tail, 24) != 0
}

/// How many slots a list gets that needs room for `min`: an eighth more and six,
/// at least twice what it has.
pub open spec fn grown_room(min: nat, now: nat) -> nat {
    let g = min + min / 8 + 6;
    if g >= 2 * now {
        g
    } else {
        2 * now
    }
}

/// The list can get a larger buffer.
pub open spec fn can_grow(h: HeapV, s: StoreV, min: nat) -> bool {
    let bytes = 8 * grown_room(min, room_of(s));
    s.tail.len() >= LIST_SIZE - HEAD && bytes <= isize::MAX && heap::has_room(h, bytes)
}

/// The list with a buffer of `cap` slots at `at`: its elements, then NULLs.
pub open spec fn regrown(s: StoreV, cap: nat, at: usize) -> StoreV {
    StoreV {
        tail: layout::with_field(layout::with_field(s.tail, 24, at as u64), 32, cap as u64),
        aux: bytes::put(
            bytes::zeros(8 * cap),
            0,
            mirror::slot_bytes(
                mirror::list_ptrs_of(s).take(
                    if mirror::list_ptrs_of(s).len() <= cap {
                        mirror::list_ptrs_of(s).len() as int
                    } else {
                        cap as int
                    },
                ),
            ),
        ),
        aux_addr: at,
        ..s
    }
}

/// Make room for at least so many slots. Where there is no room the list stays
/// as it is.
#[verifier::opaque]
pub open spec fn reserved(h: HeapV, p: usize, min: nat) -> HeapV {
    let s = h.mem[p];
    if roomy(s, min) || !can_grow(h, s, min) {
        h
    } else {
        let cap = grown_room(min, room_of(s));
        let (h1, at) = heap::allocated(h, 8 * cap);
        heap::with_store(h1, p, regrown(s, cap, at))
    }
}

fn head_of(ps: Vec<usize>, cap: usize) -> (r: Vec<usize>)
    ensures
        r@ == ps@.take(
            if ps@.len() <= cap {
                ps@.len() as int
            } else {
                cap as int
            },
        ),
{
    let mut out: Vec<usize> = Vec::new();
    let mut i: usize = 0;
    while i < ps.len() && i < cap
        invariant
            i <= ps@.len(),
            i <= cap,
            out@ == ps@.take(i as int),
        decreases ps.len() - i,
    {
        out.push(ps[i]);
        i = i + 1;
        assert(out@ =~= ps@.take(i as int));
    }
    out
}

fn regrow(s: &mut Store, cap: usize, at: usize)
    requires
        old(s)@.tail.len() >= LIST_SIZE - HEAD,
        8 * cap <= isize::MAX,
    ensures
        final(s)@ == regrown(old(s)@, cap as nat, at),
{
    let ghost s0 = s@;
    let ps: Vec<usize> = head_of(s.list_slots(), cap);
    let mut b: Vec<u8> = zero_block(8 * cap);
    proof {
        bytes::lemma_flat_len(bytes::nats(ps@), 8);
    }
    put_slots(&mut b, 0, &ps);
    s.aux = b;
    s.aux_addr = at;
    set_field(&mut s.tail, 24, at as u64);
    set_field(&mut s.tail, 32, cap as u64);
    assert(s@ =~= regrown(s0, cap as nat, at));
}

impl Store {
    fn room(&self) -> (r: u64)
        ensures
            r == room_of(self@),
    {
        let w: u64 = get_field(self.tail.as_slice(), 32);
        if w < 0x8000_0000_0000_0000 {
            w
        } else {
            0
        }
    }

    fn is_roomy(&self, min: usize) -> (r: bool)
        ensures
            r == roomy(self@, min as nat),
    {
        min as u64 <= self.room() && min <= self.aux.len() / 8 && get_field(
            self.tail.as_slice(),
            24,
        ) != 0
    }

    /// The number of slots to grow to, where a buffer can have so many.
    fn goal(&self, min: usize) -> (r: Option<usize>)
        ensures
            match r {
                Some(c) => c == grown_room(min as nat, room_of(self@)) && 8 * c <= isize::MAX
                    && self@.tail.len() >= LIST_SIZE - HEAD,
                None => 8 * grown_room(min as nat, room_of(self@)) > isize::MAX
                    || self@.tail.len() < LIST_SIZE - HEAD,
            },
    {
        let room: u128 = self.room() as u128;
        let g: u128 = min as u128 + min as u128 / 8 + 6;
        let cap: u128 = if g >= 2 * room {
            g
        } else {
            2 * room
        };
        if self.tail.len() < LIST_SIZE - HEAD || 8 * cap > isize::MAX as u128 {
            None
        } else {
            Some(cap as usize)
        }
    }
}

/// Make room for at least so many slots; whether there is room now.
pub fn list_reserve(h: &mut Heap, p: usize, min: usize) -> (r: bool)
    requires
        old(h)@.mem.contains_key(p),
    ensures
        final(h)@ == reserved(old(h)@, p, min as nat),
        r == roomy(final(h)@.mem[p], min as nat),
        reading::same_objects(old(h)@, final(h)@),
{
    proof {
        reveal(reserved);
    }
    let cap: usize = match h.store(p) {
        Some(s) => {
            if s.is_roomy(min) {
                return true;
            }
            match s.goal(min) {
                Some(c) => c,
                None => {
                    return false;
                },
            }
        },
        None => {
            return false;
        },
    };
    let need: u128 = ((8 * cap) as u128 / 256 + 1) * 256;
    if h.next as u128 + need > usize::MAX as u128 {
        return false;
    }
    let ghost s0 = h@.mem[p];
    let at: usize = h.fresh_addr(8 * cap);
    let ghost h1 = h@;
    if let Some(mut s) = h.take_store(p) {
        regrow(&mut s, cap, at);
        h.put_store(p, s);
        assert(h@.mem =~= h1.mem.insert(p, s@));
        proof {
            lemma_regrown(s0, cap as nat, at);
        }
    }
    assert(h@ == reserved(old(h)@, p, min as nat));
    assert(h@.mem.dom() =~= old(h)@.mem.dom());
    at != 0
}

/// The new buffer has the room that was asked for.
pub proof fn lemma_regrown(s: StoreV, cap: nat, at: usize)
    requires
        s.tail.len() >= LIST_SIZE - HEAD,
        8 * cap <= isize::MAX,
    ensures
        room_of(regrown(s, cap, at)) == cap,
        regrown(s, cap, at).aux.len() == 8 * cap,
        mirror::word_at(regrown(s, cap, at).tail, 24) == at,
        regrown(s, cap, at).tail.len() == s.tail.len(),
        mirror::var_size(regrown(s, cap, at).tail) == mirror::var_size(s.tail),
{
    let a = layout::with_field(s.tail, 24, at as u64);
    let b = layout::with_field(a, 32, cap as u64);
    vstd::arithmetic::power2::lemma2_to64_rest();
    bytes::lemma_le_bytes(cap as nat, 8);
    bytes::lemma_le_bytes(at as nat, 8);
    bytes::lemma_word_put(a, 32 - HEAD, cap as nat, 8);
    bytes::lemma_word_put(s.tail, 24 - HEAD, at as nat, 8);
    bytes::lemma_word_beside(a, 32 - HEAD, bytes::le_bytes(cap as nat, 8), 24 - HEAD, 8);
    bytes::lemma_word_beside(a, 32 - HEAD, bytes::le_bytes(cap as nat, 8), 0, 8);
    bytes::lemma_word_beside(s.tail, 24 - HEAD, bytes::le_bytes(at as nat, 8), 0, 8);
}

// ---------------------------------------------------------------------------
// Both sides agree
// ---------------------------------------------------------------------------

/// Both sides of a list agree: the digests are recorded, for a shared list in
/// the table of shared lists, and for a list made from the VM beside it.
#[verifier::opaque]
pub open spec fn agreed(h: HeapV, p: usize) -> HeapV {
    let s = h.mem[p];
    let c = mirror::ptrs_digest(s);
    let fp = match reading::live_cell(h, s) {
        Some(id) => Some(mirror::objs_digest(h.cells[id])),
        None => None,
    };
    let h1 = if h.seeded.contains_key(p) {
        HeapV {
            seeded: h.seeded.insert(
                p,
                ListSync {
                    rc_fp: if fp is Some {
                        fp
                    } else {
                        h.seeded[p].rc_fp
                    },
                    c_ptrs: c,
                },
            ),
            ..h
        }
    } else {
        h
    };
    if s.list_mint is Some && fp is Some {
        heap::with_store(h1, p, StoreV { list_mint: Some((c, fp->0)), ..s })
    } else {
        h1
    }
}

fn live_digest(h: &Heap, p: usize) -> (r: Option<Digest>)
    requires
        h@.mem.contains_key(p),
    ensures
        r == (match reading::live_cell(h@, h@.mem[p]) {
            Some(id) => Some(mirror::objs_digest(h@.cells[id])),
            None => None,
        }),
{
    match h.store(p) {
        Some(s) => match cell_of(s) {
            Some(id) => match h.cell(id) {
                Some(v) => Some(digest_objects(v)),
                None => None,
            },
            None => None,
        },
        None => None,
    }
}

fn note_c_agreement(h: &mut Heap, p: usize)
    requires
        old(h)@.mem.contains_key(p),
    ensures
        final(h)@ == agreed(old(h)@, p),
        reading::same_objects(old(h)@, final(h)@),
{
    proof {
        reveal(agreed);
    }
    let fp: Option<Digest> = live_digest(h, p);
    let (c, minted): (Digest, bool) = match h.store(p) {
        Some(s) => (s.list_digest(), s.list_mint.is_some()),
        None => {
            return;
        },
    };
    let now: Option<ListSync> = match h.seeded.get(&p) {
        Some(e) => Some(*e),
        None => None,
    };
    if let Some(e) = now {
        let rc_fp: Option<Digest> = if fp.is_some() {
            fp
        } else {
            e.rc_fp
        };
        h.seeded.insert(p, ListSync { rc_fp, c_ptrs: c });
    }
    let ghost h1 = h@;
    if let Some(f) = fp {
        if minted {
            if let Some(mut s) = h.take_store(p) {
                s.list_mint = Some((c, f));
                h.put_store(p, s);
                assert(h@.mem =~= h1.mem.insert(p, s@));
            }
        }
    }
    assert(h@ =~= agreed(old(h)@, p));
    assert(h@.mem.dom() =~= old(h)@.mem.dom());
}

/// The first time that C code changes a list through the API, the VM list is
/// filled from the slots, and the list is recorded as shared.
#[verifier::opaque]
pub open spec fn seeded_once(h: HeapV, p: usize) -> HeapV {
    if h.mem[p].list_synced {
        h
    } else {
        match reading::live_cell(h, h.mem[p]) {
            None => h,
            Some(id) => {
                let (h1, vals) = reading::objects_at(h,
                    mirror::list_ptrs_of(h.mem[p]));
                let h2 = reading::with_cell(h1, id, vals);
                reading::registered(
                    heap::with_store(h2, p, StoreV { list_synced: true, ..h2.mem[p] }),
                    p,
                )
            },
        }
    }
}

pub(crate) fn live_id(h: &Heap, p: usize) -> (r: Option<usize>)
    requires
        h@.mem.contains_key(p),
    ensures
        r == reading::live_cell(h@, h@.mem[p]),
{
    match h.store(p) {
        Some(s) => match cell_of(s) {
            Some(id) => if h.cells.contains_key(&id) {
                Some(id)
            } else {
                None
            },
            None => None,
        },
        None => None,
    }
}

fn mark_synced(h: &mut Heap, p: usize)
    requires
        old(h)@.mem.contains_key(p),
    ensures
        final(h)@ == heap::with_store(
            old(h)@,
            p,
            StoreV { list_synced: true, ..old(h)@.mem[p] },
        ),
{
    let ghost h0 = h@;
    if let Some(mut s) = h.take_store(p) {
        s.list_synced = true;
        h.put_store(p, s);
        assert(h@.mem =~= h0.mem.insert(p, s@));
    }
}

/// Fill the VM list from the slots once.
pub fn list_prefix_seed_once(h: &mut Heap, p: usize)
    requires
        old(h)@.mem.contains_key(p),
    ensures
        final(h)@ == seeded_once(old(h)@, p),
        reading::same_objects(old(h)@, final(h)@),
{
    proof {
        reveal(seeded_once);
    }
    let (synced, ps): (bool, Vec<usize>) = match h.store(p) {
        Some(s) => (s.list_synced, s.list_slots()),
        None => {
            return;
        },
    };
    if synced {
        return;
    }
    if let Some(id) = live_id(h, p) {
        let vals: Vec<Native> = read_slots(h, &ps);
        h.put_cell(id, vals);
        mark_synced(h, p);
        register_seeded_list(h, p);
        assert(h@ == seeded_once(old(h)@, p));
        assert(h@.mem.dom() =~= old(h)@.mem.dom());
    }
}

/// A list before an element of it changes: seeded, with what C code wrote
/// directly adopted.
#[verifier::opaque]
pub open spec fn settled(h: HeapV, p: usize) -> HeapV {
    reading::caught_up(seeded_once(h, p), p)
}

fn settle(h: &mut Heap, p: usize)
    requires
        old(h)@.mem.contains_key(p),
    ensures
        final(h)@ == settled(old(h)@, p),
        reading::same_objects(old(h)@, final(h)@),
{
    proof {
        reveal(settled);
    }
    list_prefix_seed_once(h, p);
    catch_up(h, p);
}

// ---------------------------------------------------------------------------
// Changing lists
// ---------------------------------------------------------------------------

/// The VM list behind an object gets one more element: what an address stands
/// for.
#[verifier::opaque]
pub open spec fn vm_pushed(h: HeapV, p: usize, item: usize) -> HeapV {
    match reading::live_cell(h, h.mem[p]) {
        None => h,
        Some(id) => {
            let (h1, v) = reading::object_at(h, item);
            if h1.cells.contains_key(id) {
                reading::with_cell(h1, id, h1.cells[id].push(v))
            } else {
                h1
            }
        },
    }
}

/// The VM list behind an object gets what an address stands for before an
/// index, at most at its end.
#[verifier::opaque]
pub open spec fn vm_inserted(h: HeapV, p: usize, at: nat, item: usize) -> HeapV {
    match reading::live_cell(h, h.mem[p]) {
        None => h,
        Some(id) => {
            let (h1, v) = reading::object_at(h, item);
            if h1.cells.contains_key(id) {
                let now = h1.cells[id];
                reading::with_cell(
                    h1,
                    id,
                    now.insert(
                        if at <= now.len() {
                            at as int
                        } else {
                            now.len() as int
                        },
                        v,
                    ),
                )
            } else {
                h1
            }
        },
    }
}

/// The VM list behind an object gets what an address stands for at an index,
/// where it has that index.
#[verifier::opaque]
pub open spec fn vm_stored(h: HeapV, p: usize, at: nat, item: usize) -> HeapV {
    match reading::live_cell(h, h.mem[p]) {
        None => h,
        Some(id) => if at < h.cells[id].len() {
            let (h1, v) = reading::object_at(h, item);
            if h1.cells.contains_key(id) && at < h1.cells[id].len() {
                reading::with_cell(h1, id, h1.cells[id].update(at as int, v))
            } else {
                h1
            }
        } else {
            h
        },
    }
}

proof fn lemma_deep_insert(s: Seq<Native>, at: int, n: Native)
    requires
        0 <= at <= s.len(),
    ensures
        value::seq_deep(s.insert(at, n)) == value::seq_deep(s).insert(at, n@),
{
    value::lemma_seq_deep(s);
    value::lemma_seq_deep(s.insert(at, n));
    let a = value::seq_deep(s.insert(at, n));
    let b = value::seq_deep(s).insert(at, n@);
    assert(a.len() == b.len());
    assert forall|i: int| 0 <= i < a.len() implies a[i] == b[i] by {
        assert(a[i] == value::nat_deep(s.insert(at, n)[i]));
        if i < at {
            assert(value::seq_deep(s)[i] == value::nat_deep(s[i]));
        } else if i > at {
            assert(value::seq_deep(s)[i - 1] == value::nat_deep(s[i - 1]));
        }
    }
    assert(a =~= b);
}

proof fn lemma_deep_update(s: Seq<Native>, at: int, n: Native)
    requires
        0 <= at < s.len(),
    ensures
        value::seq_deep(s.update(at, n)) == value::seq_deep(s).update(at, n@),
{
    value::lemma_seq_deep(s);
    value::lemma_seq_deep(s.update(at, n));
    let a = value::seq_deep(s.update(at, n));
    let b = value::seq_deep(s).update(at, n@);
    assert forall|i: int| 0 <= i < a.len() implies a[i] == b[i] by {
        assert(a[i] == value::nat_deep(s.update(at, n)[i]));
        assert(value::seq_deep(s)[i] == value::nat_deep(s[i]));
    }
    assert(a =~= b);
}

fn take_cell(h: &mut Heap, id: usize) -> (r: Option<Vec<Native>>)
    ensures
        final(h)@ == (HeapV { cells: old(h)@.cells.remove(id), ..old(h)@ }),
        match r {
            Some(v) => old(h)@.cells.contains_key(id) && old(h)@.cells[id] == value::seq_deep(v@),
            None => !old(h)@.cells.contains_key(id),
        },
{
    let r: Option<Vec<Native>> = h.cells.remove(&id);
    assert(h@.cells =~= old(h)@.cells.remove(id));
    assert(h@ =~= (HeapV { cells: old(h)@.cells.remove(id), ..old(h)@ }));
    r
}

fn vm_push(h: &mut Heap, p: usize, item: usize)
    requires
        old(h)@.mem.contains_key(p),
    ensures
        final(h)@ == vm_pushed(old(h)@, p, item),
        reading::same_objects(old(h)@, final(h)@),
{
    proof {
        reveal(vm_pushed);
    }
    if let Some(id) = live_id(h, p) {
        let v: Native = read_object(h, item);
        let ghost h1 = h@;
        if let Some(mut items) = take_cell(h, id) {
            proof {
                value::lemma_seq_deep_push(items@, v);
            }
            items.push(v);
            h.put_cell(id, items);
            assert(h@.cells =~= h1.cells.insert(id, h1.cells[id].push(v@)));
        } else {
            assert(h@.cells =~= h1.cells);
        }
    }
}

fn vm_insert(h: &mut Heap, p: usize, at: usize, item: usize)
    requires
        old(h)@.mem.contains_key(p),
    ensures
        final(h)@ == vm_inserted(old(h)@, p, at as nat, item),
        reading::same_objects(old(h)@, final(h)@),
{
    proof {
        reveal(vm_inserted);
    }
    if let Some(id) = live_id(h, p) {
        let v: Native = read_object(h, item);
        let ghost h1 = h@;
        if let Some(mut items) = take_cell(h, id) {
            let k: usize = if at <= items.len() {
                at
            } else {
                items.len()
            };
            proof {
                value::lemma_seq_deep(items@);
                lemma_deep_insert(items@, k as int, v);
            }
            items.insert(k, v);
            h.put_cell(id, items);
            assert(h@.cells =~= h1.cells.insert(id, h1.cells[id].insert(k as int, v@)));
        } else {
            assert(h@.cells =~= h1.cells);
        }
    }
}

fn vm_store(h: &mut Heap, p: usize, at: usize, item: usize)
    requires
        old(h)@.mem.contains_key(p),
    ensures
        final(h)@ == vm_stored(old(h)@, p, at as nat, item),
        reading::same_objects(old(h)@, final(h)@),
{
    proof {
        reveal(vm_stored);
    }
    if let Some(id) = live_id(h, p) {
        let n: usize = match h.cell(id) {
            Some(v) => {
                proof {
                    value::lemma_seq_deep(v@);
                }
                v.len()
            },
            None => 0,
        };
        if at < n {
            let v: Native = read_object(h, item);
            let ghost h1 = h@;
            if let Some(mut items) = take_cell(h, id) {
                proof {
                    value::lemma_seq_deep(items@);
                }
                if at < items.len() {
                    proof {
                        lemma_deep_update(items@, at as int, v);
                    }
                    items.set(at, v);
                    h.put_cell(id, items);
                    assert(h@.cells =~= h1.cells.insert(id, h1.cells[id].update(at as int, v@)));
                } else {
                    h.put_cell(id, items);
                    assert(h@.cells =~= h1.cells);
                }
            } else {
                assert(h@.cells =~= h1.cells);
            }
        }
    }
}

/// Append an element to a list, which takes a reference of its own to it; false
/// where there is no room, and then only direct writes have been adopted.
pub open spec fn appended(h: HeapV, p: usize, item: usize) -> (HeapV, bool) {
    let h1 = settled(h, p);
    let n = mirror::var_size(h1.mem[p].tail) as nat;
    let h2 = reserved(h1, p, n + 1);
    if !roomy(h2.mem[p], n + 1) {
        (h2, false)
    } else {
        let h3 = heap::increfed(h2, item);
        let h4 = heap::with_store(
            h3,
            p,
            with_size(with_slot(h3.mem[p], n as int, item), n + 1),
        );
        (agreed(vm_pushed(h4, p, item), p), true)
    }
}

fn reserve_one(h: &mut Heap, p: usize) -> (r: Option<usize>)
    requires
        old(h)@.mem.contains_key(p),
    ensures
        ({
            let n = mirror::var_size(old(h)@.mem[p].tail) as nat;
            &&& final(h)@ == reserved(old(h)@, p, n + 1)
            &&& r is Some == roomy(final(h)@.mem[p], n + 1)
            &&& r is Some ==> r->0 == n && n < isize::MAX
        }),
        reading::same_objects(old(h)@, final(h)@),
{
    proof {
        reveal(reserved);
    }
    let (n, have): (u64, usize) = match h.store(p) {
        Some(s) => (size_of(&s.tail), s.aux.len()),
        None => (0, 0),
    };
    if n >= isize::MAX as u64 {
        assert(have / 8 < n + 1);
        return None;
    }
    let k: usize = n as usize;
    if list_reserve(h, p, k + 1) {
        Some(k)
    } else {
        None
    }
}

fn append_slot(h: &mut Heap, p: usize, item: usize) -> (r: bool)
    requires
        mirror::list_at(old(h)@, p),
    ensures
        (final(h)@, r) == appended(old(h)@, p, item),
{
    settle(h, p);
    match reserve_one(h, p) {
        Some(n) => {
            Py_IncRef(h, item);
            let ghost h3 = h@;
            set_list_slot(h, p, n, item);
            set_list_size(h, p, n + 1);
            assert(h@.mem =~= h3.mem.insert(
                p,
                with_size(with_slot(h3.mem[p], n as int, item), (n + 1) as nat),
            ));
            vm_push(h, p, item);
            note_c_agreement(h, p);
            true
        },
        None => false,
    }
}

/// Append an element to a list.
pub fn list_append(h: &mut Heap, p: usize, item: usize) -> (r: bool)
    requires
        mirror::list_at(old(h)@, p),
    ensures
        ({
            let (h1, done) = appended(old(h)@, p, item);
            final(h)@ == reading::tidied(h1) && r == done
        }),
{
    let done: bool = append_slot(h, p, item);
    tidy(h);
    done
}

/// The index that an insertion goes to: between zero and the number of elements.
pub open spec fn clamped(pos: i64, n: nat) -> nat {
    if pos < 0 {
        0
    } else if pos as nat <= n {
        pos as nat
    } else {
        n
    }
}

/// The slots from an index on.
pub open spec fn slots_from(s: StoreV, at: nat, n: nat) -> Seq<usize> {
    bytes::slots(s.aux, (8 * at) as int, (n - at) as nat)
}

/// The storage with an address inserted before a slot: those behind it move up.
pub open spec fn with_inserted(s: StoreV, at: nat, n: nat, v: usize) -> StoreV {
    StoreV {
        aux: bytes::put(
            s.aux,
            (8 * at) as int,
            mirror::slot_bytes(seq![v] + slots_from(s, at, n)),
        ),
        ..s
    }
}

/// Insert an element into a list, which takes a reference of its own to it;
/// false where there is no room, and then only direct writes have been adopted.
pub open spec fn inserted(h: HeapV, p: usize, pos: i64, item: usize) -> (HeapV, bool) {
    let h1 = settled(h, p);
    let n = mirror::var_size(h1.mem[p].tail) as nat;
    let h2 = reserved(h1, p, n + 1);
    if !roomy(h2.mem[p], n + 1) {
        (h2, false)
    } else {
        let at = clamped(pos, n);
        let h3 = heap::increfed(h2, item);
        let h4 = heap::with_store(
            h3,
            p,
            with_size(with_inserted(h3.mem[p], at, n, item), n + 1),
        );
        (agreed(vm_inserted(h4, p, at, item), p), true)
    }
}

fn shift_in(h: &mut Heap, p: usize, at: usize, n: usize, v: usize)
    requires
        old(h)@.mem.contains_key(p),
        at <= n,
        8 * (n + 1) <= old(h)@.mem[p].aux.len(),
    ensures
        final(h)@ == heap::with_store(
            old(h)@,
            p,
            with_inserted(old(h)@.mem[p], at as nat, n as nat, v),
        ),
{
    let ghost h0 = h@;
    if let Some(mut s) = h.take_store(p) {
        let size: usize = s.aux.len();
        assert(8 * (n + 1) <= size);
        let rest: Vec<usize> = get_slots(s.aux.as_slice(), 8 * at, n - at);
        let mut moved: Vec<usize> = Vec::new();
        moved.push(v);
        let mut more: Vec<usize> = rest;
        moved.append(&mut more);
        assert(moved@ =~= seq![v] + slots_from(h0.mem[p], at as nat, n as nat));
        put_slots(&mut s.aux, 8 * at, &moved);
        h.put_store(p, s);
        assert(h@.mem =~= h0.mem.insert(p, s@));
    }
}

fn insert_slot(h: &mut Heap, p: usize, pos: i64, item: usize) -> (r: bool)
    requires
        mirror::list_at(old(h)@, p),
    ensures
        (final(h)@, r) == inserted(old(h)@, p, pos, item),
{
    settle(h, p);
    match reserve_one(h, p) {
        Some(n) => {
            let at: usize = if pos < 0 {
                0
            } else if pos as u64 <= n as u64 {
                pos as usize
            } else {
                n
            };
            Py_IncRef(h, item);
            let ghost h3 = h@;
            shift_in(h, p, at, n, item);
            set_list_size(h, p, n + 1);
            assert(h@.mem =~= h3.mem.insert(
                p,
                with_size(
                    with_inserted(h3.mem[p], at as nat, n as nat, item),
                    (n + 1) as nat,
                ),
            ));
            vm_insert(h, p, at, item);
            note_c_agreement(h, p);
            true
        },
        None => false,
    }
}

/// Insert an element into a list before an index.
pub fn list_insert(h: &mut Heap, p: usize, pos: i64, item: usize) -> (r: bool)
    requires
        mirror::list_at(old(h)@, p),
    ensures
        ({
            let (h1, done) = inserted(old(h)@, p, pos, item);
            final(h)@ == reading::tidied(h1) && r == done
        }),
{
    let done: bool = insert_slot(h, p, pos, item);
    tidy(h);
    done
}

/// Replace an element of a list. The list takes over the reference to the new
/// element and releases the old one. False where the index is out of range, and
/// then nothing changes.
pub open spec fn stored(h: HeapV, p: usize, pos: i64, item: usize) -> (HeapV, bool) {
    if pos < 0 || pos as nat >= mirror::list_ptrs_of(h.mem[p]).len() {
        (h, false)
    } else {
        let h1 = settled(h, p);
        let prev = slot_of(h1.mem[p], pos as int);
        let h2 = changed(h1, p, with_slot(h1.mem[p], pos as int, item));
        let h3 = if prev != 0 {
            freeing::released(h2, seq![prev])
        } else {
            h2
        };
        if h3.mem.contains_key(p) {
            (agreed(vm_stored(h3, p, pos as nat, item), p), true)
        } else {
            (h3, true)
        }
    }
}

/// Release one reference.
pub fn decref_one(h: &mut Heap, p: usize)
    ensures
        final(h)@ == freeing::released(old(h)@, seq![p]),
{
    let mut work: Vec<usize> = Vec::new();
    work.push(p);
    assert(work@ =~= seq![p]);
    release(h, work);
}

fn replace_slot(h: &mut Heap, p: usize, pos: i64, item: usize) -> (r: bool)
    requires
        mirror::list_at(old(h)@, p),
    ensures
        (final(h)@, r) == stored(old(h)@, p, pos, item),
{
    let n: usize = list_ptrs(h, p).len();
    if pos < 0 || pos as u64 >= n as u64 {
        return false;
    }
    let k: usize = pos as usize;
    settle(h, p);
    let prev: usize = get_list_slot(h, p, k);
    set_list_slot(h, p, k, item);
    if prev != 0 {
        decref_one(h, prev);
    }
    if h.mem.contains_key(&p) {
        vm_store(h, p, k, item);
        note_c_agreement(h, p);
    }
    true
}

/// Replace an element of a list.
pub fn list_store(h: &mut Heap, p: usize, pos: i64, item: usize) -> (r: bool)
    requires
        mirror::list_at(old(h)@, p),
    ensures
        ({
            let (h1, done) = stored(old(h)@, p, pos, item);
            final(h)@ == reading::tidied(h1) && r == done
        }),
{
    let done: bool = replace_slot(h, p, pos, item);
    tidy(h);
    done
}

/// The VM list behind an object is filled from its slots, and a list that was
/// not shared yet is recorded as shared.
#[verifier::opaque]
pub open spec fn refilled(h: HeapV, p: usize) -> HeapV {
    match reading::live_cell(h, h.mem[p]) {
        None => h,
        Some(id) => {
            let (h1, vals) = reading::objects_at(h, mirror::list_ptrs_of(h.mem[p]));
            let h2 = reading::with_cell(h1, id, vals);
            if h2.mem[p].list_synced {
                h2
            } else {
                reading::registered(
                    heap::with_store(h2, p, StoreV { list_synced: true, ..h2.mem[p] }),
                    p,
                )
            }
        },
    }
}

fn refill(h: &mut Heap, p: usize)
    requires
        mirror::list_at(old(h)@, p),
    ensures
        final(h)@ == refilled(old(h)@, p),
        reading::same_objects(old(h)@, final(h)@),
{
    proof {
        reveal(refilled);
    }
    if let Some(id) = live_id(h, p) {
        let slots: Vec<usize> = list_ptrs(h, p);
        let vals: Vec<Native> = read_slots(h, &slots);
        h.put_cell(id, vals);
        let synced: bool = match h.store(p) {
            Some(s) => s.list_synced,
            None => true,
        };
        if !synced {
            mark_synced(h, p);
            register_seeded_list(h, p);
        }
        assert(h@.mem.dom() =~= old(h)@.mem.dom());
    }
}

/// Reorder the elements of a list: these are its elements in their new order. A
/// list without a buffer has none.
pub open spec fn permuted(h: HeapV, p: usize, ps: Seq<usize>) -> HeapV {
    let s = h.mem[p];
    if mirror::word_at(s.tail, 24) == 0 {
        h
    } else {
        agreed(
            refilled(
                heap::with_store(
                    h,
                    p,
                    StoreV { aux: bytes::put(s.aux, 0, mirror::slot_bytes(ps)), ..s },
                ),
                p,
            ),
            p,
        )
    }
}

fn permute_slots(h: &mut Heap, p: usize, ps: &Vec<usize>)
    requires
        mirror::list_at(old(h)@, p),
        8 * ps@.len() <= old(h)@.mem[p].aux.len(),
    ensures
        final(h)@ == permuted(old(h)@, p, ps@),
{
    let ghost h0 = h@;
    match h.store(p) {
        Some(s) => {
            if get_field(s.tail.as_slice(), 24) == 0 {
                return;
            }
        },
        None => {
            return;
        },
    }
    if let Some(mut s) = h.take_store(p) {
        put_slots(&mut s.aux, 0, ps);
        h.put_store(p, s);
        assert(h@.mem =~= h0.mem.insert(p, s@));
    }
    refill(h, p);
    note_c_agreement(h, p);
}

/// Reorder the elements of a list.
pub fn list_permute(h: &mut Heap, p: usize, ps: &Vec<usize>)
    requires
        mirror::list_at(old(h)@, p),
        8 * ps@.len() <= old(h)@.mem[p].aux.len(),
    ensures
        final(h)@ == reading::tidied(permuted(old(h)@, p, ps@)),
{
    permute_slots(h, p, ps);
    tidy(h);
}

/// Adopt what C code wrote directly into a list; anything else stays as it is.
pub fn adopt_c_list_writes(h: &mut Heap, p: usize)
    ensures
        final(h)@ == (if mirror::list_at(old(h)@, p) {
            reading::tidied(reading::caught_up(old(h)@, p))
        } else {
            old(h)@
        }),
{
    if is_faithful_list(h, p) {
        catch_up(h, p);
        tidy(h);
    }
}

/// A list is no longer recorded as shared.
pub fn unregister_seeded_list(h: &mut Heap, p: usize)
    ensures
        final(h)@ == (if p == 0 {
            old(h)@
        } else {
            HeapV { seeded: old(h)@.seeded.remove(p), ..old(h)@ }
        }),
{
    if p == 0 {
        return;
    }
    h.seeded.remove(&p);
    assert(h@ =~= (HeapV { seeded: old(h)@.seeded.remove(p), ..old(h)@ }));
}

// ---------------------------------------------------------------------------
// Changing tuples
// ---------------------------------------------------------------------------

/// The storage of a tuple with an address in one of its slots.
pub open spec fn with_item(s: StoreV, i: int, v: usize) -> StoreV {
    StoreV { tail: bytes::put(s.tail, 8 + 8 * i, bytes::le_bytes(v as nat, 8)), ..s }
}

/// Replace an element of a tuple. The tuple takes over the reference to the new
/// element and releases the old one. False where the index is out of range, and
/// then nothing changes.
pub open spec fn tuple_stored(h: HeapV, p: usize, pos: i64, item: usize) -> (HeapV, bool) {
    let ps = mirror::tuple_ptrs_of(h.mem[p]);
    if pos < 0 || pos as nat >= ps.len() {
        (h, false)
    } else {
        let h1 = heap::with_store(h, p, with_item(h.mem[p], pos as int, item));
        if ps[pos as int] != 0 {
            (freeing::released(h1, seq![ps[pos as int]]), true)
        } else {
            (h1, true)
        }
    }
}

/// Replace an element of a tuple.
pub fn tuple_store(h: &mut Heap, p: usize, pos: i64, item: usize) -> (r: bool)
    requires
        mirror::tuple_at(old(h)@, p),
    ensures
        (final(h)@, r) == tuple_stored(old(h)@, p, pos, item),
{
    let ps: Vec<usize> = match h.store(p) {
        Some(s) => s.tuple_slots(),
        None => {
            return false;
        },
    };
    if pos < 0 || pos as u64 >= ps.len() as u64 {
        return false;
    }
    let k: usize = pos as usize;
    let prev: usize = ps[k];
    let ghost h0 = h@;
    if let Some(mut s) = h.take_store(p) {
        put_u64(&mut s.tail, 8 + 8 * k, item as u64);
        h.put_store(p, s);
        assert(h@.mem =~= h0.mem.insert(p, s@));
    }
    if prev != 0 {
        decref_one(h, prev);
    }
    true
}

// ---------------------------------------------------------------------------
// Lists whose slots are read directly
// ---------------------------------------------------------------------------

/// At most so many lists are watched.
pub const MACRO_WATCH_CAP: usize = 8;

/// The watched lists with one more: the oldest one leaves where there are too
/// many, and none is there twice.
pub open spec fn with_watched(w: Seq<usize>, p: usize) -> Seq<usize> {
    if w.contains(p) {
        w
    } else if w.len() >= MACRO_WATCH_CAP {
        w.remove(0).push(p)
    } else {
        w.push(p)
    }
}

/// Watch a list whose slots C code reads directly.
pub fn watch_list_for_macro_reads(h: &mut Heap, p: usize)
    ensures
        final(h)@ == (HeapV { watched: with_watched(old(h)@.watched, p), ..old(h)@ }),
{
    if !contains(&h.watched, p) {
        if h.watched.len() >= MACRO_WATCH_CAP {
            h.watched.remove(0);
        }
        h.watched.push(p);
    }
    assert(h@ =~= (HeapV { watched: with_watched(old(h)@.watched, p), ..old(h)@ }));
}

/// A list is no longer watched.
pub fn unwatch_list(h: &mut Heap, p: usize)
    ensures
        final(h)@ == (HeapV { watched: freeing::without(old(h)@.watched, p), ..old(h)@ }),
{
    retain_not(&mut h.watched, p);
    assert(h@ =~= (HeapV { watched: freeing::without(old(h)@.watched, p), ..old(h)@ }));
}

/// Whether no list is watched.
pub fn no_watched_lists(h: &Heap) -> (r: bool)
    ensures
        r == (h@.watched.len() == 0),
{
    h.watched.len() == 0
}

/// Watch no list any more.
pub fn clear_watched_lists(h: &mut Heap)
    ensures
        final(h)@ == (HeapV { watched: Seq::empty(), ..old(h)@ }),
{
    h.watched.clear();
    assert(h@ =~= (HeapV { watched: Seq::empty(), ..old(h)@ }));
}

/// Watching keeps the watched lists few and each there once, and the list is
/// among them afterwards.
pub proof fn law_watch_bounded(w: Seq<usize>, p: usize)
    requires
        w.len() <= MACRO_WATCH_CAP,
        w.no_duplicates(),
    ensures
        with_watched(w, p).len() <= MACRO_WATCH_CAP,
        with_watched(w, p).no_duplicates(),
        with_watched(w, p).contains(p),
{
    let r = with_watched(w, p);
    if !w.contains(p) {
        assert(r.last() == p);
        if w.len() >= MACRO_WATCH_CAP {
            assert forall|i: int, j: int| 0 <= i < r.len() && 0 <= j < r.len() && i != j implies r[i]
                != r[j] by {
                assert(i < w.len() - 1 ==> r[i] == w[i + 1]);
                assert(j < w.len() - 1 ==> r[j] == w[j + 1]);
            }
        }
    }
}

/// A list that is no longer watched is not among the watched lists, and the
/// others stay.
pub proof fn law_unwatched(w: Seq<usize>, p: usize, q: usize)
    ensures
        !freeing::without(w, p).contains(p),
        q != p ==> freeing::without(w, p).contains(q) == w.contains(q),
    decreases w.len(),
{
    if w.len() > 0 {
        law_unwatched(w.drop_last(), p, q);
        let r = freeing::without(w.drop_last(), p);
        if w.last() != p {
            assert(r.push(w.last()).drop_last() =~= r);
            assert forall|x: usize| r.push(w.last()).contains(x) implies r.contains(x) || x
                == w.last() by {
                let k = choose|k: int| 0 <= k < r.push(w.last()).len() && r.push(w.last())[k] == x;
                if k < r.len() {
                    assert(r[k] == x);
                }
            }
            if r.contains(q) {
                let k = choose|k: int| 0 <= k < r.len() && r[k] == q;
                assert(r.push(w.last())[k] == q);
            }
            assert(r.push(w.last())[r.len() as int] == w.last());
        }
        if w.contains(q) && q != w.last() {
            let k = choose|k: int| 0 <= k < w.len() && w[k] == q;
            assert(w.drop_last()[k] == q);
        }
        if w.drop_last().contains(q) {
            let k = choose|k: int| 0 <= k < w.drop_last().len() && w.drop_last()[k] == q;
            assert(w[k] == q);
        }
        assert(w.contains(w.last()));
    }
}

} // verus!
