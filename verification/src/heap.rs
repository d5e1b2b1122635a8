//! The objects that C code can see: their heads, their storage, and the tables
//! that keep their identity.

use std::collections::{HashMap, HashSet};
use vstd::prelude::*;
use crate::object;
use crate::object::{ExcFields, PyObject, Py_IncRef};
use crate::singletons::Singletons;
use crate::value;
use crate::value::{NatV, Native};

verus! {

broadcast use vstd::std_specs::hash::group_hash_axioms;

/// The addresses of the type objects of the builtin types.
#[derive(Clone, Copy, Debug, PartialEq, Eq, Structural)]
pub struct Types {
    pub float_type: usize,
    pub long_type: usize,
    pub bool_type: usize,
    pub complex_type: usize,
    pub bytes_type: usize,
    pub bytearray_type: usize,
    pub unicode_type: usize,
    pub tuple_type: usize,
    pub list_type: usize,
    pub dict_type: usize,
    pub set_type: usize,
    pub frozenset_type: usize,
    pub cfunction_type: usize,
    pub method_type: usize,
    pub slice_type: usize,
    pub memoryview_type: usize,
    pub getset_type: usize,
    pub object_type: usize,
}

/// What the VM and the type machinery say of objects. Nothing here changes
/// while an object crosses.
#[derive(Debug)]
pub struct Facts {
    pub types: Types,
    pub singles: Singletons,
    /// Types whose instances keep their fields inline.
    pub inline_types: HashSet<usize>,
    /// Types whose instances have the body of a list.
    pub list_like: HashSet<usize>,
    /// Types whose instances have the body of a tuple.
    pub tuple_like: HashSet<usize>,
    /// Types that derive from the text type.
    pub text_kin: HashSet<usize>,
    /// Types that derive from the bytes type.
    pub bytes_kin: HashSet<usize>,
    /// Types that derive from the tuple type.
    pub tuple_kin: HashSet<usize>,
    /// The data of a text that is not compact.
    pub far_texts: HashMap<usize, Vec<u8>>,
    /// Type objects.
    pub classes: HashSet<usize>,
    /// The type of a VM object, by the address of its cell.
    pub type_of: HashMap<usize, usize>,
    /// The hash of a text.
    pub hashes: HashMap<usize, i64>,
    /// The address and the capacity of a byte array's data.
    pub buffers: HashMap<usize, (usize, usize)>,
    /// The receiver and the method definition of a builtin made from C.
    pub extras: HashMap<usize, (usize, usize)>,
    /// How many strong references the VM has to an instance.
    pub strong: HashMap<usize, usize>,
    /// The integer in a block whose digits an extension wrote.
    pub raw_values: HashMap<usize, Native>,
    /// The code object that a C object stands for.
    pub codes: HashMap<usize, usize>,
    pub capsules: HashSet<usize>,
    /// Bodies whose storage is being released right now.
    pub in_flight: HashSet<usize>,
}

/// Whether an object's storage belongs to an instance of the VM.
#[derive(Clone, Copy, Debug, PartialEq, Eq, Structural)]
pub enum Link {
    /// It does not.
    Unlinked,
    /// It does, and the instance lives.
    Alive,
    /// It did, and the instance is gone.
    Dead,
}

/// A digest of a sequence, and its length.
#[derive(Clone, Copy, Debug, PartialEq, Eq, Structural)]
pub struct Digest {
    pub hash: u64,
    pub len: usize,
}

/// The storage of one object.
#[derive(Debug)]
pub struct Store {
    /// The VM object behind it.
    pub obj: Native,
    pub link: Link,
    pub destructor: usize,
    /// The bytes after the head.
    pub tail: Vec<u8>,
    /// The buffer beside it and the address of that buffer.
    pub aux: Vec<u8>,
    pub aux_addr: usize,
    pub str_buffer: bool,
    pub bytes_buffer: bool,
    pub list_synced: bool,
    pub scalar_pinned: bool,
    /// The digests of the slots and of the VM list when both last agreed.
    pub list_mint: Option<(Digest, Digest)>,
    /// The exception fields.
    pub exc: ExcFields,
}

/// The mathematical content of a [`Store`].
#[verifier::ext_equal]
pub struct StoreV {
    pub obj: NatV,
    pub link: Link,
    pub destructor: usize,
    pub tail: Seq<u8>,
    pub aux: Seq<u8>,
    pub aux_addr: usize,
    pub str_buffer: bool,
    pub bytes_buffer: bool,
    pub list_synced: bool,
    pub scalar_pinned: bool,
    pub list_mint: Option<(Digest, Digest)>,
    pub exc: ExcFields,
}

impl View for Store {
    type V = StoreV;

    open spec fn view(&self) -> StoreV {
        StoreV {
            obj: self.obj@,
            link: self.link,
            destructor: self.destructor,
            tail: self.tail@,
            aux: self.aux@,
            aux_addr: self.aux_addr,
            str_buffer: self.str_buffer,
            bytes_buffer: self.bytes_buffer,
            list_synced: self.list_synced,
            scalar_pinned: self.scalar_pinned,
            list_mint: self.list_mint,
            exc: self.exc,
        }
    }
}

/// What is known of a list that the VM and C share.
#[derive(Clone, Copy, Debug, PartialEq, Eq, Structural)]
pub struct ListSync {
    /// The digest of the VM list when it was last published.
    pub rc_fp: Option<Digest>,
    /// The digest of the slots when both last agreed.
    pub c_ptrs: Digest,
}

/// What makes a pinned scalar the same scalar again.
#[derive(Clone, Copy, Debug, PartialEq, Eq, Structural)]
pub enum ScalarPinKey {
    Int(i64),
    FloatBits(u64),
    /// A tag for the type and the address of the shared cell.
    Rc(u8, usize),
}

/// Work that is done outside once an operation is over.
#[derive(Clone, Copy, Debug, PartialEq, Eq, Structural)]
pub enum Event {
    /// Forget borrowed items and tethered arguments of this address.
    Forget(usize),
    /// Let go of the arguments tethered to this address.
    Untether(usize),
    /// Run the type's own deallocator on an extension's object.
    Dealloc(usize),
    /// Give a block back to the C allocator.
    LibcFree(usize),
    /// End C's hold on an instance body.
    ReleaseBody(usize),
    /// Call a destructor on an object.
    Destroy(usize, usize),
    /// C dropped what may be the last reference to this VM object.
    Dropped(usize),
}

/// What is left to do while objects are freed.
#[derive(Clone, Copy, Debug, PartialEq, Eq, Structural)]
pub enum Work {
    /// Release a reference.
    Ref(usize),
    /// Tell the outside.
    Tell(Event),
}

/// Everything that C code can see.
#[derive(Debug)]
pub struct Heap {
    pub facts: Facts,
    /// The head of every object, an extension's objects included.
    pub heads: HashMap<usize, PyObject>,
    /// The storage of every object made here.
    pub mem: HashMap<usize, Store>,
    /// The storage of objects that are gone and whose destructors are still to run.
    pub ending: HashMap<usize, Store>,
    /// The addresses that were handed out.
    pub minted: HashSet<usize>,
    /// The next free address.
    pub next: usize,
    /// The next free cell address of the VM.
    pub next_id: usize,
    /// The one object for each list, set, byte array, builtin, property,
    /// module and getter descriptor, by the address of its cell.
    pub lists: HashMap<usize, usize>,
    pub sets: HashMap<usize, usize>,
    pub bytearrays: HashMap<usize, usize>,
    pub builtins: HashMap<usize, usize>,
    pub properties: HashMap<usize, usize>,
    pub modules: HashMap<usize, usize>,
    pub getsets: HashMap<usize, usize>,
    pub getset_boxes: HashSet<usize>,
    /// The object of each instance, by the address of its cell.
    pub c_body: HashMap<usize, usize>,
    pub pins: Vec<(ScalarPinKey, usize)>,
    pub pin_bytes: usize,
    pub interned: Vec<(Vec<char>, usize)>,
    /// The lists that the VM and C share.
    pub seeded: HashMap<usize, ListSync>,
    /// What each VM list holds, and each dict as its keys and values in turn, by the
    /// address of its cell.
    pub cells: HashMap<usize, Vec<Native>>,
    pub arg_pins: Vec<usize>,
    pub arg_depth: usize,
    pub intern_depth: usize,
    /// Integer blocks whose digits an extension writes.
    pub raw_longs: HashSet<usize>,
    /// Lists whose slots are read directly.
    pub watched: Vec<usize>,
    /// Lists to publish before C code runs on.
    pub due: Vec<usize>,
    /// References to release.
    pub pending: Vec<usize>,
    pub events: Vec<Event>,
}

/// The mathematical content of a [`Heap`].
#[verifier::ext_equal]
pub struct HeapV {
    pub facts: Facts,
    pub heads: Map<usize, PyObject>,
    pub mem: Map<usize, StoreV>,
    pub ending: Map<usize, StoreV>,
    pub minted: Set<usize>,
    pub next: usize,
    pub next_id: usize,
    pub lists: Map<usize, usize>,
    pub sets: Map<usize, usize>,
    pub bytearrays: Map<usize, usize>,
    pub builtins: Map<usize, usize>,
    pub properties: Map<usize, usize>,
    pub modules: Map<usize, usize>,
    pub getsets: Map<usize, usize>,
    pub getset_boxes: Set<usize>,
    pub c_body: Map<usize, usize>,
    pub pins: Seq<(ScalarPinKey, usize)>,
    pub pin_bytes: usize,
    pub interned: Seq<(Seq<char>, usize)>,
    pub seeded: Map<usize, ListSync>,
    pub cells: Map<usize, Seq<NatV>>,
    pub arg_pins: Seq<usize>,
    pub arg_depth: usize,
    pub intern_depth: usize,
    pub raw_longs: Set<usize>,
    pub watched: Seq<usize>,
    pub due: Seq<usize>,
    pub pending: Seq<usize>,
    pub events: Seq<Event>,
}

/// The contents of storages.
pub open spec fn stores(m: Map<usize, Store>) -> Map<usize, StoreV> {
    m.map_values(|s: Store| s@)
}

/// The contents of VM lists.
pub open spec fn cell_contents(m: Map<usize, Vec<Native>>) -> Map<usize, Seq<NatV>> {
    m.map_values(|v: Vec<Native>| value::seq_deep(v@))
}

/// The contents of interned texts.
pub open spec fn interned_texts(v: Seq<(Vec<char>, usize)>) -> Seq<(Seq<char>, usize)> {
    v.map_values(|p: (Vec<char>, usize)| (p.0@, p.1))
}

impl View for Heap {
    type V = HeapV;

    open spec fn view(&self) -> HeapV {
        HeapV {
            facts: self.facts,
            heads: self.heads@,
            mem: stores(self.mem@),
            ending: stores(self.ending@),
            minted: self.minted@,
            next: self.next,
            next_id: self.next_id,
            lists: self.lists@,
            sets: self.sets@,
            bytearrays: self.bytearrays@,
            builtins: self.builtins@,
            properties: self.properties@,
            modules: self.modules@,
            getsets: self.getsets@,
            getset_boxes: self.getset_boxes@,
            c_body: self.c_body@,
            pins: self.pins@,
            pin_bytes: self.pin_bytes,
            interned: interned_texts(self.interned@),
            seeded: self.seeded@,
            cells: cell_contents(self.cells@),
            arg_pins: self.arg_pins@,
            arg_depth: self.arg_depth,
            intern_depth: self.intern_depth,
            raw_longs: self.raw_longs@,
            watched: self.watched@,
            due: self.due@,
            pending: self.pending@,
            events: self.events@,
        }
    }
}

impl Heap {
    /// No object exists yet; the first one gets the address `base`.
    pub fn new(facts: Facts, base: usize) -> (r: Heap)
        ensures
            r@.facts == facts,
            r@.heads == Map::<usize, PyObject>::empty(),
            r@.mem == Map::<usize, StoreV>::empty(),
            r@.ending == Map::<usize, StoreV>::empty(),
            r@.minted == Set::<usize>::empty(),
            r@.next == base,
            r@.next_id == 1,
            r@.lists == Map::<usize, usize>::empty(),
            r@.sets == Map::<usize, usize>::empty(),
            r@.bytearrays == Map::<usize, usize>::empty(),
            r@.builtins == Map::<usize, usize>::empty(),
            r@.properties == Map::<usize, usize>::empty(),
            r@.modules == Map::<usize, usize>::empty(),
            r@.getsets == Map::<usize, usize>::empty(),
            r@.getset_boxes == Set::<usize>::empty(),
            r@.c_body == Map::<usize, usize>::empty(),
            r@.pins == Seq::<(ScalarPinKey, usize)>::empty(),
            r@.pin_bytes == 0,
            r@.interned == Seq::<(Seq<char>, usize)>::empty(),
            r@.seeded == Map::<usize, ListSync>::empty(),
            r@.cells == Map::<usize, Seq<NatV>>::empty(),
            r@.arg_pins == Seq::<usize>::empty(),
            r@.arg_depth == 0,
            r@.intern_depth == 0,
            r@.raw_longs == Set::<usize>::empty(),
            r@.watched == Seq::<usize>::empty(),
            r@.due == Seq::<usize>::empty(),
            r@.pending == Seq::<usize>::empty(),
            r@.events == Seq::<Event>::empty(),
    {
        let h = Heap {
            facts,
            heads: HashMap::new(),
            mem: HashMap::new(),
            ending: HashMap::new(),
            minted: HashSet::new(),
            next: base,
            next_id: 1,
            lists: HashMap::new(),
            sets: HashMap::new(),
            bytearrays: HashMap::new(),
            builtins: HashMap::new(),
            properties: HashMap::new(),
            modules: HashMap::new(),
            getsets: HashMap::new(),
            getset_boxes: HashSet::new(),
            c_body: HashMap::new(),
            pins: Vec::new(),
            pin_bytes: 0,
            interned: Vec::new(),
            seeded: HashMap::new(),
            cells: HashMap::new(),
            arg_pins: Vec::new(),
            arg_depth: 0,
            intern_depth: 0,
            raw_longs: HashSet::new(),
            watched: Vec::new(),
            due: Vec::new(),
            pending: Vec::new(),
            events: Vec::new(),
        };
        assert(h@.mem =~= Map::<usize, StoreV>::empty());
        assert(h@.ending =~= Map::<usize, StoreV>::empty());
        assert(h@.cells =~= Map::<usize, Seq<NatV>>::empty());
        assert(h@.interned =~= Seq::<(Seq<char>, usize)>::empty());
        h
    }
}

// ---------------------------------------------------------------------------
// Heads and reference counts
// ---------------------------------------------------------------------------

/// The type of an object, or zero where the address is unknown.
pub open spec fn type_at(h: HeapV, p: usize) -> usize {
    if h.heads.contains_key(p) {
        h.heads[p].ob_type
    } else {
        0
    }
}

/// The reference count of an object, or zero where the address is unknown.
pub open spec fn refcnt_at(h: HeapV, p: usize) -> i64 {
    if h.heads.contains_key(p) {
        h.heads[p].ob_refcnt
    } else {
        0
    }
}

/// The heap with another reference count on an object.
pub open spec fn with_refcnt(h: HeapV, p: usize, n: i64) -> HeapV {
    HeapV { heads: h.heads.insert(p, PyObject { ob_refcnt: n, ob_type: h.heads[p].ob_type }), ..h }
}

/// One more reference: none for NULL, an unknown address or an immortal
/// object.
pub open spec fn increfed(h: HeapV, p: usize) -> HeapV {
    if p == 0 || !h.heads.contains_key(p) || object::immortal(h.heads[p].ob_refcnt) {
        h
    } else {
        with_refcnt(h, p, (h.heads[p].ob_refcnt + 1) as i64)
    }
}

/// The heap with other storage behind an object.
pub open spec fn with_store(h: HeapV, p: usize, s: StoreV) -> HeapV {
    HeapV { mem: h.mem.insert(p, s), ..h }
}

/// One more reference to each object in turn.
pub open spec fn all_increfed(h: HeapV, ps: Seq<usize>) -> HeapV
    decreases ps.len(),
{
    if ps.len() == 0 {
        h
    } else {
        increfed(all_increfed(h, ps.drop_last()), ps.last())
    }
}

/// The addresses that are not NULL.
pub open spec fn nonnull(ps: Seq<usize>) -> Seq<usize>
    decreases ps.len(),
{
    if ps.len() == 0 {
        Seq::empty()
    } else if ps.last() == 0 {
        nonnull(ps.drop_last())
    } else {
        nonnull(ps.drop_last()).push(ps.last())
    }
}

impl Heap {
    /// The type of an object.
    pub fn get_type(&self, p: usize) -> (r: usize)
        ensures
            r == type_at(self@, p),
    {
        match self.heads.get(&p) {
            Some(o) => o.ob_type,
            None => 0,
        }
    }

    /// The reference count of an object.
    pub fn get_refcnt(&self, p: usize) -> (r: i64)
        ensures
            r == refcnt_at(self@, p),
    {
        match self.heads.get(&p) {
            Some(o) => o.ob_refcnt,
            None => 0,
        }
    }

    /// The storage of an object.
    pub fn store(&self, p: usize) -> (r: Option<&Store>)
        ensures
            match r {
                Some(s) => self@.mem.contains_key(p) && self@.mem[p] == s@,
                None => !self@.mem.contains_key(p),
            },
    {
        self.mem.get(&p)
    }

    /// What a VM list holds.
    pub fn cell(&self, id: usize) -> (r: Option<&Vec<Native>>)
        ensures
            match r {
                Some(v) => self@.cells.contains_key(id) && self@.cells[id] == value::seq_deep(v@),
                None => !self@.cells.contains_key(id),
            },
    {
        self.cells.get(&id)
    }

    /// Replace the storage of an object.
    pub fn put_store(&mut self, p: usize, s: Store)
        ensures
            final(self)@ == with_store(old(self)@, p, s@),
    {
        self.mem.insert(p, s);
        assert(self@.mem =~= old(self)@.mem.insert(p, s@));
        assert(self@ =~= with_store(old(self)@, p, s@));
    }

    /// Take the storage of an object out.
    pub fn take_store(&mut self, p: usize) -> (r: Option<Store>)
        ensures
            final(self)@ == (HeapV { mem: old(self)@.mem.remove(p), ..old(self)@ }),
            match r {
                Some(s) => old(self)@.mem.contains_key(p) && old(self)@.mem[p] == s@,
                None => !old(self)@.mem.contains_key(p),
            },
    {
        let r: Option<Store> = self.mem.remove(&p);
        assert(self@.mem =~= old(self)@.mem.remove(p));
        assert(self@ =~= (HeapV { mem: old(self)@.mem.remove(p), ..old(self)@ }));
        r
    }

    /// Replace what a VM list holds.
    pub fn put_cell(&mut self, id: usize, v: Vec<Native>)
        ensures
            final(self)@ == (HeapV {
                cells: old(self)@.cells.insert(id, value::seq_deep(v@)),
                ..old(self)@
            }),
    {
        self.cells.insert(id, v);
        assert(self@.cells =~= old(self)@.cells.insert(id, value::seq_deep(v@)));
        assert(self@ =~= (HeapV {
            cells: old(self)@.cells.insert(id, value::seq_deep(v@)),
            ..old(self)@
        }));
    }

    /// One more reference to each object in turn.
    pub fn incref_all(&mut self, ps: &Vec<usize>)
        ensures
            final(self)@ == all_increfed(old(self)@, ps@),
            final(self)@.mem == old(self)@.mem,
            final(self)@.facts == old(self)@.facts,
    {
        let mut i: usize = 0;
        assert(ps@.subrange(0, 0) =~= Seq::<usize>::empty());
        while i < ps.len()
            invariant
                i <= ps@.len(),
                self@ == all_increfed(old(self)@, ps@.subrange(0, i as int)),
                self@.mem == old(self)@.mem,
                self@.facts == old(self)@.facts,
            decreases ps.len() - i,
        {
            assert(ps@.subrange(0, i + 1).drop_last() =~= ps@.subrange(0, i as int));
            Py_IncRef(self, ps[i]);
            i = i + 1;
        }
        assert(ps@.subrange(0, ps@.len() as int) =~= ps@);
    }
}

/// The addresses that are not NULL.
pub fn push_nonnull(out: &mut Vec<usize>, ps: &Vec<usize>)
    ensures
        final(out)@ == old(out)@ + nonnull(ps@),
{
    let mut i: usize = 0;
    assert(ps@.subrange(0, 0) =~= Seq::<usize>::empty());
    assert(out@ =~= old(out)@ + Seq::<usize>::empty());
    while i < ps.len()
        invariant
            i <= ps@.len(),
            out@ == old(out)@ + nonnull(ps@.subrange(0, i as int)),
        decreases ps.len() - i,
    {
        assert(ps@.subrange(0, i + 1).drop_last() =~= ps@.subrange(0, i as int));
        if ps[i] != 0 {
            out.push(ps[i]);
        }
        i = i + 1;
        assert(out@ =~= old(out)@ + nonnull(ps@.subrange(0, i as int)));
    }
    assert(ps@.subrange(0, ps@.len() as int) =~= ps@);
}

// ---------------------------------------------------------------------------
// Addresses
// ---------------------------------------------------------------------------

/// Addresses that are handed out are multiples of this apart.
pub const STRIDE: usize = 256;

/// How much of the address space a block takes.
pub open spec fn block(size: nat) -> nat {
    (size / STRIDE as nat + 1) * STRIDE as nat
}

/// There is room for a block of this size.
pub open spec fn has_room(h: HeapV, size: nat) -> bool {
    h.next + block(size) <= usize::MAX
}

/// Take the address of a block; NULL where there is no room.
pub open spec fn allocated(h: HeapV, size: nat) -> (HeapV, usize) {
    if has_room(h, size) {
        (HeapV { next: (h.next + block(size)) as usize, ..h }, h.next)
    } else {
        (h, 0)
    }
}

/// Take the next cell address of the VM; the last one is never used up.
pub open spec fn new_cell(h: HeapV) -> (HeapV, usize) {
    if h.next_id < usize::MAX {
        (HeapV { next_id: (h.next_id + 1) as usize, ..h }, h.next_id)
    } else {
        (h, h.next_id)
    }
}

impl Heap {
    /// Take the address of a block.
    pub fn fresh_addr(&mut self, size: usize) -> (r: usize)
        ensures
            (final(self)@, r) == allocated(old(self)@, size as nat),
    {
        let need: u128 = (size as u128 / STRIDE as u128 + 1) * STRIDE as u128;
        if self.next as u128 + need > usize::MAX as u128 {
            return 0;
        }
        let p: usize = self.next;
        self.next = p + need as usize;
        assert(self@ =~= allocated(old(self)@, size as nat).0);
        p
    }

    /// Take the next cell address.
    pub fn fresh_cell(&mut self) -> (r: usize)
        ensures
            (final(self)@, r) == new_cell(old(self)@),
    {
        let id: usize = self.next_id;
        if id < usize::MAX {
            self.next_id = id + 1;
            assert(self@ =~= new_cell(old(self)@).0);
        }
        id
    }
}

} // verus!
