//! Mirrors: C objects whose bytes are laid out as CPython lays them out, each
//! standing for one VM object.

use vstd::prelude::*;
use crate::bytes;
use crate::bytes::{get_slots, put_slots, zero_block};
use crate::heap;
use crate::heap::{Digest, Facts, Heap, HeapV, Store, StoreV, Types};
use crate::layout;
use crate::layout::{get_field, HEAD};
use crate::value;
use crate::value::{Kind, NatV, Native, ObjV, Object};

verus! {

broadcast use vstd::std_specs::hash::group_hash_axioms;

// ---------------------------------------------------------------------------
// Which objects are mirrors
// ---------------------------------------------------------------------------

/// Instances of the type are laid out as mirrors.
pub open spec fn faithful(t: Types, ty: usize) -> bool {
    ty != 0 && (ty == t.float_type || ty == t.long_type || ty == t.bool_type || ty == t.complex_type || ty == t.bytes_type || ty == t.bytearray_type || ty == t.unicode_type || ty == t.tuple_type || ty == t.list_type || ty == t.dict_type || ty == t.set_type || ty == t.frozenset_type || ty == t.cfunction_type || ty == t.method_type || ty == t.slice_type || ty == t.memoryview_type)
}

/// Whether instances of a builtin type are laid out as mirrors.
pub fn type_is_faithful(t: &Types, ty: usize) -> (r: bool)
    ensures
        r == faithful(*t, ty),
{
    if ty == 0 {
        return false;
    }
    ty == t.float_type || ty == t.long_type || ty == t.bool_type || ty == t.complex_type || ty == t.bytes_type || ty == t.bytearray_type || ty == t.unicode_type || ty == t.tuple_type || ty == t.list_type || ty == t.dict_type || ty == t.set_type || ty == t.frozenset_type || ty == t.cfunction_type || ty == t.method_type || ty == t.slice_type || ty == t.memoryview_type
}

/// The type gives its instances the body of a list.
pub open spec fn list_shaped(f: Facts, ty: usize) -> bool {
    ty != 0 && (ty == f.types.list_type || f.list_like@.contains(ty))
}

/// The type gives its instances the body of a tuple.
pub open spec fn tuple_shaped(f: Facts, ty: usize) -> bool {
    ty != 0 && (ty == f.types.tuple_type || f.tuple_like@.contains(ty))
}

/// The type gives its instances a body with storage before it.
pub open spec fn mirror_type(f: Facts, ty: usize) -> bool {
    ty != 0 && (faithful(f.types, ty) || f.inline_types@.contains(ty) || f.list_like@.contains(ty)
        || f.tuple_like@.contains(ty))
}

impl Facts {
    pub(crate) fn is_list_type(&self, ty: usize) -> (r: bool)
        ensures
            r == list_shaped(*self, ty),
    {
        ty != 0 && (ty == self.types.list_type || self.list_like.contains(&ty))
    }

    pub(crate) fn is_tuple_type(&self, ty: usize) -> (r: bool)
        ensures
            r == tuple_shaped(*self, ty),
    {
        ty != 0 && (ty == self.types.tuple_type || self.tuple_like.contains(&ty))
    }

    pub(crate) fn is_mirror_type(&self, ty: usize) -> (r: bool)
        ensures
            r == mirror_type(*self, ty),
    {
        ty != 0 && (type_is_faithful(&self.types, ty) || self.inline_types.contains(&ty)
            || self.list_like.contains(&ty) || self.tuple_like.contains(&ty))
    }
}

/// The object is a mirror.
pub open spec fn mirror_at(h: HeapV, p: usize) -> bool {
    p != 0 && mirror_type(h.facts, heap::type_at(h, p))
}

/// Whether an object is a mirror, which its type decides.
pub fn is_mirror(h: &Heap, p: usize) -> (r: bool)
    ensures
        r == mirror_at(h@, p),
{
    p != 0 && h.facts.is_mirror_type(h.get_type(p))
}

/// The object is a list mirror with storage.
pub open spec fn list_at(h: HeapV, p: usize) -> bool {
    p != 0 && h.mem.contains_key(p) && list_shaped(h.facts, heap::type_at(h, p))
}

/// The object is a tuple mirror with storage.
pub open spec fn tuple_at(h: HeapV, p: usize) -> bool {
    p != 0 && h.mem.contains_key(p) && tuple_shaped(h.facts, heap::type_at(h, p))
}

/// Whether an object is a list mirror.
pub fn is_faithful_list(h: &Heap, p: usize) -> (r: bool)
    ensures
        r == list_at(h@, p),
{
    p != 0 && h.mem.contains_key(&p) && h.facts.is_list_type(h.get_type(p))
}

/// Whether an object is a tuple mirror.
pub fn is_faithful_tuple(h: &Heap, p: usize) -> (r: bool)
    ensures
        r == tuple_at(h@, p),
{
    p != 0 && h.mem.contains_key(&p) && h.facts.is_tuple_type(h.get_type(p))
}

/// The object is a mirror of exactly this builtin type.
pub open spec fn exactly(h: HeapV, p: usize, ty: usize) -> bool {
    mirror_at(h, p) && heap::type_at(h, p) == ty
}

/// Whether an object is a dict mirror.
pub fn is_faithful_dict(h: &Heap, p: usize) -> (r: bool)
    ensures
        r == exactly(h@, p, h@.facts.types.dict_type),
{
    is_mirror(h, p) && h.get_type(p) == h.facts.types.dict_type
}

/// Whether an object is a mirror of a set or a frozen set.
pub fn is_faithful_set(h: &Heap, p: usize) -> (r: bool)
    ensures
        r == (exactly(h@, p, h@.facts.types.set_type) || exactly(
            h@,
            p,
            h@.facts.types.frozenset_type,
        )),
{
    is_mirror(h, p) && (h.get_type(p) == h.facts.types.set_type || h.get_type(p)
        == h.facts.types.frozenset_type)
}

/// Whether an object is a mirror of a bound method.
pub fn is_faithful_method(h: &Heap, p: usize) -> (r: bool)
    ensures
        r == exactly(h@, p, h@.facts.types.method_type),
{
    is_mirror(h, p) && h.get_type(p) == h.facts.types.method_type
}

/// Whether an object is a mirror of a builtin function.
pub fn is_faithful_cfunction(h: &Heap, p: usize) -> (r: bool)
    ensures
        r == exactly(h@, p, h@.facts.types.cfunction_type),
{
    is_mirror(h, p) && h.get_type(p) == h.facts.types.cfunction_type
}

/// Whether an object is a mirror of a builtin function.
pub fn is_faithful_builtin(h: &Heap, p: usize) -> (r: bool)
    ensures
        r == exactly(h@, p, h@.facts.types.cfunction_type),
{
    is_faithful_cfunction(h, p)
}

/// Whether an object is a mirror of a slice.
pub fn is_faithful_slice(h: &Heap, p: usize) -> (r: bool)
    ensures
        r == exactly(h@, p, h@.facts.types.slice_type),
{
    is_mirror(h, p) && h.get_type(p) == h.facts.types.slice_type
}

/// Whether an object is a mirror of a byte array.
pub fn is_faithful_bytearray(h: &Heap, p: usize) -> (r: bool)
    ensures
        r == exactly(h@, p, h@.facts.types.bytearray_type),
{
    is_mirror(h, p) && h.get_type(p) == h.facts.types.bytearray_type
}

/// The VM object gets a mirror.
pub open spec fn obj_faithful(o: ObjV) -> bool {
    match o {
        ObjV::Float(_)
        | ObjV::Int(_)
        | ObjV::Long(_, _)
        | ObjV::Bool(_)
        | ObjV::Complex(_, _)
        | ObjV::Bytes(_)
        | ObjV::ByteArray(_)
        | ObjV::Str(_)
        | ObjV::WStr(_)
        | ObjV::Tuple(_)
        | ObjV::List(_)
        | ObjV::Dict(_)
        | ObjV::PySet(_)
        | ObjV::FrozenSet(_)
        | ObjV::Builtin
        | ObjV::BoundMethod(_)
        | ObjV::Slice(_)
        | ObjV::MemoryView(_) => true,
        _ => false,
    }
}

/// Whether a VM object gets a mirror.
pub fn obj_is_faithful(o: &Object) -> (r: bool)
    ensures
        r == obj_faithful(o@),
{
    match o {
        Object::Float(_)
        | Object::Int(_)
        | Object::Long(_)
        | Object::Bool(_)
        | Object::Complex(_, _)
        | Object::Bytes(_)
        | Object::ByteArray(_)
        | Object::Str(_)
        | Object::WStr(_)
        | Object::Tuple(_)
        | Object::List(_)
        | Object::Dict(_)
        | Object::PySet(_)
        | Object::FrozenSet(_)
        | Object::Builtin
        | Object::BoundMethod(_)
        | Object::Slice(_)
        | Object::MemoryView(_) => true,
        _ => false,
    }
}

// ---------------------------------------------------------------------------
// Digests
// ---------------------------------------------------------------------------

/// Where every digest starts.
pub const DIGEST_SEED: u64 = 0xcbf2_9ce4_8422_2325;

/// What every digest multiplies by.
pub const DIGEST_PRIME: u64 = 0x0000_0100_0000_01b3;

/// A digest with one more number.
pub open spec fn folded(h: u64, v: u64) -> u64 {
    let x = (h ^ v).wrapping_mul(DIGEST_PRIME);
    x ^ (x >> 29)
}

/// A digest with one more number.
pub fn digest_fold(h: u64, v: u64) -> (r: u64)
    ensures
        r == folded(h, v),
{
    let x: u64 = (h ^ v).wrapping_mul(DIGEST_PRIME);
    x ^ (x >> 29)
}

/// The hash of `k` low bytes of a payload.
pub open spec fn mixed_bytes(h: u64, payload: u64, k: nat) -> u64
    decreases k,
{
    if k == 0 {
        h
    } else {
        mixed_bytes((h ^ (payload % 256)).wrapping_mul(DIGEST_PRIME), payload / 256, (k - 1) as nat)
    }
}

/// The hash of a tag and a payload.
pub open spec fn mixed(tag: u8, payload: u64) -> u64 {
    mixed_bytes((DIGEST_SEED ^ (tag as u64)).wrapping_mul(DIGEST_PRIME), payload, 8)
}

fn mix(tag: u8, payload: u64) -> (r: u64)
    ensures
        r == mixed(tag, payload),
{
    let mut h: u64 = (DIGEST_SEED ^ (tag as u64)).wrapping_mul(DIGEST_PRIME);
    let mut p: u64 = payload;
    let mut k: usize = 8;
    while k > 0
        invariant
            k <= 8,
            mixed(tag, payload) == mixed_bytes(h, p, k as nat),
        decreases k,
    {
        h = (h ^ (p % 256)).wrapping_mul(DIGEST_PRIME);
        p = p / 256;
        k = k - 1;
    }
    h
}

/// The tag of a kind of object.
pub open spec fn kind_tag(k: Kind) -> u8 {
    match k {
        Kind::Unbound => 1,
        Kind::Range => 12,
        Kind::Function => 13,
        Kind::Cell => 17,
        Kind::Iter => 18,
        Kind::Generator => 23,
        Kind::Coroutine => 24,
        Kind::AsyncGenerator => 25,
        Kind::AsyncGenAwait => 26,
        Kind::File => 31,
        Kind::StaticMethod => 33,
        Kind::SlotDescriptor => 35,
        Kind::Frame => 36,
        Kind::Traceback => 37,
        Kind::MappingProxy => 39,
        Kind::DictView => 40,
        Kind::LazyIter => 42,
        Kind::MappingProxyObj => 45,
    }
}

/// The tag of an object that is known by its cell.
pub open spec fn cell_tag(o: ObjV) -> u8 {
    match o {
        ObjV::Long(_, _) => 5,
        ObjV::Complex(_, _) => 6,
        ObjV::Str(_) => 7,
        ObjV::WStr(_) => 8,
        ObjV::Tuple(_) => 9,
        ObjV::List(_) => 10,
        ObjV::Dict(_) => 11,
        ObjV::Builtin => 14,
        ObjV::BoundMethod(_) => 15,
        ObjV::ClassMethod(_) => 34,
        ObjV::Namespace(_) => 41,
        ObjV::Code(_) => 16,
        ObjV::Slice(_) => 19,
        ObjV::Type(_) => 20,
        ObjV::Instance(_) => 21,
        ObjV::Ellipsis => 21,
        ObjV::NotImplemented => 21,
        ObjV::Module => 22,
        ObjV::Bytes(_) => 27,
        ObjV::ByteArray(_) => 28,
        ObjV::PySet(_) => 29,
        ObjV::FrozenSet(_) => 30,
        ObjV::Property(_) => 32,
        ObjV::MemoryView(_) => 38,
        ObjV::Capsule(_) => 43,
        ObjV::Foreign(_) => 44,
        ObjV::Other(k) => kind_tag(k),
        _ => 0,
    }
}

/// A number that changes when the identity or the value of an element does.
pub open spec fn print_of(n: NatV) -> u64 {
    match n.val {
        ObjV::PyNone => mixed(0, 0),
        ObjV::Other(Kind::Unbound) => mixed(1, 0),
        ObjV::Bool(b) => mixed(
            2,
            if b {
                1
            } else {
                0
            },
        ),
        ObjV::Int(i) => mixed(3, i as u64),
        ObjV::Float(f) => mixed(4, f),
        _ => mixed(cell_tag(n.val), n.id as u64),
    }
}

fn tag_of_kind(k: Kind) -> (r: u8)
    ensures
        r == kind_tag(k),
{
    match k {
        Kind::Unbound => 1,
        Kind::Range => 12,
        Kind::Function => 13,
        Kind::Cell => 17,
        Kind::Iter => 18,
        Kind::Generator => 23,
        Kind::Coroutine => 24,
        Kind::AsyncGenerator => 25,
        Kind::AsyncGenAwait => 26,
        Kind::File => 31,
        Kind::StaticMethod => 33,
        Kind::SlotDescriptor => 35,
        Kind::Frame => 36,
        Kind::Traceback => 37,
        Kind::MappingProxy => 39,
        Kind::DictView => 40,
        Kind::LazyIter => 42,
        Kind::MappingProxyObj => 45,
    }
}

fn tag_of(o: &Object) -> (r: u8)
    ensures
        r == cell_tag(o@),
{
    match o {
        Object::Long(_) => 5,
        Object::Complex(_, _) => 6,
        Object::Str(_) => 7,
        Object::WStr(_) => 8,
        Object::Tuple(_) => 9,
        Object::List(_) => 10,
        Object::Dict(_) => 11,
        Object::Builtin => 14,
        Object::BoundMethod(_) => 15,
        Object::ClassMethod(_) => 34,
        Object::Namespace(_) => 41,
        Object::Code(_) => 16,
        Object::Slice(_) => 19,
        Object::Type(_) => 20,
        Object::Instance(_) => 21,
        Object::Ellipsis => 21,
        Object::NotImplemented => 21,
        Object::Module => 22,
        Object::Bytes(_) => 27,
        Object::ByteArray(_) => 28,
        Object::PySet(_) => 29,
        Object::FrozenSet(_) => 30,
        Object::Property(_) => 32,
        Object::MemoryView(_) => 38,
        Object::Capsule(_) => 43,
        Object::Foreign(_) => 44,
        Object::Other(k) => tag_of_kind(*k),
        _ => 0,
    }
}

/// A number that changes when the identity or the value of an element does.
pub fn fingerprint(n: &Native) -> (r: u64)
    ensures
        r == print_of(n@),
{
    match &n.val {
        Object::PyNone => mix(0, 0),
        Object::Other(Kind::Unbound) => mix(1, 0),
        Object::Bool(b) => mix(
            2,
            if *b {
                1
            } else {
                0
            },
        ),
        Object::Int(i) => mix(3, #[verifier::truncate] (*i as u64)),
        Object::Float(f) => mix(4, *f),
        _ => mix(tag_of(&n.val), n.id as u64),
    }
}

/// The hash of elements in order.
pub open spec fn objs_hash(s: Seq<NatV>) -> u64
    decreases s.len(),
{
    if s.len() == 0 {
        DIGEST_SEED
    } else {
        folded(objs_hash(s.drop_last()), print_of(s.last()))
    }
}

/// The digest of a VM list.
pub open spec fn objs_digest(s: Seq<NatV>) -> Digest {
    Digest { hash: objs_hash(s), len: s.len() as usize }
}

/// The digest of a VM list.
pub fn digest_objects(v: &Vec<Native>) -> (r: Digest)
    ensures
        r == objs_digest(value::seq_deep(v@)),
{
    let mut h: u64 = DIGEST_SEED;
    let mut i: usize = 0;
    let ghost all = value::seq_deep(v@);
    proof {
        value::lemma_seq_deep(v@);
    }
    assert(all.subrange(0, 0) =~= Seq::<NatV>::empty());
    while i < v.len()
        invariant
            i <= v@.len(),
            all == value::seq_deep(v@),
            all.len() == v@.len(),
            forall|k: int| 0 <= k < v@.len() ==> #[trigger] all[k] == value::nat_deep(v@[k]),
            h == objs_hash(all.subrange(0, i as int)),
        decreases v.len() - i,
    {
        assert(all.subrange(0, i + 1).drop_last() =~= all.subrange(0, i as int));
        assert(all[i as int] == v@[i as int]@);
        h = digest_fold(h, fingerprint(&v[i]));
        i = i + 1;
    }
    assert(all.subrange(0, all.len() as int) =~= all);
    Digest { hash: h, len: v.len() }
}

/// The hash of addresses in order.
pub open spec fn ptrs_hash(s: Seq<usize>) -> u64
    decreases s.len(),
{
    if s.len() == 0 {
        DIGEST_SEED
    } else {
        folded(ptrs_hash(s.drop_last()), s.last() as u64)
    }
}

fn hash_ptrs(v: &Vec<usize>) -> (r: u64)
    ensures
        r == ptrs_hash(v@),
{
    let mut h: u64 = DIGEST_SEED;
    let mut i: usize = 0;
    assert(v@.subrange(0, 0) =~= Seq::<usize>::empty());
    while i < v.len()
        invariant
            i <= v@.len(),
            h == ptrs_hash(v@.subrange(0, i as int)),
        decreases v.len() - i,
    {
        assert(v@.subrange(0, i + 1).drop_last() =~= v@.subrange(0, i as int));
        h = digest_fold(h, v[i] as u64);
        i = i + 1;
    }
    assert(v@.subrange(0, v@.len() as int) =~= v@);
    h
}

// ---------------------------------------------------------------------------
// Slots of lists and tuples
// ---------------------------------------------------------------------------

/// The word at an offset; zero past the end.
pub open spec fn word_at(tail: Seq<u8>, off: int) -> u64 {
    if off - HEAD + 8 <= tail.len() {
        layout::field(tail, off) as u64
    } else {
        0
    }
}

/// The size field of an object, a negative one counting as zero.
pub open spec fn var_size(tail: Seq<u8>) -> u64 {
    if word_at(tail, 16) < 0x8000_0000_0000_0000 {
        word_at(tail, 16)
    } else {
        0
    }
}

/// As many slots as there are, at most this many.
pub open spec fn at_most(n: u64, cap: int) -> nat {
    if n as int <= cap {
        n as nat
    } else {
        cap as nat
    }
}

/// The live slots of a list.
pub open spec fn list_ptrs_of(s: StoreV) -> Seq<usize> {
    if word_at(s.tail, 24) == 0 {
        Seq::empty()
    } else {
        bytes::slots(s.aux, 0, at_most(var_size(s.tail), (s.aux.len() / 8) as int))
    }
}

/// The digest of a list's slots.
pub open spec fn ptrs_digest(s: StoreV) -> Digest {
    Digest { hash: ptrs_hash(list_ptrs_of(s)), len: var_size(s.tail) as usize }
}

/// The inline slots of a tuple.
pub open spec fn tuple_ptrs_of(s: StoreV) -> Seq<usize> {
    bytes::slots(
        s.tail,
        8,
        at_most(
            var_size(s.tail),
            if s.tail.len() < 8 {
                0
            } else {
                ((s.tail.len() - 8) / 8) as int
            },
        ),
    )
}

/// The slots that were recorded beside a tuple.
pub open spec fn snapshot_of(s: StoreV) -> Seq<usize> {
    bytes::slots(s.aux, 0, (s.aux.len() / 8) as nat)
}

pub(crate) fn size_of(tail: &Vec<u8>) -> (r: u64)
    ensures
        r == var_size(tail@),
{
    let w: u64 = get_field(tail.as_slice(), 16);
    if w < 0x8000_0000_0000_0000 {
        w
    } else {
        0
    }
}

pub(crate) fn min_slots(n: u64, cap: usize) -> (r: usize)
    ensures
        r == at_most(n, cap as int),
{
    if n <= cap as u64 {
        n as usize
    } else {
        cap
    }
}

impl Store {
    pub(crate) fn list_slots(&self) -> (r: Vec<usize>)
        ensures
            r@ == list_ptrs_of(self@),
    {
        if get_field(self.tail.as_slice(), 24) == 0 {
            return Vec::new();
        }
        let n: usize = min_slots(size_of(&self.tail), self.aux.len() / 8);
        get_slots(self.aux.as_slice(), 0, n)
    }

    pub(crate) fn list_digest(&self) -> (r: Digest)
        ensures
            r == ptrs_digest(self@),
    {
        Digest {
            hash: hash_ptrs(&self.list_slots()),
            len: #[verifier::truncate] (size_of(&self.tail) as usize),
        }
    }

    pub(crate) fn tuple_slots(&self) -> (r: Vec<usize>)
        ensures
            r@ == tuple_ptrs_of(self@),
            8 * r@.len() <= usize::MAX,
    {
        let cap: usize = if self.tail.len() < 8 {
            0
        } else {
            (self.tail.len() - 8) / 8
        };
        let n: usize = min_slots(size_of(&self.tail), cap);
        if self.tail.len() < 8 {
            assert(tuple_ptrs_of(self@) =~= Seq::<usize>::empty());
            return Vec::new();
        }
        get_slots(self.tail.as_slice(), 8, n)
    }

    pub(crate) fn snapshot(&self) -> (r: Vec<usize>)
        ensures
            r@ == snapshot_of(self@),
    {
        get_slots(self.aux.as_slice(), 0, self.aux.len() / 8)
    }
}

pub(crate) fn same_slots(a: &Vec<usize>, b: &Vec<usize>) -> (r: bool)
    ensures
        r == (a@ == b@),
{
    if a.len() != b.len() {
        return false;
    }
    let mut i: usize = 0;
    while i < a.len()
        invariant
            i <= a@.len(),
            a@.len() == b@.len(),
            forall|k: int| 0 <= k < i ==> a@[k] == b@[k],
        decreases a.len() - i,
    {
        if a[i] != b[i] {
            return false;
        }
        i = i + 1;
    }
    assert(a@ =~= b@);
    true
}

/// Addresses as the bytes of a buffer.
pub open spec fn slot_bytes(ps: Seq<usize>) -> Seq<u8> {
    bytes::flat(bytes::nats(ps), 8)
}

pub(crate) fn buffer_of(ps: &Vec<usize>) -> (r: Vec<u8>)
    requires
        8 * ps@.len() <= usize::MAX,
    ensures
        r@ == slot_bytes(ps@),
{
    let mut b: Vec<u8> = zero_block(8 * ps.len());
    put_slots(&mut b, 0, ps);
    proof {
        bytes::lemma_flat_len(bytes::nats(ps@), 8);
    }
    assert(b@ =~= slot_bytes(ps@));
    b
}

} // verus!
