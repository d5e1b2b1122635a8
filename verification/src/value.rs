//! Python values as the API sees them.

use vstd::prelude::*;
use crate::text::slice_of;

verus! {

/// The sign of a big integer.
#[derive(Clone, Copy, Debug, PartialEq, Eq, Structural)]
pub enum Sign {
    Minus,
    NoSign,
    Plus,
}

/// An arbitrary-precision integer: a sign and a little-endian magnitude.
#[derive(Debug)]
pub struct BigNum {
    pub sign: Sign,
    pub mag: Vec<u8>,
}

/// The natural number that little-endian base-256 digits denote.
pub open spec fn le_value(b: Seq<u8>) -> nat
    decreases b.len(),
{
    if b.len() == 0 {
        0
    } else {
        b[0] as nat + 256 * le_value(b.drop_first())
    }
}

impl BigNum {
    /// The integer denoted.
    pub open spec fn val(&self) -> int {
        match self.sign {
            Sign::Minus => -(le_value(self.mag@) as int),
            Sign::NoSign => 0,
            Sign::Plus => le_value(self.mag@) as int,
        }
    }

    /// The sign agrees with the magnitude.
    pub open spec fn wf(&self) -> bool {
        (self.sign is NoSign) == (le_value(self.mag@) == 0)
    }
}

/// The kinds of VM object whose contents the API never looks into.
#[derive(Clone, Copy, Debug, PartialEq, Eq, Structural)]
pub enum Kind {
    Unbound,
    Range,
    Function,
    Cell,
    Iter,
    Generator,
    Coroutine,
    AsyncGenerator,
    AsyncGenAwait,
    File,
    StaticMethod,
    SlotDescriptor,
    Frame,
    Traceback,
    MappingProxy,
    DictView,
    LazyIter,
    MappingProxyObj,
}

/// One reference to a VM object: the address of its shared cell (zero for an
/// immediate value) and what it holds.
#[derive(Debug)]
pub struct Native {
    pub id: usize,
    pub val: Object,
}

/// What a memory view exposes.
#[derive(Debug)]
pub struct MemView {
    pub itemsize: usize,
    pub len: usize,
    pub shape: Vec<i64>,
    pub strides: Vec<i64>,
    pub data: Vec<u8>,
    pub format: Vec<u8>,
    pub readonly: bool,
    pub released: bool,
    pub c_contiguous: bool,
}

/// What the API reads of an instance of a class.
#[derive(Debug)]
pub struct InstInfo {
    /// The body that was made for it, where its type asks for one; else zero.
    pub body: usize,
    /// Its class derives from `BaseException`.
    pub exception: bool,
    /// Its class derives from `StopIteration`.
    pub stop: bool,
    /// The tuple in its `args` slot, if there is one.
    pub args: Vec<Native>,
    /// What its `value` slot holds, if anything.
    pub value: Vec<Native>,
    /// The builtin value that it is, where its class derives from a builtin.
    pub native: Vec<Native>,
}

/// What the API reads of a property.
#[derive(Debug)]
pub struct PropInfo {
    /// It stands for a C getter and setter.
    pub getset: bool,
    /// The type that owns it, or zero.
    pub d_type: usize,
    pub name: Vec<char>,
    pub doc: Option<Vec<char>>,
}

/// A VM object. Floating-point numbers are held by the bit patterns that C code
/// sees.
#[derive(Debug)]
pub enum Object {
    PyNone,
    Ellipsis,
    NotImplemented,
    Bool(bool),
    Int(i64),
    Float(u64),
    Long(BigNum),
    Complex(u64, u64),
    Str(Vec<char>),
    WStr(Vec<u32>),
    Bytes(Vec<u8>),
    ByteArray(Vec<u8>),
    Tuple(Vec<Native>),
    List(Vec<Native>),
    /// A dict: its keys and values in turn, in order.
    Dict(Vec<Native>),
    /// A set, by its number of elements.
    PySet(usize),
    /// A frozen set, by its number of elements.
    FrozenSet(usize),
    /// Start, stop and step.
    Slice(Vec<Native>),
    /// Function and receiver.
    BoundMethod(Vec<Native>),
    /// The callable behind a class method.
    ClassMethod(Vec<Native>),
    /// A namespace: its names and values in turn, in order.
    Namespace(Vec<Native>),
    Builtin,
    MemoryView(MemView),
    /// A code object, with the C object that stands for it or zero.
    Code(usize),
    /// An object that an extension made, by its address.
    Foreign(usize),
    /// A class, by the address of its type object.
    Type(usize),
    /// A capsule, by the address of its box.
    Capsule(usize),
    Module,
    Property(PropInfo),
    Instance(InstInfo),
    Other(Kind),
}

// ---------------------------------------------------------------------------
// Mathematical content
// ---------------------------------------------------------------------------

/// The mathematical content of a [`Native`].
#[verifier::ext_equal]
pub struct NatV {
    pub id: usize,
    pub val: ObjV,
}

/// The mathematical content of an [`InstInfo`].
#[verifier::ext_equal]
pub struct InstV {
    pub body: usize,
    pub exception: bool,
    pub stop: bool,
    pub args: Seq<NatV>,
    pub value: Seq<NatV>,
    pub native: Seq<NatV>,
}

/// The mathematical content of a [`PropInfo`].
#[verifier::ext_equal]
pub struct PropV {
    pub getset: bool,
    pub d_type: usize,
    pub name: Seq<char>,
    pub doc: Option<Seq<char>>,
}

/// The mathematical content of a [`MemView`].
#[verifier::ext_equal]
pub struct MemV {
    pub itemsize: usize,
    pub len: usize,
    pub shape: Seq<i64>,
    pub strides: Seq<i64>,
    pub data: Seq<u8>,
    pub format: Seq<u8>,
    pub readonly: bool,
    pub released: bool,
    pub c_contiguous: bool,
}

/// The mathematical content of an [`Object`].
#[verifier::ext_equal]
pub enum ObjV {
    PyNone,
    Ellipsis,
    NotImplemented,
    Bool(bool),
    Int(i64),
    Float(u64),
    Long(Sign, Seq<u8>),
    Complex(u64, u64),
    Str(Seq<char>),
    WStr(Seq<u32>),
    Bytes(Seq<u8>),
    ByteArray(Seq<u8>),
    Tuple(Seq<NatV>),
    List(Seq<NatV>),
    Dict(Seq<NatV>),
    PySet(usize),
    FrozenSet(usize),
    Slice(Seq<NatV>),
    BoundMethod(Seq<NatV>),
    ClassMethod(Seq<NatV>),
    Namespace(Seq<NatV>),
    Builtin,
    MemoryView(MemV),
    Code(usize),
    Foreign(usize),
    Type(usize),
    Capsule(usize),
    Module,
    Property(PropV),
    Instance(InstV),
    Other(Kind),
}

/// The content of a reference.
pub open spec fn nat_deep(n: Native) -> NatV
    decreases n,
{
    NatV { id: n.id, val: obj_deep(n.val) }
}

/// The contents of references, in order.
pub open spec fn seq_deep(s: Seq<Native>) -> Seq<NatV>
    decreases s,
{
    if s.len() == 0 {
        Seq::empty()
    } else {
        seq_deep(s.drop_last()).push(nat_deep(s.last()))
    }
}

/// The content of an optional text.
pub open spec fn opt_text(s: Option<Vec<char>>) -> Option<Seq<char>> {
    match s {
        Some(t) => Some(t@),
        None => None,
    }
}

/// The content of a memory view.
pub open spec fn mem_view(m: MemView) -> MemV {
    MemV {
        itemsize: m.itemsize,
        len: m.len,
        shape: m.shape@,
        strides: m.strides@,
        data: m.data@,
        format: m.format@,
        readonly: m.readonly,
        released: m.released,
        c_contiguous: m.c_contiguous,
    }
}

/// The content of an object.
pub open spec fn obj_deep(o: Object) -> ObjV
    decreases o,
{
    match o {
        Object::PyNone => ObjV::PyNone,
        Object::Ellipsis => ObjV::Ellipsis,
        Object::NotImplemented => ObjV::NotImplemented,
        Object::Bool(b) => ObjV::Bool(b),
        Object::Int(i) => ObjV::Int(i),
        Object::Float(f) => ObjV::Float(f),
        Object::Long(b) => ObjV::Long(b.sign, b.mag@),
        Object::Complex(r, i) => ObjV::Complex(r, i),
        Object::Str(s) => ObjV::Str(s@),
        Object::WStr(s) => ObjV::WStr(s@),
        Object::Bytes(b) => ObjV::Bytes(b@),
        Object::ByteArray(b) => ObjV::ByteArray(b@),
        Object::Tuple(v) => ObjV::Tuple(seq_deep(v@)),
        Object::List(v) => ObjV::List(seq_deep(v@)),
        Object::Dict(v) => ObjV::Dict(seq_deep(v@)),
        Object::PySet(n) => ObjV::PySet(n),
        Object::FrozenSet(n) => ObjV::FrozenSet(n),
        Object::Slice(v) => ObjV::Slice(seq_deep(v@)),
        Object::BoundMethod(v) => ObjV::BoundMethod(seq_deep(v@)),
        Object::ClassMethod(v) => ObjV::ClassMethod(seq_deep(v@)),
        Object::Namespace(v) => ObjV::Namespace(seq_deep(v@)),
        Object::Builtin => ObjV::Builtin,
        Object::MemoryView(m) => ObjV::MemoryView(mem_view(m)),
        Object::Code(p) => ObjV::Code(p),
        Object::Foreign(p) => ObjV::Foreign(p),
        Object::Type(p) => ObjV::Type(p),
        Object::Capsule(p) => ObjV::Capsule(p),
        Object::Module => ObjV::Module,
        Object::Property(p) => ObjV::Property(
            PropV { getset: p.getset, d_type: p.d_type, name: p.name@, doc: opt_text(p.doc) },
        ),
        Object::Instance(i) => ObjV::Instance(inst_view(i)),
        Object::Other(k) => ObjV::Other(k),
    }
}

/// What is read of an instance.
pub open spec fn inst_view(i: InstInfo) -> InstV
    decreases i,
{
    InstV {
        body: i.body,
        exception: i.exception,
        stop: i.stop,
        args: seq_deep(i.args@),
        value: seq_deep(i.value@),
        native: seq_deep(i.native@),
    }
}

impl View for Native {
    type V = NatV;

    open spec fn view(&self) -> NatV {
        nat_deep(*self)
    }
}

impl View for Object {
    type V = ObjV;

    open spec fn view(&self) -> ObjV {
        obj_deep(*self)
    }
}

/// Each reference keeps its place.
pub proof fn lemma_seq_deep(s: Seq<Native>)
    ensures
        seq_deep(s).len() == s.len(),
        forall|i: int| 0 <= i < s.len() ==> #[trigger] seq_deep(s)[i] == nat_deep(s[i]),
    decreases s.len(),
{
    if s.len() > 0 {
        lemma_seq_deep(s.drop_last());
        assert forall|i: int| 0 <= i < s.len() implies #[trigger] seq_deep(s)[i] == nat_deep(
            s[i],
        ) by {
            if i < s.len() - 1 {
                assert(seq_deep(s)[i] == seq_deep(s.drop_last())[i]);
            }
        }
    }
}

/// Appending a reference appends its content.
pub proof fn lemma_seq_deep_push(s: Seq<Native>, n: Native)
    ensures
        seq_deep(s.push(n)) == seq_deep(s).push(nat_deep(n)),
{
    assert(s.push(n).drop_last() =~= s);
}

// ---------------------------------------------------------------------------
// Copies
// ---------------------------------------------------------------------------

fn copy_u8(v: &Vec<u8>) -> (r: Vec<u8>)
    ensures
        r@ == v@,
{
    let mut out: Vec<u8> = Vec::new();
    let mut i: usize = 0;
    while i < v.len()
        invariant
            i <= v@.len(),
            out@ == v@.subrange(0, i as int),
        decreases v.len() - i,
    {
        out.push(v[i]);
        i = i + 1;
        assert(out@ =~= v@.subrange(0, i as int));
    }
    assert(out@ =~= v@);
    out
}

fn copy_u32(v: &Vec<u32>) -> (r: Vec<u32>)
    ensures
        r@ == v@,
{
    let mut out: Vec<u32> = Vec::new();
    let mut i: usize = 0;
    while i < v.len()
        invariant
            i <= v@.len(),
            out@ == v@.subrange(0, i as int),
        decreases v.len() - i,
    {
        out.push(v[i]);
        i = i + 1;
        assert(out@ =~= v@.subrange(0, i as int));
    }
    assert(out@ =~= v@);
    out
}

fn copy_i64(v: &Vec<i64>) -> (r: Vec<i64>)
    ensures
        r@ == v@,
{
    let mut out: Vec<i64> = Vec::new();
    let mut i: usize = 0;
    while i < v.len()
        invariant
            i <= v@.len(),
            out@ == v@.subrange(0, i as int),
        decreases v.len() - i,
    {
        out.push(v[i]);
        i = i + 1;
        assert(out@ =~= v@.subrange(0, i as int));
    }
    assert(out@ =~= v@);
    out
}

fn copy_text(v: &Vec<char>) -> (r: Vec<char>)
    ensures
        r@ == v@,
{
    assert(v@.subrange(0, v@.len() as int) =~= v@);
    slice_of(v.as_slice(), 0, v.len())
}

/// Another reference to the same object.
pub fn copy_native(n: &Native) -> (r: Native)
    ensures
        r@ == n@,
    decreases *n,
{
    Native { id: n.id, val: copy_object(&n.val) }
}

/// Other references to the same objects.
pub fn copy_natives(v: &Vec<Native>) -> (r: Vec<Native>)
    ensures
        seq_deep(r@) == seq_deep(v@),
    decreases v@,
{
    let mut out: Vec<Native> = Vec::new();
    let mut i: usize = 0;
    proof {
        lemma_seq_deep(v@);
    }
    while i < v.len()
        invariant
            i <= v@.len(),
            seq_deep(out@) == seq_deep(v@).subrange(0, i as int),
            seq_deep(v@).len() == v@.len(),
        decreases v.len() - i,
    {
        let n: Native = copy_native(&v[i]);
        proof {
            lemma_seq_deep(v@);
            lemma_seq_deep_push(out@, n);
        }
        out.push(n);
        i = i + 1;
        assert(seq_deep(out@) =~= seq_deep(v@).subrange(0, i as int));
    }
    assert(seq_deep(out@) =~= seq_deep(v@));
    out
}

/// The same object again.
pub fn copy_object(o: &Object) -> (r: Object)
    ensures
        r@ == o@,
    decreases *o,
{
    match o {
        Object::PyNone => Object::PyNone,
        Object::Ellipsis => Object::Ellipsis,
        Object::NotImplemented => Object::NotImplemented,
        Object::Bool(b) => Object::Bool(*b),
        Object::Int(i) => Object::Int(*i),
        Object::Float(f) => Object::Float(*f),
        Object::Long(b) => Object::Long(BigNum { sign: b.sign, mag: copy_u8(&b.mag) }),
        Object::Complex(r, i) => Object::Complex(*r, *i),
        Object::Str(s) => Object::Str(copy_text(s)),
        Object::WStr(s) => Object::WStr(copy_u32(s)),
        Object::Bytes(b) => Object::Bytes(copy_u8(b)),
        Object::ByteArray(b) => Object::ByteArray(copy_u8(b)),
        Object::Tuple(v) => Object::Tuple(copy_natives(v)),
        Object::List(v) => Object::List(copy_natives(v)),
        Object::Dict(v) => Object::Dict(copy_natives(v)),
        Object::PySet(n) => Object::PySet(*n),
        Object::FrozenSet(n) => Object::FrozenSet(*n),
        Object::Slice(v) => Object::Slice(copy_natives(v)),
        Object::BoundMethod(v) => Object::BoundMethod(copy_natives(v)),
        Object::ClassMethod(v) => Object::ClassMethod(copy_natives(v)),
        Object::Namespace(v) => Object::Namespace(copy_natives(v)),
        Object::Builtin => Object::Builtin,
        Object::MemoryView(m) => Object::MemoryView(
            MemView {
                itemsize: m.itemsize,
                len: m.len,
                shape: copy_i64(&m.shape),
                strides: copy_i64(&m.strides),
                data: copy_u8(&m.data),
                format: copy_u8(&m.format),
                readonly: m.readonly,
                released: m.released,
                c_contiguous: m.c_contiguous,
            },
        ),
        Object::Code(p) => Object::Code(*p),
        Object::Foreign(p) => Object::Foreign(*p),
        Object::Type(p) => Object::Type(*p),
        Object::Capsule(p) => Object::Capsule(*p),
        Object::Module => Object::Module,
        Object::Property(p) => Object::Property(
            PropInfo {
                getset: p.getset,
                d_type: p.d_type,
                name: copy_text(&p.name),
                doc: match &p.doc {
                    Some(d) => Some(copy_text(d)),
                    None => None,
                },
            },
        ),
        Object::Instance(i) => Object::Instance(copy_inst(i)),
        Object::Other(k) => Object::Other(*k),
    }
}

/// What is read of an instance again.
pub fn copy_inst(i: &InstInfo) -> (r: InstInfo)
    ensures
        inst_view(r) == inst_view(*i),
    decreases *i,
{
    InstInfo {
        body: i.body,
        exception: i.exception,
        stop: i.stop,
        args: copy_natives(&i.args),
        value: copy_natives(&i.value),
        native: copy_natives(&i.native),
    }
}

} // verus!
