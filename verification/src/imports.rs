//! Modules by name: the table of imported modules, the names and dicts of
//! modules, and what importing one comes to.

use vstd::prelude::*;
use vstd::utf8::*;
use crate::errors;
use crate::errors::{raise, raise_str, ExcKind, Failure};
use crate::heap;
use crate::heap::{Heap, HeapV};
use crate::module;
use crate::module::{
    collect_methods, AddOutcome, MethodEntry, ModuleValue, ModuleValueView, PyMethodDef,
    PyModuleDef, PyModule_AddObject,
};
use crate::modsupport_ext::PyType_GetModule;
use crate::object::{clone_object, into_owned};
use crate::outward;
use crate::publish;
use crate::reading;
use crate::text;
use crate::text::{copy_text, push_all, push_str, same};
use crate::utf8::encode;
use crate::value;
use crate::value::{copy_native, NatV, Native, ObjV, Object};

verus! {

// ---------------------------------------------------------------------------
// The table of imported modules
// ---------------------------------------------------------------------------

/// The imported modules by name, each by the address of its cell.
#[derive(Debug)]
pub struct ModuleCache {
    pub entries: Vec<(Vec<char>, usize)>,
}

impl View for ModuleCache {
    type V = Seq<(Seq<char>, usize)>;

    open spec fn view(&self) -> Seq<(Seq<char>, usize)> {
        self.entries@.map_values(|p: (Vec<char>, usize)| (p.0@, p.1))
    }
}

/// The module of a name.
pub open spec fn module_of(s: Seq<(Seq<char>, usize)>, name: Seq<char>) -> Option<usize>
    decreases s.len(),
{
    if s.len() == 0 {
        None
    } else if s.last().0 == name {
        Some(s.last().1)
    } else {
        module_of(s.drop_last(), name)
    }
}

impl ModuleCache {
    /// No module is imported.
    pub fn new() -> (r: ModuleCache)
        ensures
            r@ == Seq::<(Seq<char>, usize)>::empty(),
    {
        let c = ModuleCache { entries: Vec::new() };
        assert(c@ =~= Seq::<(Seq<char>, usize)>::empty());
        c
    }

    /// The module of a name.
    pub fn get(&self, name: &[char]) -> (r: Option<usize>)
        ensures
            r == module_of(self@, name@),
    {
        let mut i: usize = self.entries.len();
        let ghost all = self@;
        assert(all.subrange(0, i as int) =~= all);
        while i > 0
            invariant
                i <= self.entries@.len(),
                all == self@,
                module_of(all, name@) == module_of(all.subrange(0, i as int), name@),
            decreases i,
        {
            assert(all.subrange(0, i as int).drop_last() =~= all.subrange(0, i - 1));
            i = i - 1;
            assert(all[i as int] == (self.entries@[i as int].0@, self.entries@[i as int].1));
            if same(self.entries[i].0.as_slice(), name) {
                return Some(self.entries[i].1);
            }
        }
        None
    }

    /// Record a module under a name; it is found in place of one before it.
    pub fn insert(&mut self, name: &[char], id: usize)
        ensures
            final(self)@ == old(self)@.push((name@, id)),
            module_of(final(self)@, name@) == Some(id),
    {
        self.entries.push((copy_text(name), id));
        assert(self@ =~= old(self)@.push((name@, id)));
    }
}

/// Recording a module changes nothing for other names.
pub proof fn law_insert_keeps_others(
    s: Seq<(Seq<char>, usize)>,
    name: Seq<char>,
    id: usize,
    other: Seq<char>,
)
    requires
        other != name,
    ensures
        module_of(s.push((name, id)), other) == module_of(s, other),
        module_of(s.push((name, id)), name) == Some(id),
{
    assert(s.push((name, id)).drop_last() =~= s);
}

/// A module that a call handed out.
#[derive(Debug)]
pub struct Handed {
    pub id: usize,
    /// What goes into the dict of a module that was just made.
    pub dict: Vec<(Vec<char>, ModuleValue)>,
}

/// The entry that every module's dict starts with.
pub open spec fn name_entry(name: Seq<char>) -> (Seq<char>, ModuleValueView) {
    ("__name__"@, ModuleValueView::Text(name))
}

/// The module of a name, made under `fresh` where there is none yet: with its
/// name in its dict, and recorded in the table.
pub fn PyImport_AddModule(cache: &mut ModuleCache, name: Option<&[char]>, fresh: usize) -> (r:
    Option<Handed>)
    ensures
        match name {
            None => r is None && final(cache)@ == old(cache)@,
            Some(n) => match module_of(old(cache)@, n@) {
                Some(id) => {
                    &&& r matches Some(m) && m.id == id && m.dict@.len() == 0
                    &&& final(cache)@ == old(cache)@
                },
                None => {
                    &&& r matches Some(m) && m.id == fresh && module::insertions(m.dict@)
                        == seq![name_entry(n@)]
                    &&& final(cache)@ == old(cache)@.push((n@, fresh))
                },
            },
        },
{
    let n: &[char] = match name {
        None => {
            return None;
        },
        Some(n) => n,
    };
    match cache.get(n) {
        Some(id) => Some(Handed { id, dict: Vec::new() }),
        None => {
            let mut dict: Vec<(Vec<char>, ModuleValue)> = Vec::new();
            dict.push((text::text("__name__"), ModuleValue::Text(copy_text(n))));
            cache.insert(n, fresh);
            assert(module::insertions(dict@) =~= seq![name_entry(n@)]);
            Some(Handed { id: fresh, dict })
        },
    }
}

/// The module of a name as a reference of the caller's own.
pub fn PyImport_AddModuleRef(cache: &mut ModuleCache, name: Option<&[char]>, fresh: usize) -> (r:
    Option<Handed>)
    ensures
        match name {
            None => r is None && final(cache)@ == old(cache)@,
            Some(n) => match module_of(old(cache)@, n@) {
                Some(id) => {
                    &&& r matches Some(m) && m.id == id && m.dict@.len() == 0
                    &&& final(cache)@ == old(cache)@
                },
                None => {
                    &&& r matches Some(m) && m.id == fresh && module::insertions(m.dict@)
                        == seq![name_entry(n@)]
                    &&& final(cache)@ == old(cache)@.push((n@, fresh))
                },
            },
        },
{
    PyImport_AddModule(cache, name, fresh)
}

/// The dict of `__main__`, which is made under `fresh` where there is none yet.
/// `is_module` says whether what the table has under that name is a module.
pub fn main_module_dict(cache: &mut ModuleCache, is_module: bool, fresh: usize) -> (r: Handed)
    ensures
        match module_of(old(cache)@, "__main__"@) {
            Some(id) => if is_module {
                r.id == id && r.dict@.len() == 0 && final(cache)@ == old(cache)@
            } else {
                &&& r.id == fresh
                &&& module::insertions(r.dict@) == seq![name_entry("__main__"@)]
                &&& final(cache)@ == old(cache)@.push(("__main__"@, fresh))
            },
            None => {
                &&& r.id == fresh
                &&& module::insertions(r.dict@) == seq![name_entry("__main__"@)]
                &&& final(cache)@ == old(cache)@.push(("__main__"@, fresh))
            },
        },
{
    let name: Vec<char> = text::text("__main__");
    if let Some(id) = cache.get(name.as_slice()) {
        if is_module {
            return Handed { id, dict: Vec::new() };
        }
    }
    let mut dict: Vec<(Vec<char>, ModuleValue)> = Vec::new();
    dict.push((text::text("__name__"), ModuleValue::Text(text::text("__main__"))));
    cache.insert(name.as_slice(), fresh);
    assert(module::insertions(dict@) =~= seq![name_entry("__main__"@)]);
    Handed { id: fresh, dict }
}

/// The module of a name that is a str, where it is imported.
pub fn PyImport_GetModule(cache: &ModuleCache, name: &Object) -> (r: Option<usize>)
    ensures
        match *name {
            Object::Str(s) => r == module_of(cache@, s@),
            _ => r is None,
        },
{
    match name {
        Object::Str(s) => cache.get(s.as_slice()),
        _ => None,
    }
}

/// A text in quotes, with what does not print escaped.
pub uninterp spec fn quoted_text(s: Seq<char>) -> Seq<char>;

/// `format!` of a `String` with `{:?}`. The result is named; how the characters
/// are escaped is left unsaid.
#[verifier::external_body]
fn quoted(s: &[char]) -> (r: Vec<char>)
    ensures
        r@ == quoted_text(s@),
{
    format!("{:?}", s.iter().collect::<String>()).chars().collect()
}

/// How the VM's import of a module ended.
#[derive(Debug)]
pub enum Imported {
    Done(usize),
    Raised,
    NoInterpreter,
}

/// Import a module by its dotted name. A failed import leaves the exception that
/// the VM raised.
pub fn PyImport_ImportModule(name: Option<&[char]>, result: Imported) -> (r: Result<usize, Failure>)
    ensures
        match name {
            None => errors::silent(r),
            Some(n) => match result {
                Imported::Done(p) => r is Ok && r->Ok_0 == p,
                Imported::Raised => errors::silent(r),
                Imported::NoInterpreter => errors::raises(
                    r,
                    ExcKind::RuntimeError,
                    "PyImport_ImportModule("@ + quoted_text(n@) + "): no active interpreter"@,
                ),
            },
        },
{
    let n: &[char] = match name {
        None => {
            return Err(Failure::Silent);
        },
        Some(n) => n,
    };
    match result {
        Imported::Done(p) => Ok(p),
        Imported::Raised => Err(Failure::Silent),
        Imported::NoInterpreter => {
            let mut m: Vec<char> = text::text("PyImport_ImportModule(");
            push_all(&mut m, quoted(n).as_slice());
            push_str(&mut m, "): no active interpreter");
            Err(raise(ExcKind::RuntimeError, m))
        },
    }
}

/// How the VM reports a failure.
#[derive(Debug)]
pub enum VmError {
    /// A Python exception: its class, where it is an instance, and its message.
    Exception(Option<usize>, Vec<char>),
    Internal(Vec<char>),
}

/// The exception that C code then sees: a class, and a message.
#[derive(Debug)]
pub enum Seen {
    /// Of this class, or of none that is known.
    OfClass(Option<usize>, Vec<char>),
    Runtime(Vec<char>),
}

/// Let C code see a failure of the VM: an exception under its class, anything
/// else as a `RuntimeError`.
pub fn install_runtime_error(err: VmError) -> (r: Seen)
    ensures
        match err {
            VmError::Exception(class, m) => r == Seen::OfClass(class, m),
            VmError::Internal(m) => r == Seen::Runtime(m),
        },
{
    match err {
        VmError::Exception(class, m) => Seen::OfClass(class, m),
        VmError::Internal(m) => Seen::Runtime(m),
    }
}

// ---------------------------------------------------------------------------
// Modules
// ---------------------------------------------------------------------------

/// A module: its own name, and what its dict has under `__name__`.
#[derive(Debug)]
pub struct NamedModule {
    pub name: Vec<char>,
    pub in_dict: Option<Native>,
}

/// Whether an object is a module.
pub fn PyModule_Check(o: Option<&Native>) -> (r: bool)
    ensures
        r == (o matches Some(n) && n.val is Module),
{
    match o {
        Some(n) => match n.val {
            Object::Module => true,
            _ => false,
        },
        None => false,
    }
}

/// What a module is known by: the address of its cell.
pub fn module_native_key(module: Option<&Native>) -> (r: Option<usize>)
    ensures
        r == (match module {
            Some(n) => if n.val is Module {
                Some(n.id)
            } else {
                None
            },
            None => None,
        }),
{
    match module {
        Some(n) => match n.val {
            Object::Module => Some(n.id),
            _ => None,
        },
        None => None,
    }
}

/// What a builtin made from C is known by: the address of its cell.
pub fn cfunc_extra_key(callable: &Native) -> (r: Option<usize>)
    ensures
        r == (if callable.val is Builtin {
            Some(callable.id)
        } else {
            None
        }),
{
    match callable.val {
        Object::Builtin => Some(callable.id),
        _ => None,
    }
}

/// Make an empty module of a name: its dict holds the name and nothing else.
pub fn PyModule_New(name: Option<&[char]>) -> (r: Result<
    (Vec<char>, Vec<(Vec<char>, ModuleValue)>),
    Failure,
>)
    ensures
        match name {
            None => errors::raises(r, ExcKind::TypeError, "PyModule_New: name is NULL"@),
            Some(n) => r is Ok && r->Ok_0.0@ == n@ && module::insertions((r->Ok_0.1)@) == seq![
                name_entry(n@),
            ],
        },
{
    match name {
        None => Err(raise_str(ExcKind::TypeError, "PyModule_New: name is NULL")),
        Some(n) => {
            let mut dict: Vec<(Vec<char>, ModuleValue)> = Vec::new();
            dict.push((text::text("__name__"), ModuleValue::Text(copy_text(n))));
            assert(module::insertions(dict@) =~= seq![name_entry(n@)]);
            Ok((copy_text(n), dict))
        },
    }
}

/// The name of a module: what its dict has under `__name__`, else its own name
/// as a new str under `fresh`. `m` is none for NULL and for anything that is no
/// module.
pub fn PyModule_GetNameObject(m: Option<&NamedModule>, fresh: usize) -> (r: Result<
    Native,
    Failure,
>)
    ensures
        match m {
            None => errors::raises(
                r,
                ExcKind::TypeError,
                "PyModule_GetNameObject: not a module"@,
            ),
            Some(x) => r is Ok && (match x.in_dict {
                Some(n) => r->Ok_0@ == n@,
                None => r->Ok_0 == (Native { id: fresh, val: r->Ok_0.val }) && r->Ok_0.val@
                    == value::ObjV::Str(x.name@),
            }),
        },
{
    match m {
        None => Err(raise_str(ExcKind::TypeError, "PyModule_GetNameObject: not a module")),
        Some(x) => match &x.in_dict {
            Some(n) => Ok(copy_native(n)),
            None => Ok(Native { id: fresh, val: Object::Str(copy_text(x.name.as_slice())) }),
        },
    }
}

/// The name of a module as a C string, NUL included; none for NULL and for
/// anything that is no module.
pub fn PyModule_GetName(m: Option<&NamedModule>) -> (r: Option<Vec<u8>>)
    ensures
        match m {
            None => r is None,
            Some(x) => r matches Some(b) && b@ == encode_utf8(x.name@).push(0),
        },
{
    match m {
        None => None,
        Some(x) => {
            let mut b: Vec<u8> = encode(x.name.as_slice());
            b.push(0);
            Some(b)
        },
    }
}

/// The dict of a module, by the address of its cell; none for NULL and for
/// anything that is no module.
pub fn PyModule_GetDict(m: Option<&Native>, dict: usize) -> (r: Option<usize>)
    ensures
        r == (if m matches Some(n) && n.val is Module {
            Some(dict)
        } else {
            None
        }),
{
    if PyModule_Check(m) {
        Some(dict)
    } else {
        None
    }
}

/// Add a table of functions to a module: each under its name, bound to the
/// module. None for NULL and for anything that is no module.
pub fn PyModule_AddFunctions(is_module: bool, defs: &Option<Vec<PyMethodDef>>) -> (r: Option<
    Vec<(Vec<char>, ModuleValue)>,
>)
    requires
        defs matches Some(d) ==> module::table_end(d@, 0) < d@.len(),
    ensures
        match *defs {
            None => r is None,
            Some(d) => if is_module {
                r matches Some(v) && module::insertions(v@) == module::method_entries(
                    d@,
                    module::table_end(d@, 0),
                )
            } else {
                r is None
            },
        },
{
    if defs.is_none() || !is_module {
        return None;
    }
    let entries: Vec<MethodEntry> = collect_methods(defs);
    let mut out: Vec<(Vec<char>, ModuleValue)> = Vec::new();
    let mut i: usize = 0;
    let ghost rows = (*defs)->0@;
    assert(module::insertions(out@) =~= module::method_entries(rows, 0));
    while i < entries.len()
        invariant
            i <= entries@.len(),
            *defs is Some,
            rows == (*defs)->0@,
            entries@.len() == module::table_end(rows, 0),
            forall|k: int|
                0 <= k < entries@.len() ==> module::decodes(#[trigger] entries@[k], rows[k]),
            module::insertions(out@) == module::method_entries(rows, i as int),
        decreases entries.len() - i,
    {
        assert(module::decodes(entries@[i as int], rows[i as int]));
        let ghost before = module::insertions(out@);
        out.push((copy_text(entries[i].name.as_slice()), ModuleValue::Method(i)));
        assert(module::insertions(out@) =~= before.push(
            (rows[i as int].ml_name->0@, ModuleValueView::Method(i as int)),
        ));
        assert(module::insertions(out@) =~= module::method_entries(rows, i + 1));
        i = i + 1;
    }
    Some(out)
}

/// Add a str to a module; a NULL text is an empty one.
pub fn PyModule_AddStringConstant(
    m_null: bool,
    name_null: bool,
    is_module: bool,
    value: Option<&[char]>,
) -> (r: (AddOutcome, Vec<char>))
    ensures
        r.1@ == (match value {
            Some(v) => v@,
            None => Seq::empty(),
        }),
        if m_null || name_null {
            errors::silent(r.0.result) && !r.0.inserted && r.0.refs == 0
        } else if !is_module {
            errors::raises(r.0.result, ExcKind::TypeError, "PyModule_AddObject: not a module"@)
                && !r.0.inserted && r.0.refs == 0
        } else {
            r.0.result is Ok && r.0.inserted && r.0.refs == -1
        },
{
    let v: Vec<char> = match value {
        Some(v) => copy_text(v),
        None => Vec::new(),
    };
    assert(value is None ==> v@ =~= Seq::<char>::empty());
    (PyModule_AddObject(m_null, name_null, false, is_module), v)
}

/// Add an int to a module.
pub fn PyModule_AddIntConstant(m_null: bool, name_null: bool, is_module: bool, value: i64) -> (r: (
    AddOutcome,
    Object,
))
    ensures
        r.1 == Object::Int(value),
        if m_null || name_null {
            errors::silent(r.0.result) && !r.0.inserted && r.0.refs == 0
        } else if !is_module {
            errors::raises(r.0.result, ExcKind::TypeError, "PyModule_AddObject: not a module"@)
                && !r.0.inserted && r.0.refs == 0
        } else {
            r.0.result is Ok && r.0.inserted && r.0.refs == -1
        },
{
    (PyModule_AddObject(m_null, name_null, false, is_module), Object::Int(value))
}

/// Whether a definition has slots.
pub fn def_has_slots(def: Option<&PyModuleDef>) -> (r: bool)
    ensures
        r == (def matches Some(d) && d.m_slots is Some),
{
    match def {
        Some(d) => d.m_slots.is_some(),
        None => false,
    }
}

/// The state of the module that a heap type was created under.
pub fn PyType_GetModuleState(module: usize, state: usize) -> (r: Result<usize, Failure>)
    ensures
        module == 0 ==> errors::raises(
            r,
            ExcKind::SystemError,
            "PyType_GetModule: type_getmodule"@,
        ),
        module != 0 ==> r is Ok && r->Ok_0 == state,
{
    match PyType_GetModule(module) {
        Ok(_) => Ok(state),
        Err(f) => Err(f),
    }
}

/// There is no lock that a module could do without: nothing happens.
pub fn PyUnstable_Module_SetGIL() -> (r: i32)
    ensures
        r == 0,
{
    0
}

/// A new class method around the VM object behind a callable.
pub open spec fn class_method(h: HeapV, callable: usize) -> (HeapV, usize) {
    let (h1, f) = reading::object_at(h, callable);
    let (h2, id) = heap::new_cell(reading::tidied(h1));
    publish::handed(outward::out(h2, NatV { id, val: ObjV::ClassMethod(seq![f]) }))
}

/// A new class method around a callable: a new object that C code owns.
pub fn PyClassMethod_New(h: &mut Heap, callable: usize) -> (r: Result<usize, Failure>)
    ensures
        callable == 0 ==> final(h)@ == old(h)@ && errors::raises(
            r,
            ExcKind::TypeError,
            "PyClassMethod_New: callable is NULL"@,
        ),
        callable != 0 ==> r is Ok && (final(h)@, r->Ok_0) == class_method(old(h)@, callable),
{
    if callable == 0 {
        return Err(raise_str(ExcKind::TypeError, "PyClassMethod_New: callable is NULL"));
    }
    let f: Native = clone_object(h, callable);
    let id: usize = h.fresh_cell();
    let mut inside: Vec<Native> = Vec::new();
    proof {
        value::lemma_seq_deep_push(inside@, f);
        assert(value::seq_deep(inside@) =~= Seq::<NatV>::empty());
        assert(Seq::<NatV>::empty().push(f@) =~= seq![f@]);
    }
    inside.push(f);
    Ok(into_owned(h, &Native { id, val: Object::ClassMethod(inside) }))
}

/// A new namespace with these names and values, in turn.
pub open spec fn namespace(h: HeapV, entries: Seq<NatV>) -> (HeapV, usize) {
    let (h1, id) = heap::new_cell(h);
    publish::handed(outward::out(h1, NatV { id, val: ObjV::Namespace(entries) }))
}

/// A new namespace with a copy of the entries of a dict, or without any for NULL: a
/// new object that C code owns.
pub fn _PyNamespace_New(h: &mut Heap, kwds: usize) -> (r: Result<usize, Failure>)
    ensures
        if kwds == 0 {
            r is Ok && (final(h)@, r->Ok_0) == namespace(old(h)@, Seq::empty())
        } else {
            let (h1, d) = reading::object_at(old(h)@, kwds);
            match d.val {
                ObjV::Dict(entries) => r is Ok && (final(h)@, r->Ok_0) == namespace(
                    reading::tidied(h1),
                    entries,
                ),
                _ => final(h)@ == reading::tidied(h1) && errors::raises(
                    r,
                    ExcKind::TypeError,
                    "_PyNamespace_New: kwds must be a dict"@,
                ),
            }
        },
{
    let entries: Vec<Native> = if kwds == 0 {
        let none: Vec<Native> = Vec::new();
        assert(value::seq_deep(none@) =~= Seq::<NatV>::empty());
        none
    } else {
        match clone_object(h, kwds).val {
            Object::Dict(entries) => entries,
            _ => {
                return Err(
                    raise_str(ExcKind::TypeError, "_PyNamespace_New: kwds must be a dict"),
                );
            },
        }
    };
    let id: usize = h.fresh_cell();
    Ok(into_owned(h, &Native { id, val: Object::Namespace(entries) }))
}

// ---------------------------------------------------------------------------
// Module specs
// ---------------------------------------------------------------------------

/// What making the spec of a module comes to.
#[derive(Debug)]
pub struct SpecOutcome {
    /// The spec, or zero.
    pub spec: usize,
    /// The exception that is pending is dropped.
    pub clear: bool,
}

/// The arguments for the spec of a module: its name and no loader. `fresh` is
/// the cell of the name.
pub fn spec_args(full_name: &[char], fresh: usize) -> (r: Vec<Native>)
    ensures
        value::seq_deep(r@) == seq![
            NatV { id: fresh, val: value::ObjV::Str(full_name@) },
            NatV { id: 0, val: value::ObjV::PyNone },
        ],
{
    let mut out: Vec<Native> = Vec::new();
    let a = Native { id: fresh, val: Object::Str(copy_text(full_name)) };
    let b = Native { id: 0, val: Object::PyNone };
    proof {
        value::lemma_seq_deep_push(out@, a);
        value::lemma_seq_deep_push(out@.push(a), b);
    }
    out.push(a);
    out.push(b);
    assert(value::seq_deep(out@) =~= seq![
        NatV { id: fresh, val: value::ObjV::Str(full_name@) },
        NatV { id: 0, val: value::ObjV::PyNone },
    ]);
    out
}

/// The spec of a module from `importlib.machinery`: zero, with the exception
/// dropped, where that cannot be imported, has no `ModuleSpec`, or the call of
/// that fails. `machinery`, `class` and `spec` are what came back, zero for NULL;
/// a step is taken only where the one before it succeeded.
pub fn build_module_spec(machinery: usize, class: usize, spec: usize) -> (r: SpecOutcome)
    ensures
        r.spec == (if machinery != 0 && class != 0 {
            spec
        } else {
            0
        }),
        r.clear == (r.spec == 0),
{
    if machinery == 0 {
        return SpecOutcome { spec: 0, clear: true };
    }
    if class == 0 {
        return SpecOutcome { spec: 0, clear: true };
    }
    SpecOutcome { spec, clear: spec == 0 }
}

// ---------------------------------------------------------------------------
// Pending exceptions
// ---------------------------------------------------------------------------

/// An `ImportError` that is set: its message, and its `name` and `path`, zero
/// for `None`.
#[derive(Debug)]
pub struct ImportErrorImage {
    pub msg: Vec<char>,
    pub name: usize,
    pub path: usize,
}

/// Set an `ImportError`. `shown` is the text of a message that is no str.
pub fn PyErr_SetImportError(msg: Option<&Object>, shown: &[char], name: usize, path: usize) -> (r:
    Result<ImportErrorImage, Failure>)
    ensures
        match msg {
            None => errors::raises(
                r,
                ExcKind::TypeError,
                "PyErr_SetImportError: msg must be set"@,
            ),
            Some(o) => r is Ok && r->Ok_0.name == name && r->Ok_0.path == path && r->Ok_0.msg@ == (
            match *o {
                Object::Str(s) => s@,
                _ => shown@,
            }),
        },
{
    match msg {
        None => Err(raise_str(ExcKind::TypeError, "PyErr_SetImportError: msg must be set")),
        Some(o) => {
            let text: Vec<char> = match o {
                Object::Str(s) => copy_text(s.as_slice()),
                _ => copy_text(shown),
            };
            Ok(ImportErrorImage { msg: text, name, path })
        },
    }
}

/// The cause and the context that a pending exception gets: none where nothing
/// is pending or it is no instance. The reference to the cause is released where
/// there is one.
pub fn _WeavePy_ApplyCause(cause: usize, pending_is_instance: Option<bool>) -> (r: Option<usize>)
    ensures
        r == (if cause != 0 && pending_is_instance == Some(true) {
            Some(cause)
        } else {
            None
        }),
{
    if cause == 0 {
        return None;
    }
    match pending_is_instance {
        Some(true) => Some(cause),
        _ => None,
    }
}

/// The arguments of a `KeyError` for a key.
pub fn _PyErr_SetKeyError(key: usize) -> (r: Vec<usize>)
    ensures
        r@ == seq![key],
{
    let mut out: Vec<usize> = Vec::new();
    out.push(key);
    assert(out@ =~= seq![key]);
    out
}

} // verus!
