//! Module creation, multi-phase initialisation, and the bridge that calls a C
//! function on behalf of Python code.

use std::collections::HashMap;
use vstd::prelude::*;
use crate::errors;
use crate::errors::{raise, raise_str, ExcKind, Failure, FailureView, PyError};
use crate::modsupport_ext::{call_meth_method, VectorCall};
use crate::modsupport_ext;
use crate::object::{PyObject, IMMORTAL_REFCNT};
use crate::search;
use crate::text;
use crate::text::{push_all, push_dec, push_str, slice_of};
use crate::value::Object;

verus! {

broadcast use vstd::std_specs::hash::group_hash_axioms;

pub const METH_VARARGS: i32 = 0x0001;

pub const METH_KEYWORDS: i32 = 0x0002;

pub const METH_NOARGS: i32 = 0x0004;

pub const METH_O: i32 = 0x0008;

pub const METH_CLASS: i32 = 0x0010;

pub const METH_STATIC: i32 = 0x0020;

pub const METH_COEXIST: i32 = 0x0040;

pub const METH_FASTCALL: i32 = 0x0080;

pub const METH_METHOD: i32 = 0x0200;

pub const PY_MOD_CREATE: i32 = 1;

pub const PY_MOD_EXEC: i32 = 2;

pub const PY_MOD_MULTIPLE_INTERPRETERS: i32 = 3;

/// The highest slot id that is known.
pub const PY_MOD_LAST_SLOT: i32 = 4;

/// One entry of a C method table. A NULL name ends the table.
#[derive(Debug)]
pub struct PyMethodDef {
    pub ml_name: Option<Vec<char>>,
    pub ml_meth: usize,
    pub ml_flags: i32,
    pub ml_doc: Option<Vec<char>>,
}

/// The head of a module definition.
#[derive(Debug)]
pub struct PyModuleDef_Base {
    pub ob_base: PyObject,
    pub m_init: usize,
    pub m_index: isize,
    pub m_copy: usize,
}

/// One slot of a multi-phase definition. Id zero ends the array.
#[derive(Clone, Copy, Debug, PartialEq, Eq, Structural)]
pub struct PyModuleDef_Slot {
    pub slot: i32,
    pub value: usize,
}

/// A module definition.
#[derive(Debug)]
pub struct PyModuleDef {
    pub m_base: PyModuleDef_Base,
    pub m_name: Option<Vec<char>>,
    pub m_doc: Option<Vec<char>>,
    pub m_size: isize,
    pub m_methods: Option<Vec<PyMethodDef>>,
    pub m_slots: Option<Vec<PyModuleDef_Slot>>,
    pub m_traverse: usize,
    pub m_clear: usize,
    pub m_free: usize,
}

/// A decoded method-table entry.
#[derive(Debug)]
pub struct MethodEntry {
    pub name: Vec<char>,
    pub doc: Option<Vec<char>>,
    pub func: usize,
    pub flags: i32,
}

fn copy_text(s: &Vec<char>) -> (r: Vec<char>)
    ensures
        r@ == s@,
{
    assert(s@.subrange(0, s@.len() as int) =~= s@);
    slice_of(s.as_slice(), 0, s.len())
}

fn copy_opt(s: &Option<Vec<char>>) -> (r: Option<Vec<char>>)
    ensures
        opt_text(r) == opt_text(*s),
{
    match s {
        Some(t) => Some(copy_text(t)),
        None => None,
    }
}

/// The content of an optional text.
pub open spec fn opt_text(s: Option<Vec<char>>) -> Option<Seq<char>> {
    match s {
        Some(t) => Some(t@),
        None => None,
    }
}

// ---------------------------------------------------------------------------
// Method tables
// ---------------------------------------------------------------------------

/// The index of the entry that ends a method table, from `i` on.
pub open spec fn table_end(defs: Seq<PyMethodDef>, i: int) -> int
    decreases defs.len() - i,
{
    if i < 0 || i >= defs.len() || defs[i].ml_name is None {
        i
    } else {
        table_end(defs, i + 1)
    }
}

/// An entry decodes a table row.
pub open spec fn decodes(e: MethodEntry, d: PyMethodDef) -> bool {
    &&& d.ml_name is Some
    &&& e.name@ == d.ml_name->0@
    &&& opt_text(e.doc) == opt_text(d.ml_doc)
    &&& e.func == d.ml_meth
    &&& e.flags == d.ml_flags
}

/// Decode a method table up to its end; a NULL table is empty.
pub fn collect_methods(defs: &Option<Vec<PyMethodDef>>) -> (r: Vec<MethodEntry>)
    requires
        defs matches Some(d) ==> table_end(d@, 0) < d@.len(),
    ensures
        match *defs {
            None => r@.len() == 0,
            Some(d) => r@.len() == table_end(d@, 0) && forall|i: int|
                0 <= i < r@.len() ==> decodes(#[trigger] r@[i], d@[i]),
        },
{
    let mut out: Vec<MethodEntry> = Vec::new();
    match defs {
        None => {},
        Some(d) => {
            let rows: usize = d.len();
            let mut i: usize = 0;
            loop
                invariant
                    rows == d@.len(),
                    i < d@.len(),
                    table_end(d@, 0) == table_end(d@, i as int),
                    table_end(d@, 0) < d@.len(),
                    *defs == Some(*d),
                    out@.len() == i,
                    forall|k: int| 0 <= k < i ==> decodes(#[trigger] out@[k], d@[k]),
                decreases d@.len() - i,
            {
                let name = match &d[i].ml_name {
                    None => {
                        return out;
                    },
                    Some(n) => copy_text(n),
                };
                proof {
                    lemma_table_end(d@, i + 1);
                }
                let doc: Option<Vec<char>> = copy_opt(&d[i].ml_doc);
                out.push(MethodEntry { name, doc, func: d[i].ml_meth, flags: d[i].ml_flags });
                i = i + 1;
            }
        },
    }
    out
}

proof fn lemma_table_end(defs: Seq<PyMethodDef>, i: int)
    requires
        0 <= i,
    ensures
        table_end(defs, i) >= i,
    decreases defs.len() - i,
{
    if i < defs.len() && defs[i].ml_name is Some {
        lemma_table_end(defs, i + 1);
    }
}

// ---------------------------------------------------------------------------
// The Python-to-C bridge
// ---------------------------------------------------------------------------

/// How a C function is called.
#[derive(Debug, PartialEq, Eq, Structural)]
pub enum CallShape {
    /// `f(self, None)`.
    NoArgs,
    /// `f(self, arg)`.
    One,
    /// `f(self, class, argv, nargs, kwnames)`.
    Method(usize),
    /// `f(self, argv, nargs)`, with `kwnames` where it takes keywords.
    Fastcall(bool),
    /// `f(self, tuple)`, with a dict where it takes keywords.
    Tuple(bool),
}

/// The flag is set.
pub open spec fn flag_set(flags: i32, f: i32) -> bool {
    flags & f != 0
}

/// How a module-level C function is called, or the message of the `TypeError`.
pub open spec fn function_shape(
    func: usize,
    name: Seq<char>,
    flags: i32,
    nargs: int,
) -> Result<CallShape, Seq<char>> {
    if func == 0 {
        Err("'"@ + name + "' is null"@)
    } else if flag_set(flags, METH_NOARGS) {
        if nargs != 0 {
            Err(name + "() takes no arguments ("@ + text::dec(nargs) + " given)"@)
        } else {
            Ok(CallShape::NoArgs)
        }
    } else if flag_set(flags, METH_O) {
        if nargs != 1 {
            Err(name + "() takes exactly one argument ("@ + text::dec(nargs) + " given)"@)
        } else {
            Ok(CallShape::One)
        }
    } else if flag_set(flags, METH_FASTCALL) {
        Ok(CallShape::Fastcall(flag_set(flags, METH_KEYWORDS)))
    } else {
        Ok(CallShape::Tuple(flag_set(flags, METH_KEYWORDS)))
    }
}

fn null_function(name: &[char]) -> (r: Failure)
    ensures
        r@ == FailureView::Raised(ExcKind::TypeError, "'"@ + name@ + "' is null"@),
{
    let mut m: Vec<char> = text::text("'");
    push_all(&mut m, name);
    push_str(&mut m, "' is null");
    raise(ExcKind::TypeError, m)
}

fn arity(name: &[char], what: &str, n: usize) -> (r: Failure)
    ensures
        r@ == FailureView::Raised(
            ExcKind::TypeError,
            name@ + what@ + text::dec(n as int) + " given)"@,
        ),
{
    let mut m: Vec<char> = slice_of(name, 0, name.len());
    assert(m@ =~= name@);
    push_str(&mut m, what);
    push_dec(&mut m, n as i128);
    push_str(&mut m, " given)");
    raise(ExcKind::TypeError, m)
}

/// Decide how a module-level C function is called with `nargs` positional
/// arguments.
pub fn bridge_invoke(func: usize, name: &[char], flags: i32, nargs: usize) -> (r: Result<
    CallShape,
    Failure,
>)
    ensures
        match function_shape(func, name@, flags, nargs as int) {
            Ok(s) => r is Ok && r->Ok_0 == s,
            Err(m) => errors::raises(r, ExcKind::TypeError, m),
        },
{
    if func == 0 {
        return Err(null_function(name));
    }
    if (flags & METH_NOARGS) != 0 {
        if nargs != 0 {
            return Err(arity(name, "() takes no arguments (", nargs));
        }
        return Ok(CallShape::NoArgs);
    }
    if (flags & METH_O) != 0 {
        if nargs != 1 {
            return Err(arity(name, "() takes exactly one argument (", nargs));
        }
        return Ok(CallShape::One);
    }
    if (flags & METH_FASTCALL) != 0 {
        return Ok(CallShape::Fastcall((flags & METH_KEYWORDS) != 0));
    }
    Ok(CallShape::Tuple((flags & METH_KEYWORDS) != 0))
}

/// How a C method is called; its receiver is the first argument.
pub open spec fn method_shape(
    func: usize,
    name: Seq<char>,
    flags: i32,
    nargs: int,
    defining_class: usize,
) -> Result<CallShape, Seq<char>> {
    if func == 0 {
        Err("'"@ + name + "' is null"@)
    } else if nargs == 0 {
        Err(name + "() takes at least 1 argument (self) (0 given)"@)
    } else if !flag_set(flags, METH_NOARGS) && !flag_set(flags, METH_O) && flag_set(flags, METH_METHOD) {
        if defining_class == 0 {
            Err(name + "(): defining class is not available"@)
        } else {
            Ok(CallShape::Method(defining_class))
        }
    } else {
        function_shape(func, name, flags, nargs - 1)
    }
}

/// Decide how a C method is called with `nargs` arguments, the receiver among
/// them.
pub fn bridge_invoke_method(
    func: usize,
    name: &[char],
    flags: i32,
    nargs: usize,
    defining_class: usize,
) -> (r: Result<CallShape, Failure>)
    ensures
        match method_shape(func, name@, flags, nargs as int, defining_class) {
            Ok(s) => r is Ok && r->Ok_0 == s,
            Err(m) => errors::raises(r, ExcKind::TypeError, m),
        },
{
    if func == 0 {
        return Err(null_function(name));
    }
    if nargs == 0 {
        let mut m: Vec<char> = slice_of(name, 0, name.len());
        assert(m@ =~= name@);
        push_str(&mut m, "() takes at least 1 argument (self) (0 given)");
        return Err(raise(ExcKind::TypeError, m));
    }
    if (flags & METH_NOARGS) == 0 && (flags & METH_O) == 0 && (flags & METH_METHOD) != 0 {
        if defining_class == 0 {
            let mut m: Vec<char> = slice_of(name, 0, name.len());
            assert(m@ =~= name@);
            push_str(&mut m, "(): defining class is not available");
            return Err(raise(ExcKind::TypeError, m));
        }
        return Ok(CallShape::Method(defining_class));
    }
    bridge_invoke(func, name, flags, nargs - 1)
}

/// What a C call came to.
#[derive(Debug)]
pub enum CallOutcome {
    /// An owned reference to convert and release.
    Value(usize),
    /// The pending exception is what the call raised.
    Pending,
    /// The function broke its contract.
    Failed(PyError),
}

/// Read the result of a C call: a NULL result is an exception, whether or not
/// the function set one.
pub fn bridge_result(name: &[char], result: usize, pending: bool) -> (r: CallOutcome)
    ensures
        match r {
            CallOutcome::Value(p) => result != 0 && p == result,
            CallOutcome::Pending => result == 0 && pending,
            CallOutcome::Failed(e) => result == 0 && !pending && e.kind is TypeError && e.msg@
                == name@ + "() returned NULL without setting an exception"@,
        },
{
    if result != 0 {
        return CallOutcome::Value(result);
    }
    if pending {
        return CallOutcome::Pending;
    }
    let mut m: Vec<char> = slice_of(name, 0, name.len());
    assert(m@ =~= name@);
    push_str(&mut m, "() returned NULL without setting an exception");
    CallOutcome::Failed(PyError { kind: ExcKind::TypeError, msg: m })
}

/// Lay out the arguments of a fastcall: the positional values, the keyword
/// values behind them, the keyword names in a tuple.
pub fn call_fastcall(args: &Vec<usize>, kwargs: &Vec<(Vec<char>, usize)>) -> (r: VectorCall)
    ensures
        r.argv@ == args@ + kwargs@.map_values(|p: (Vec<char>, usize)| p.1),
        r.nargs == args@.len(),
        kwargs@.len() == 0 ==> r.kwnames is None,
        kwargs@.len() > 0 ==> r.kwnames is Some && search::texts(r.kwnames->0@)
            == modsupport_ext::kw_names(kwargs@),
{
    call_meth_method(args, kwargs)
}

/// The callable that stands for a C function in Python.
#[derive(Debug)]
pub struct BuiltinFn {
    pub name: Vec<char>,
    /// It binds its receiver when looked up on an instance.
    pub binds_instance: bool,
    /// It accepts keyword arguments.
    pub call_kw: bool,
}

fn wrap_c_function(name: &Vec<char>, flags: i32) -> (r: BuiltinFn)
    ensures
        r.name@ == name@,
        !r.binds_instance,
        r.call_kw == flag_set(flags, METH_KEYWORDS),
{
    BuiltinFn {
        name: copy_text(name),
        binds_instance: false,
        call_kw: (flags & METH_KEYWORDS) != 0,
    }
}

fn wrap_c_method_function(name: &Vec<char>, flags: i32) -> (r: BuiltinFn)
    ensures
        r.name@ == "_capi:"@ + name@,
        r.binds_instance,
        r.call_kw == flag_set(flags, METH_KEYWORDS),
{
    let mut n: Vec<char> = text::text("_capi:");
    push_all(&mut n, name.as_slice());
    BuiltinFn { name: n, binds_instance: true, call_kw: (flags & METH_KEYWORDS) != 0 }
}

impl MethodEntry {
    /// The function as a module-level callable.
    pub fn bind(&self) -> (r: BuiltinFn)
        ensures
            r.name@ == self.name@,
            !r.binds_instance,
            r.call_kw == flag_set(self.flags, METH_KEYWORDS),
    {
        wrap_c_function(&self.name, self.flags)
    }

    /// The function as a member of a class. Its name is marked so that it is
    /// not taken for a Python builtin of the same name.
    pub fn bind_unbound(&self) -> (r: BuiltinFn)
        ensures
            r.name@ == "_capi:"@ + self.name@,
            r.binds_instance,
            r.call_kw == flag_set(self.flags, METH_KEYWORDS),
    {
        wrap_c_method_function(&self.name, self.flags)
    }
}

// ---------------------------------------------------------------------------
// Single-phase creation
// ---------------------------------------------------------------------------

/// A value stored into a new module's dict.
#[derive(Debug)]
pub enum ModuleValue {
    Text(Vec<char>),
    NoneValue,
    /// The method with this index in the definition's table.
    Method(usize),
}

/// The mathematical content of a [`ModuleValue`].
#[verifier::ext_equal]
pub enum ModuleValueView {
    Text(Seq<char>),
    NoneValue,
    Method(int),
}

impl View for ModuleValue {
    type V = ModuleValueView;

    open spec fn view(&self) -> ModuleValueView {
        match self {
            ModuleValue::Text(t) => ModuleValueView::Text(t@),
            ModuleValue::NoneValue => ModuleValueView::NoneValue,
            ModuleValue::Method(i) => ModuleValueView::Method(*i as int),
        }
    }
}

/// The insertions into a dict, in order.
pub open spec fn insertions(v: Seq<(Vec<char>, ModuleValue)>) -> Seq<(Seq<char>, ModuleValueView)> {
    v.map_values(|p: (Vec<char>, ModuleValue)| (p.0@, p.1@))
}

/// What creating a module from a definition comes to.
#[derive(Debug)]
pub struct ModuleImage {
    pub name: Vec<char>,
    /// The dict's insertions in order; a repeated key is overwritten.
    pub dict: Vec<(Vec<char>, ModuleValue)>,
    /// Bytes of module state to allocate.
    pub state: Option<usize>,
    /// The module can be found by its definition later.
    pub findable: bool,
}

/// The dict entries that come from the definition itself.
pub open spec fn head_entries(d: &PyModuleDef) -> Seq<(Seq<char>, ModuleValueView)> {
    let name = match d.m_name {
        Some(n) => n@,
        None => Seq::empty(),
    };
    let first = seq![("__name__"@, ModuleValueView::Text(name))];
    let doc = match d.m_doc {
        Some(t) => seq![("__doc__"@, ModuleValueView::Text(t@))],
        None => Seq::empty(),
    };
    first + doc + seq![
        ("__package__"@, ModuleValueView::Text(""@)),
        ("__loader__"@, ModuleValueView::NoneValue),
        ("__spec__"@, ModuleValueView::NoneValue),
    ]
}

/// The dict entries of the first `n` methods.
pub open spec fn method_entries(defs: Seq<PyMethodDef>, n: int) -> Seq<
    (Seq<char>, ModuleValueView),
> {
    Seq::new(n as nat, |i: int| (defs[i].ml_name->0@, ModuleValueView::Method(i)))
}

/// The dict entries of the methods of a definition.
pub open spec fn def_methods(d: &PyModuleDef) -> Seq<(Seq<char>, ModuleValueView)> {
    match d.m_methods {
        Some(m) => method_entries(m@, table_end(m@, 0)),
        None => Seq::empty(),
    }
}

/// The method table of a definition has an end.
pub open spec fn methods_wf(d: &PyModuleDef) -> bool {
    d.m_methods matches Some(m) ==> table_end(m@, 0) < m@.len()
}

fn put(dict: &mut Vec<(Vec<char>, ModuleValue)>, key: Vec<char>, value: ModuleValue)
    ensures
        insertions(final(dict)@) == insertions(old(dict)@).push((key@, value@)),
{
    let ghost before = dict@;
    dict.push((key, value));
    assert(insertions(dict@) =~= insertions(before).push((key@, value@)));
}

/// Create a module from a definition: its name, doc and methods in its dict,
/// state for a positive size, and found again by its definition where the size
/// is not negative and there are no slots.
pub fn PyModule_Create2(def: Option<&PyModuleDef>) -> (r: Result<ModuleImage, Failure>)
    requires
        def matches Some(d) ==> methods_wf(d),
    ensures
        match def {
            None => errors::raises(
                r,
                ExcKind::RuntimeError,
                "PyModule_Create2 with null def"@,
            ),
            Some(d) => r is Ok && ({
                let m = r->Ok_0;
                &&& m.name@ == (match d.m_name {
                    Some(n) => n@,
                    None => Seq::empty(),
                })
                &&& insertions(m.dict@) == head_entries(d) + def_methods(d)
                &&& m.state == (if d.m_size > 0 {
                    Some(d.m_size as usize)
                } else {
                    None
                })
                &&& m.findable == (d.m_size >= 0 && d.m_slots is None)
            }),
        },
{
    let d = match def {
        None => {
            return Err(raise_str(ExcKind::RuntimeError, "PyModule_Create2 with null def"));
        },
        Some(d) => d,
    };
    let name: Vec<char> = match &d.m_name {
        Some(n) => copy_text(n),
        None => Vec::new(),
    };
    assert(name@ =~= match d.m_name {
        Some(n) => n@,
        None => Seq::empty(),
    });
    let mut dict: Vec<(Vec<char>, ModuleValue)> = Vec::new();
    put(&mut dict, text::text("__name__"), ModuleValue::Text(copy_text(&name)));
    if let Some(t) = &d.m_doc {
        put(&mut dict, text::text("__doc__"), ModuleValue::Text(copy_text(t)));
    }
    put(&mut dict, text::text("__package__"), ModuleValue::Text(text::text("")));
    put(&mut dict, text::text("__loader__"), ModuleValue::NoneValue);
    put(&mut dict, text::text("__spec__"), ModuleValue::NoneValue);
    assert(insertions(dict@) =~= head_entries(d));
    let entries: Vec<MethodEntry> = collect_methods(&d.m_methods);
    let mut i: usize = 0;
    assert(insertions(dict@) =~= head_entries(d) + def_methods(d).subrange(0, 0));
    while i < entries.len()
        invariant
            i <= entries@.len(),
            entries@.len() == def_methods(d).len(),
            forall|k: int|
                0 <= k < entries@.len() ==> (#[trigger] entries@[k]).name@ == def_methods(d)[k].0
                    && def_methods(d)[k].1 == ModuleValueView::Method(k),
            insertions(dict@) == head_entries(d) + def_methods(d).subrange(0, i as int),
        decreases entries.len() - i,
    {
        let ghost before = insertions(dict@);
        put(&mut dict, copy_text(&entries[i].name), ModuleValue::Method(i));
        assert(entries@[i as int].name@ == def_methods(d)[i as int].0);
        assert(insertions(dict@) =~= head_entries(d) + def_methods(d).subrange(0, i + 1));
        i = i + 1;
    }
    assert(def_methods(d).subrange(0, def_methods(d).len() as int) =~= def_methods(d));
    let state: Option<usize> = if d.m_size > 0 {
        Some(d.m_size as usize)
    } else {
        None
    };
    let findable: bool = d.m_size >= 0 && d.m_slots.is_none();
    Ok(ModuleImage { name, dict, state, findable })
}

// ---------------------------------------------------------------------------
// Multi-phase initialisation
// ---------------------------------------------------------------------------

/// Tag a definition as a module-definition object that is never freed.
pub fn PyModuleDef_Init(def: &mut PyModuleDef, module_def_type: usize)
    ensures
        final(def).m_base.ob_base == (PyObject {
            ob_refcnt: IMMORTAL_REFCNT,
            ob_type: module_def_type,
        }),
        final(def).m_base.m_init == old(def).m_base.m_init,
        final(def).m_base.m_index == old(def).m_base.m_index,
        final(def).m_base.m_copy == old(def).m_base.m_copy,
        final(def).m_name == old(def).m_name,
        final(def).m_doc == old(def).m_doc,
        final(def).m_size == old(def).m_size,
        final(def).m_methods == old(def).m_methods,
        final(def).m_slots == old(def).m_slots,
{
    def.m_base.ob_base = PyObject { ob_refcnt: IMMORTAL_REFCNT, ob_type: module_def_type };
}

/// Whether an object is a tagged module definition.
pub fn is_module_def(raw: Option<&PyObject>, module_def_type: usize) -> (r: bool)
    ensures
        r == (raw matches Some(o) && o.ob_type == module_def_type),
{
    match raw {
        Some(o) => o.ob_type == module_def_type,
        None => false,
    }
}

/// The index of the slot that ends an array, from `i` on.
pub open spec fn slots_end(s: Seq<PyModuleDef_Slot>, i: int) -> int
    decreases s.len() - i,
{
    if i < 0 || i >= s.len() || s[i].slot == 0 {
        i
    } else {
        slots_end(s, i + 1)
    }
}

/// The slots of a definition, without the end.
pub open spec fn slots(d: &PyModuleDef) -> Seq<PyModuleDef_Slot> {
    match d.m_slots {
        Some(s) => s@.subrange(0, slots_end(s@, 0)),
        None => Seq::empty(),
    }
}

/// The slot array of a definition has an end.
pub open spec fn slots_wf(d: &PyModuleDef) -> bool {
    d.m_slots matches Some(s) ==> slots_end(s@, 0) < s@.len()
}

proof fn lemma_slots_end(s: Seq<PyModuleDef_Slot>, i: int)
    requires
        0 <= i,
    ensures
        slots_end(s, i) >= i,
    decreases s.len() - i,
{
    if i < s.len() && s[i].slot != 0 {
        lemma_slots_end(s, i + 1);
    }
}

/// The slots of a definition.
fn slots_of(d: &PyModuleDef) -> (r: Vec<PyModuleDef_Slot>)
    requires
        slots_wf(d),
    ensures
        r@ == slots(d),
{
    let mut out: Vec<PyModuleDef_Slot> = Vec::new();
    match &d.m_slots {
        None => {},
        Some(s) => {
            let rows: usize = s.len();
            let mut i: usize = 0;
            while s[i].slot != 0
                invariant
                    rows == s@.len(),
                    i < s@.len(),
                    slots_end(s@, 0) == slots_end(s@, i as int),
                    slots_end(s@, 0) < s@.len(),
                    out@ == s@.subrange(0, i as int),
                decreases s@.len() - i,
            {
                proof {
                    lemma_slots_end(s@, i + 1);
                }
                out.push(s[i]);
                i = i + 1;
                assert(out@ =~= s@.subrange(0, i as int));
            }
        },
    }
    assert(out@ =~= slots(d));
    out
}

/// The first slot at or after `i` whose id is not known.
pub open spec fn unknown_from(s: Seq<PyModuleDef_Slot>, i: int) -> int
    decreases s.len() - i,
{
    if i < 0 || i >= s.len() || s[i].slot < 1 || s[i].slot > PY_MOD_LAST_SLOT {
        i
    } else {
        unknown_from(s, i + 1)
    }
}

/// The first slot at or after `i` with an id.
pub open spec fn slot_from(s: Seq<PyModuleDef_Slot>, id: i32, i: int) -> int
    decreases s.len() - i,
{
    if i < 0 || i >= s.len() || s[i].slot == id {
        i
    } else {
        slot_from(s, id, i + 1)
    }
}

/// The number of slots with an id among the first `n`.
pub open spec fn slot_uses(s: Seq<PyModuleDef_Slot>, id: i32, n: int) -> int
    decreases n,
{
    if n <= 0 {
        0
    } else {
        slot_uses(s, id, n - 1) + (if s[n - 1].slot == id {
            1int
        } else {
            0
        })
    }
}

/// The values of the execution slots among the first `n`, in order.
pub open spec fn exec_values(s: Seq<PyModuleDef_Slot>, n: int) -> Seq<usize>
    decreases n,
{
    if n <= 0 {
        Seq::empty()
    } else if s[n - 1].slot == PY_MOD_EXEC {
        exec_values(s, n - 1).push(s[n - 1].value)
    } else {
        exec_values(s, n - 1)
    }
}

/// What a definition says of several interpreters: 0 is not supported, 1 (the
/// default) is supported with a shared lock, anything else with an own lock.
pub open spec fn multi_support(s: Seq<PyModuleDef_Slot>) -> usize {
    let i = slot_from(s, PY_MOD_MULTIPLE_INTERPRETERS, 0);
    if i < s.len() {
        s[i].value
    } else {
        1
    }
}

/// In a sub-interpreter that checks extensions (`gate`, which tells whether it
/// owns its lock) the module must not be loaded.
pub open spec fn gated(support: usize, gate: Option<bool>) -> bool {
    match gate {
        None => false,
        Some(own) => support == 0 || (support == 1 && own),
    }
}

/// The end of an initialisation that failed.
#[derive(Debug)]
pub struct MultiphaseFailure {
    /// The exception to set; `None` leaves the pending one.
    pub raised: Option<PyError>,
    /// The pending exception becomes the cause of the one set.
    pub from_cause: bool,
    /// The module's reference is released.
    pub release: bool,
    pub message: Vec<char>,
}

/// The mathematical content of a [`MultiphaseFailure`].
#[verifier::ext_equal]
pub struct FailView {
    pub raised: Option<(ExcKind, Seq<char>)>,
    pub from_cause: bool,
    pub release: bool,
    pub message: Seq<char>,
}

impl View for MultiphaseFailure {
    type V = FailView;

    open spec fn view(&self) -> FailView {
        FailView {
            raised: match self.raised {
                Some(e) => Some((e.kind, e.msg@)),
                None => None,
            },
            from_cause: self.from_cause,
            release: self.release,
            message: self.message@,
        }
    }
}

/// What to do next in a multi-phase initialisation.
#[derive(Debug)]
pub enum MultiphaseStep {
    /// Call the create slot with a module spec and the definition.
    Create(usize),
    /// Create the module as in single-phase creation.
    CreateDefault,
    /// The object is no module: set the methods as its attributes and be done.
    Attach,
    /// Allocate state, record the definition, set `__name__` and
    /// `__package__`; execution follows.
    Prepare {
        state: Option<usize>,
        name: Vec<char>,
        package: Vec<char>,
    },
    /// Call an execution slot.
    Exec(usize),
    Done,
    Fail(MultiphaseFailure),
}

/// The mathematical content of a [`MultiphaseStep`].
#[verifier::ext_equal]
pub enum StepView {
    Create(usize),
    CreateDefault,
    Attach,
    Prepare(Option<usize>, Seq<char>, Seq<char>),
    Exec(usize),
    Done,
    Fail(FailView),
}

impl View for MultiphaseStep {
    type V = StepView;

    open spec fn view(&self) -> StepView {
        match self {
            MultiphaseStep::Create(v) => StepView::Create(*v),
            MultiphaseStep::CreateDefault => StepView::CreateDefault,
            MultiphaseStep::Attach => StepView::Attach,
            MultiphaseStep::Prepare { state, name, package } => StepView::Prepare(
                *state,
                name@,
                package@,
            ),
            MultiphaseStep::Exec(v) => StepView::Exec(*v),
            MultiphaseStep::Done => StepView::Done,
            MultiphaseStep::Fail(f) => StepView::Fail(f@),
        }
    }
}

/// A failure with an exception whose message is also the outcome's.
pub open spec fn fails_with(kind: ExcKind, m: Seq<char>, from_cause: bool, release: bool) -> StepView {
    StepView::Fail(FailView { raised: Some((kind, m)), from_cause, release, message: m })
}

/// How a multi-phase initialisation starts: the slot table is checked, then
/// the module is created.
pub open spec fn first_step(d: &PyModuleDef, name: Seq<char>, gate: Option<bool>) -> StepView {
    let s = slots(d);
    let n = s.len() as int;
    let bad = unknown_from(s, 0);
    let create = slot_from(s, PY_MOD_CREATE, 0);
    if d.m_size < 0 {
        fails_with(
            ExcKind::SystemError,
            "module "@ + name + ": m_size may not be negative for multi-phase initialization"@,
            false,
            false,
        )
    } else if bad < n {
        fails_with(
            ExcKind::SystemError,
            "module "@ + name + " uses unknown slot ID "@ + text::dec(s[bad].slot as int),
            false,
            false,
        )
    } else if slot_uses(s, PY_MOD_CREATE, n) > 1 {
        fails_with(
            ExcKind::SystemError,
            "module "@ + name + " has multiple create slots"@,
            false,
            false,
        )
    } else if slot_uses(s, PY_MOD_MULTIPLE_INTERPRETERS, n) > 1 {
        fails_with(
            ExcKind::SystemError,
            "module "@ + name + " has more than one 'multiple interpreters' slots"@,
            false,
            false,
        )
    } else if gated(multi_support(s), gate) {
        fails_with(
            ExcKind::ImportError,
            "module "@ + name + " does not support loading in subinterpreters"@,
            false,
            false,
        )
    } else if create < n {
        StepView::Create(s[create].value)
    } else {
        StepView::CreateDefault
    }
}

fn named_message(before: &str, name: &[char], after: &str) -> (r: Vec<char>)
    ensures
        r@ == before@ + name@ + after@,
{
    let mut m: Vec<char> = text::text(before);
    push_all(&mut m, name);
    push_str(&mut m, after);
    m
}

fn fail_with(kind: ExcKind, m: Vec<char>, from_cause: bool, release: bool) -> (r: MultiphaseStep)
    ensures
        r@ == fails_with(kind, m@, from_cause, release),
{
    let message: Vec<char> = copy_text(&m);
    MultiphaseStep::Fail(
        MultiphaseFailure { raised: Some(PyError { kind, msg: m }), from_cause, release, message },
    )
}

fn find_slot(s: &Vec<PyModuleDef_Slot>, id: i32) -> (r: usize)
    ensures
        r == slot_from(s@, id, 0),
        r <= s@.len(),
{
    let mut i: usize = 0;
    while i < s.len() && s[i].slot != id
        invariant
            i <= s@.len(),
            slot_from(s@, id, 0) == slot_from(s@, id, i as int),
        decreases s.len() - i,
    {
        i = i + 1;
    }
    i
}

fn find_unknown(s: &Vec<PyModuleDef_Slot>) -> (r: usize)
    ensures
        r == unknown_from(s@, 0),
        r <= s@.len(),
{
    let mut i: usize = 0;
    while i < s.len() && s[i].slot >= 1 && s[i].slot <= PY_MOD_LAST_SLOT
        invariant
            i <= s@.len(),
            unknown_from(s@, 0) == unknown_from(s@, i as int),
        decreases s.len() - i,
    {
        i = i + 1;
    }
    i
}

fn count_slots(s: &Vec<PyModuleDef_Slot>, id: i32) -> (r: usize)
    ensures
        r == slot_uses(s@, id, s@.len() as int),
{
    let mut i: usize = 0;
    let mut c: usize = 0;
    while i < s.len()
        invariant
            i <= s@.len(),
            c <= i,
            c == slot_uses(s@, id, i as int),
        decreases s.len() - i,
    {
        if s[i].slot == id {
            c = c + 1;
        }
        i = i + 1;
    }
    c
}

/// Start the initialisation of a multi-phase module.
pub fn run_multiphase_init(def: &PyModuleDef, full_name: &[char], gate: Option<bool>) -> (r:
    MultiphaseStep)
    requires
        slots_wf(def),
    ensures
        r@ == first_step(def, full_name@, gate),
{
    let s: Vec<PyModuleDef_Slot> = slots_of(def);
    if def.m_size < 0 {
        return fail_with(
            ExcKind::SystemError,
            named_message(
                "module ",
                full_name,
                ": m_size may not be negative for multi-phase initialization",
            ),
            false,
            false,
        );
    }
    let bad: usize = find_unknown(&s);
    if bad < s.len() {
        let mut m: Vec<char> = named_message("module ", full_name, " uses unknown slot ID ");
        push_dec(&mut m, s[bad].slot as i128);
        return fail_with(ExcKind::SystemError, m, false, false);
    }
    if count_slots(&s, PY_MOD_CREATE) > 1 {
        return fail_with(
            ExcKind::SystemError,
            named_message("module ", full_name, " has multiple create slots"),
            false,
            false,
        );
    }
    if count_slots(&s, PY_MOD_MULTIPLE_INTERPRETERS) > 1 {
        return fail_with(
            ExcKind::SystemError,
            named_message(
                "module ",
                full_name,
                " has more than one 'multiple interpreters' slots",
            ),
            false,
            false,
        );
    }
    let at: usize = find_slot(&s, PY_MOD_MULTIPLE_INTERPRETERS);
    let support: usize = if at < s.len() {
        s[at].value
    } else {
        1
    };
    let incompatible: bool = match gate {
        None => false,
        Some(own_gil) => support == 0 || (support == 1 && own_gil),
    };
    if incompatible {
        return fail_with(
            ExcKind::ImportError,
            named_message("module ", full_name, " does not support loading in subinterpreters"),
            false,
            false,
        );
    }
    let create: usize = find_slot(&s, PY_MOD_CREATE);
    if create < s.len() {
        MultiphaseStep::Create(s[create].value)
    } else {
        MultiphaseStep::CreateDefault
    }
}

/// The last dot at or below `i`.
pub open spec fn last_dot(s: Seq<char>, i: int) -> int
    decreases i + 1,
{
    if i < 0 || i >= s.len() || s[i] == '.' {
        i
    } else {
        last_dot(s, i - 1)
    }
}

/// The package of a dotted module name: what is before the last dot.
pub open spec fn package_of(name: Seq<char>) -> Seq<char> {
    let i = last_dot(name, name.len() - 1);
    if i < 0 {
        Seq::empty()
    } else {
        name.subrange(0, i)
    }
}

/// The bare name at the end of a dotted name.
pub open spec fn bare_name(name: Seq<char>) -> Seq<char> {
    name.subrange(last_dot(name, name.len() - 1) + 1, name.len() as int)
}

fn find_last_dot(s: &[char]) -> (r: Option<usize>)
    ensures
        match r {
            Some(i) => i < s@.len() && i == last_dot(s@, s@.len() - 1),
            None => last_dot(s@, s@.len() - 1) == -1,
        },
{
    let mut i: usize = s.len();
    while i > 0
        invariant
            i <= s@.len(),
            last_dot(s@, s@.len() - 1) == last_dot(s@, i - 1),
        decreases i,
    {
        if s[i - 1] == '.' {
            return Some(i - 1);
        }
        i = i - 1;
    }
    None
}

/// The package of a dotted module name.
pub fn module_package(name: &[char]) -> (r: Vec<char>)
    ensures
        r@ == package_of(name@),
{
    match find_last_dot(name) {
        Some(i) => slice_of(name, 0, i),
        None => Vec::new(),
    }
}

/// What follows the creation of the module object.
pub open spec fn created_step(
    d: &PyModuleDef,
    name: Seq<char>,
    null: bool,
    pending: bool,
    is_module: bool,
) -> StepView {
    if null {
        StepView::Fail(
            FailView {
                raised: if pending {
                    None
                } else {
                    Some(
                        (
                            ExcKind::SystemError,
                            "creation of module "@ + name
                                + " failed without setting an exception"@,
                        ),
                    )
                },
                from_cause: false,
                release: false,
                message: "creation of module "@ + name + " failed"@,
            },
        )
    } else if pending {
        fails_with(
            ExcKind::SystemError,
            "creation of module "@ + name + " raised unreported exception"@,
            true,
            true,
        )
    } else if !is_module {
        if exec_values(slots(d), slots(d).len() as int).len() > 0 {
            fails_with(
                ExcKind::SystemError,
                "module "@ + name + " specifies execution slots, but did not create a module"@,
                false,
                true,
            )
        } else {
            StepView::Attach
        }
    } else {
        StepView::Prepare(
            if d.m_size > 0 {
                Some(d.m_size as usize)
            } else {
                None
            },
            name,
            package_of(name),
        )
    }
}

fn exec_slots(s: &Vec<PyModuleDef_Slot>) -> (r: Vec<usize>)
    ensures
        r@ == exec_values(s@, s@.len() as int),
{
    let mut out: Vec<usize> = Vec::new();
    let mut i: usize = 0;
    while i < s.len()
        invariant
            i <= s@.len(),
            out@ == exec_values(s@, i as int),
        decreases s.len() - i,
    {
        if s[i].slot == PY_MOD_EXEC {
            out.push(s[i].value);
        }
        i = i + 1;
    }
    out
}

/// Go on after the module object was created (`null` where it was not).
/// `pending` tells whether an exception is set.
pub fn multiphase_created(
    def: &PyModuleDef,
    full_name: &[char],
    null: bool,
    pending: bool,
    is_module: bool,
) -> (r: MultiphaseStep)
    requires
        slots_wf(def),
    ensures
        r@ == created_step(def, full_name@, null, pending, is_module),
{
    if null {
        let raised: Option<PyError> = if pending {
            None
        } else {
            Some(
                PyError {
                    kind: ExcKind::SystemError,
                    msg: named_message(
                        "creation of module ",
                        full_name,
                        " failed without setting an exception",
                    ),
                },
            )
        };
        return MultiphaseStep::Fail(
            MultiphaseFailure {
                raised,
                from_cause: false,
                release: false,
                message: named_message("creation of module ", full_name, " failed"),
            },
        );
    }
    if pending {
        return fail_with(
            ExcKind::SystemError,
            named_message("creation of module ", full_name, " raised unreported exception"),
            true,
            true,
        );
    }
    if !is_module {
        let s: Vec<PyModuleDef_Slot> = slots_of(def);
        if exec_slots(&s).len() > 0 {
            return fail_with(
                ExcKind::SystemError,
                named_message(
                    "module ",
                    full_name,
                    " specifies execution slots, but did not create a module",
                ),
                false,
                true,
            );
        }
        return MultiphaseStep::Attach;
    }
    let state: Option<usize> = if def.m_size > 0 {
        Some(def.m_size as usize)
    } else {
        None
    };
    let own: Vec<char> = slice_of(full_name, 0, full_name.len());
    assert(own@ =~= full_name@);
    MultiphaseStep::Prepare { state, name: own, package: module_package(full_name) }
}

/// The execution slot to run after `done` of them, or the end.
pub fn multiphase_next(def: &PyModuleDef, done: usize) -> (r: MultiphaseStep)
    requires
        slots_wf(def),
    ensures
        ({
            let v = exec_values(slots(def), slots(def).len() as int);
            r@ == (if done < v.len() {
                StepView::Exec(v[done as int])
            } else {
                StepView::Done
            })
        }),
{
    let s: Vec<PyModuleDef_Slot> = slots_of(def);
    let v: Vec<usize> = exec_slots(&s);
    if done < v.len() {
        MultiphaseStep::Exec(v[done])
    } else {
        MultiphaseStep::Done
    }
}

/// What an execution slot's result comes to: `None` goes on, a failure ends
/// the initialisation. `pending` describes the pending exception.
pub open spec fn executed_failure(
    name: Seq<char>,
    rc: i32,
    pending: Option<Seq<char>>,
) -> Option<FailView> {
    let silent = "execution of module "@ + name + " failed without setting an exception"@;
    let unreported = "execution of module "@ + name + " raised unreported exception"@;
    if rc != 0 {
        Some(
            match pending {
                Some(d) => FailView {
                    raised: None,
                    from_cause: false,
                    release: true,
                    message: d,
                },
                None => FailView {
                    raised: Some((ExcKind::SystemError, silent)),
                    from_cause: false,
                    release: true,
                    message: silent,
                },
            },
        )
    } else if pending is Some {
        Some(
            FailView {
                raised: Some((ExcKind::SystemError, unreported)),
                from_cause: true,
                release: true,
                message: unreported,
            },
        )
    } else {
        None
    }
}

/// Judge the result of an execution slot.
pub fn multiphase_executed(full_name: &[char], rc: i32, pending: Option<&[char]>) -> (r: Option<
    MultiphaseFailure,
>)
    ensures
        match executed_failure(
            full_name@,
            rc,
            match pending {
                Some(d) => Some(d@),
                None => None,
            },
        ) {
            Some(f) => r is Some && r->0@ == f,
            None => r is None,
        },
{
    if rc != 0 {
        return Some(
            match pending {
                Some(d) => {
                    let message: Vec<char> = slice_of(d, 0, d.len());
                    assert(message@ =~= d@);
                    MultiphaseFailure { raised: None, from_cause: false, release: true, message }
                },
                None => {
                    let m: Vec<char> = named_message(
                        "execution of module ",
                        full_name,
                        " failed without setting an exception",
                    );
                    let message: Vec<char> = copy_text(&m);
                    MultiphaseFailure {
                        raised: Some(PyError { kind: ExcKind::SystemError, msg: m }),
                        from_cause: false,
                        release: true,
                        message,
                    }
                },
            },
        );
    }
    match pending {
        Some(_) => {
            let m: Vec<char> = named_message(
                "execution of module ",
                full_name,
                " raised unreported exception",
            );
            let message: Vec<char> = copy_text(&m);
            Some(
                MultiphaseFailure {
                    raised: Some(PyError { kind: ExcKind::SystemError, msg: m }),
                    from_cause: true,
                    release: true,
                    message,
                },
            )
        },
        None => None,
    }
}

/// Every row of a table of methods before its end is a method of the module under its own
/// name, and the module has no other methods. It is called what the definition says, and
/// its documentation is that of the definition.
pub proof fn law_created_module(d: &PyModuleDef, i: int)
    requires
        methods_wf(d),
    ensures
        ({
            let e = head_entries(d) + def_methods(d);
            &&& e[0] == ("__name__"@, ModuleValueView::Text(
                if d.m_name is Some {
                    d.m_name->0@
                } else {
                    Seq::empty()
                },
            ))
            &&& d.m_doc matches Some(t) ==> e.contains(("__doc__"@, ModuleValueView::Text(t@)))
            &&& d.m_doc is None ==> e[1] == ("__package__"@, ModuleValueView::Text(""@))
            &&& d.m_methods matches Some(m) ==> 0 <= i < m@.len() && (forall|k: int|
                0 <= k <= i ==> (#[trigger] m@[k]).ml_name is Some) ==> e.contains(
                (m@[i].ml_name->0@, ModuleValueView::Method(i)),
            )
            &&& d.m_methods matches Some(m) ==> 0 <= i < e.len() && e[i].1 is Method ==> {
                let k = e[i].1->Method_0;
                0 <= k < m@.len() && m@[k].ml_name is Some && e[i].0 == m@[k].ml_name->0@
            }
            &&& d.m_methods is None && 0 <= i < e.len() ==> !(e[i].1 is Method)
        }),
{
    let e = head_entries(d) + def_methods(d);
    let n = head_entries(d).len() as int;
    if let Some(t) = d.m_doc {
        assert(e[1] == ("__doc__"@, ModuleValueView::Text(t@)));
    }
    if let Some(m) = d.m_methods {
        lemma_table_rows(m@, 0);
        if 0 <= i < m@.len() && (forall|k: int| 0 <= k <= i ==> (#[trigger] m@[k]).ml_name is Some) {
            assert(i < table_end(m@, 0));
            assert(e[n + i] == (m@[i].ml_name->0@, ModuleValueView::Method(i)));
        }
        if n <= i < e.len() {
            assert(e[i] == def_methods(d)[i - n]);
        }
    }
}

proof fn lemma_table_rows(defs: Seq<PyMethodDef>, i: int)
    requires
        0 <= i <= defs.len(),
    ensures
        i <= table_end(defs, i) <= defs.len(),
        forall|k: int| i <= k < table_end(defs, i) ==> (#[trigger] defs[k]).ml_name is Some,
        table_end(defs, i) < defs.len() ==> defs[table_end(defs, i)].ml_name is None,
    decreases defs.len() - i,
{
    if i < defs.len() && defs[i].ml_name is Some {
        lemma_table_rows(defs, i + 1);
    }
}

proof fn lemma_slot_rows(s: Seq<PyModuleDef_Slot>, i: int)
    requires
        0 <= i <= s.len(),
    ensures
        i <= slots_end(s, i) <= s.len(),
        forall|k: int| i <= k < slots_end(s, i) ==> (#[trigger] s[k]).slot != 0,
        slots_end(s, i) < s.len() ==> s[slots_end(s, i)].slot == 0,
    decreases s.len() - i,
{
    if i < s.len() && s[i].slot != 0 {
        lemma_slot_rows(s, i + 1);
    }
}

/// The slots of a definition are those before the first empty one, each in its place.
pub proof fn law_slots(d: &PyModuleDef)
    requires
        slots_wf(d),
    ensures
        d.m_slots is None ==> slots(d).len() == 0,
        d.m_slots matches Some(s) ==> {
            &&& slots(d).len() < s@.len()
            &&& s@[slots(d).len() as int].slot == 0
            &&& forall|k: int|
                0 <= k < slots(d).len() ==> #[trigger] slots(d)[k] == s@[k] && s@[k].slot != 0
        },
{
    if let Some(s) = d.m_slots {
        lemma_slot_rows(s@, 0);
    }
}

proof fn lemma_slot_from(s: Seq<PyModuleDef_Slot>, id: i32, i: int)
    requires
        0 <= i <= s.len(),
    ensures
        i <= slot_from(s, id, i) <= s.len(),
        slot_from(s, id, i) < s.len() ==> s[slot_from(s, id, i)].slot == id,
        forall|k: int| i <= k < slot_from(s, id, i) ==> (#[trigger] s[k]).slot != id,
    decreases s.len() - i,
{
    if i < s.len() && s[i].slot != id {
        lemma_slot_from(s, id, i + 1);
    }
}

proof fn lemma_unknown_from(s: Seq<PyModuleDef_Slot>, i: int)
    requires
        0 <= i <= s.len(),
    ensures
        i <= unknown_from(s, i) <= s.len(),
        unknown_from(s, i) < s.len() ==> !(1 <= s[unknown_from(s, i)].slot <= 4),
        forall|k: int| i <= k < unknown_from(s, i) ==> 1 <= (#[trigger] s[k]).slot <= 4,
    decreases s.len() - i,
{
    if i < s.len() && 1 <= s[i].slot <= 4 {
        lemma_unknown_from(s, i + 1);
    }
}

proof fn lemma_slot_uses(s: Seq<PyModuleDef_Slot>, id: i32, n: int)
    requires
        0 <= n <= s.len(),
    ensures
        slot_uses(s, id, n) >= 0,
        slot_uses(s, id, n) == 0 <==> forall|k: int| 0 <= k < n ==> (#[trigger] s[k]).slot != id,
        slot_uses(s, id, n) > 1 <==> exists|a: int, b: int|
            0 <= a < b < n && (#[trigger] s[a]).slot == id && (#[trigger] s[b]).slot == id,
    decreases n,
{
    if n > 0 {
        lemma_slot_uses(s, id, n - 1);
        if s[n - 1].slot == id {
            if slot_uses(s, id, n - 1) > 0 {
                let a = choose|a: int| 0 <= a < n - 1 && (#[trigger] s[a]).slot == id;
                assert(s[a].slot == id && s[n - 1].slot == id);
            }
        }
        if slot_uses(s, id, n - 1) > 1 {
            let (a, b) = choose|a: int, b: int|
                0 <= a < b < n - 1 && (#[trigger] s[a]).slot == id && (#[trigger] s[b]).slot == id;
            assert(s[a].slot == id && s[b].slot == id);
        }
    }
}

/// A definition can be loaded in phases: no negative size, only known slots, at most one
/// that creates and one that speaks of interpreters, and the interpreter admits it.
pub open spec fn loadable(d: &PyModuleDef, gate: Option<bool>) -> bool {
    let s = slots(d);
    &&& d.m_size >= 0
    &&& forall|i: int| 0 <= i < s.len() ==> 1 <= (#[trigger] s[i]).slot <= 4
    &&& forall|i: int, j: int|
        0 <= i < j < s.len() && (#[trigger] s[i]).slot == (#[trigger] s[j]).slot ==> s[i].slot != 1
            && s[i].slot != 3
    &&& gate is Some ==> forall|i: int|
        0 <= i < s.len() && (#[trigger] s[i]).slot == 3 ==> s[i].value != 0
    &&& gate == Some(true) ==> exists|i: int|
        0 <= i < s.len() && (#[trigger] s[i]).slot == 3 && s[i].value >= 2
}

/// Loading starts if and only if the definition can be loaded. It starts with the slot
/// that creates the module, where there is one, and else with what creates modules by
/// default.
pub proof fn law_loading_starts(d: &PyModuleDef, name: Seq<char>, gate: Option<bool>)
    ensures
        ({
            let s = slots(d);
            let step = first_step(d, name, gate);
            &&& step is Fail <==> !loadable(d, gate)
            &&& !(step is Fail) && !(step is CreateDefault) ==> step is Create && exists|i: int|
                0 <= i < s.len() && (#[trigger] s[i]).slot == 1 && s[i].value == step->Create_0
            &&& step is CreateDefault ==> forall|i: int|
                0 <= i < s.len() ==> (#[trigger] s[i]).slot != 1
        }),
{
    let s = slots(d);
    let n = s.len() as int;
    lemma_unknown_from(s, 0);
    lemma_slot_from(s, PY_MOD_CREATE, 0);
    lemma_slot_from(s, PY_MOD_MULTIPLE_INTERPRETERS, 0);
    lemma_slot_uses(s, PY_MOD_CREATE, n);
    lemma_slot_uses(s, PY_MOD_MULTIPLE_INTERPRETERS, n);
    let at = slot_from(s, PY_MOD_MULTIPLE_INTERPRETERS, 0);
    let step = first_step(d, name, gate);
    if unknown_from(s, 0) < n {
        assert(!(1 <= s[unknown_from(s, 0)].slot <= 4));
    }
    if step is Fail && loadable(d, gate) {
        assert(d.m_size >= 0);
        assert(unknown_from(s, 0) >= n);
        assert(slot_uses(s, PY_MOD_CREATE, n) <= 1);
        assert(slot_uses(s, PY_MOD_MULTIPLE_INTERPRETERS, n) <= 1);
        assert(gated(multi_support(s), gate));
        if gate == Some(true) {
            let i = choose|i: int| 0 <= i < s.len() && (#[trigger] s[i]).slot == 3 && s[i].value >= 2;
            assert(at <= i);
            if at < i {
                assert(s[at].slot == s[i].slot);
            }
        }
        assert(false);
    }
    if !(step is Fail) {
        assert forall|i: int, j: int|
            0 <= i < j < s.len() && (#[trigger] s[i]).slot == (#[trigger] s[j]).slot implies
            s[i].slot != 1 && s[i].slot != 3 by {}
        if gate is Some {
            assert forall|i: int| 0 <= i < s.len() && (#[trigger] s[i]).slot == 3 implies
                s[i].value != 0 by {
                if at < i {
                    assert(s[at].slot == s[i].slot);
                }
            }
        }
        if gate == Some(true) {
            assert(at < n && s[at].slot == 3 && s[at].value >= 2);
        }
    }
}

/// An execution slot went well if and only if it returned zero and set no exception. What
/// it raised is what is reported, and the module is released where it failed.
pub proof fn law_execution_outcome(name: Seq<char>, rc: i32, pending: Option<Seq<char>>)
    ensures
        executed_failure(name, rc, pending) is None <==> rc == 0 && pending is None,
        executed_failure(name, rc, pending) matches Some(f) ==> {
            &&& f.release
            &&& rc != 0 && pending is Some ==> f.raised is None && f.message == pending->0
            &&& rc != 0 && pending is None ==> f.raised is Some && !f.from_cause
            &&& rc == 0 ==> f.raised is Some && f.from_cause
            &&& f.raised matches Some(e) ==> e.0 is SystemError && e.1 == f.message
        },
{
}

/// What was created is used if and only if it is there and no exception is set. What is
/// no module must not ask for execution, and what is given up is released.
pub proof fn law_creation_outcome(
    d: &PyModuleDef,
    name: Seq<char>,
    null: bool,
    pending: bool,
    is_module: bool,
)
    requires
        slots_wf(d),
    ensures
        ({
            let step = created_step(d, name, null, pending, is_module);
            &&& step is Prepare <==> !null && !pending && is_module
            &&& step is Attach <==> !null && !pending && !is_module && forall|i: int|
                0 <= i < slots(d).len() ==> (#[trigger] slots(d)[i]).slot != 2
            &&& step is Prepare || step is Attach || step is Fail
            &&& step is Fail ==> step->Fail_0.release == !null
            &&& null && pending ==> step->Fail_0.raised is None
            &&& step is Fail && !(null && pending) ==> step->Fail_0.raised is Some
        }),
{
    lemma_exec_values(slots(d), slots(d).len() as int);
}

proof fn lemma_exec_values(s: Seq<PyModuleDef_Slot>, n: int)
    requires
        0 <= n <= s.len(),
    ensures
        exec_values(s, n).len() == 0 <==> forall|i: int|
            0 <= i < n ==> (#[trigger] s[i]).slot != 2,
    decreases n,
{
    if n > 0 {
        lemma_exec_values(s, n - 1);
        if s[n - 1].slot == 2 {
            assert(exec_values(s, n).len() > 0);
        }
    }
}

/// A C function is called as its flags say: without arguments (4), with one (8), with an
/// array (128) or with a tuple, the latter two with keywords where it takes them (2). The
/// wrong number of arguments is refused, and nothing else.
pub proof fn law_calling_convention(func: usize, name: Seq<char>, flags: i32, nargs: int)
    requires
        func != 0,
    ensures
        ({
            let r = function_shape(func, name, flags, nargs);
            &&& flags & 4 != 0 && nargs == 0 ==> r == Ok::<CallShape, Seq<char>>(CallShape::NoArgs)
            &&& flags & 4 == 0 && flags & 8 != 0 && nargs == 1 ==> r == Ok::<CallShape, Seq<char>>(
                CallShape::One,
            )
            &&& flags & 4 == 0 && flags & 8 == 0 && flags & 128 != 0 ==> r == Ok::<
                CallShape,
                Seq<char>,
            >(CallShape::Fastcall(flags & 2 != 0))
            &&& flags & 4 == 0 && flags & 8 == 0 && flags & 128 == 0 ==> r == Ok::<
                CallShape,
                Seq<char>,
            >(CallShape::Tuple(flags & 2 != 0))
            &&& r is Err <==> (flags & 4 != 0 && nargs != 0) || (flags & 4 == 0 && flags & 8 != 0
                && nargs != 1)
        }),
{
}

/// A method is called as a function is, without its receiver, or with its class (512).
pub proof fn law_method_convention(
    func: usize,
    name: Seq<char>,
    flags: i32,
    nargs: int,
    class: usize,
)
    requires
        func != 0,
        nargs > 0,
    ensures
        ({
            let r = method_shape(func, name, flags, nargs, class);
            let by_class = flags & 4 == 0 && flags & 8 == 0 && flags & 512 != 0;
            &&& !by_class ==> r == function_shape(func, name, flags, nargs - 1)
            &&& by_class && class != 0 ==> r == Ok::<CallShape, Seq<char>>(CallShape::Method(class))
            &&& by_class && class == 0 ==> r is Err
        }),
        method_shape(0, name, flags, nargs, class) is Err,
        method_shape(func, name, flags, 0, class) is Err,
        function_shape(0, name, flags, nargs) is Err,
{
}

/// One link more of a chain of causes adds what it says at the end.
pub proof fn law_chain_grows(links: Seq<(Vec<char>, Vec<char>)>, n: int)
    requires
        0 <= n < links.len(),
    ensures
        chain_text(links, 0).len() == 0,
        chain_text(links, n + 1).take(chain_text(links, n).len() as int) == chain_text(links, n),
        ({
            let t = chain_text(links, n + 1);
            let at = t.len() - links[n].1@.len();
            &&& at >= chain_text(links, n).len() + links[n].0@.len() + 2
            &&& t.subrange(at, t.len() as int) == links[n].1@
            &&& t.subrange(at - 2 - links[n].0@.len(), at - 2) == links[n].0@
        }),
{
    reveal_strlit(": ");
    let t = chain_text(links, n + 1);
    let at = t.len() - links[n].1@.len();
    assert(t.subrange(at, t.len() as int) =~= links[n].1@);
    assert(t.subrange(at - 2 - links[n].0@.len(), at - 2) =~= links[n].0@);
    assert(chain_text(links, n + 1).take(chain_text(links, n).len() as int) =~= chain_text(
        links,
        n,
    ));
}

/// The package of a submodule is the name of the package that it is in, whatever that is
/// called, and the bare name is what comes behind it. A name without a dot has no
/// package and is its own bare name.
pub proof fn law_package(package: Seq<char>, own: Seq<char>)
    requires
        !own.contains('.'),
    ensures
        package_of(package + seq!['.'] + own) == package,
        bare_name(package + seq!['.'] + own) == own,
        package_of(own) == Seq::<char>::empty(),
        bare_name(own) == own,
{
    let name = package + seq!['.'] + own;
    let dot = package.len() as int;
    assert(name[dot] == '.');
    assert forall|k: int| dot < k < name.len() implies name[k] != '.' by {
        assert(name[k] == own[k - dot - 1]);
    }
    lemma_last_dot(name, name.len() - 1, dot);
    assert(name.subrange(0, dot) =~= package);
    assert(name.subrange(dot + 1, name.len() as int) =~= own);
    lemma_last_dot(own, own.len() - 1, -1);
    assert(own.subrange(0, own.len() as int) =~= own);
}

proof fn lemma_last_dot(s: Seq<char>, i: int, at: int)
    requires
        -1 <= at <= i < s.len(),
        at >= 0 ==> s[at] == '.',
        forall|k: int| at < k <= i ==> s[k] != '.',
    ensures
        last_dot(s, i) == at,
    decreases i - at,
{
    if at < i {
        lemma_last_dot(s, i - 1, at);
    }
}

/// A module that its create slot made is prepared under its full name, and under the
/// package that the name says.
pub proof fn law_prepared_names(d: &PyModuleDef, package: Seq<char>, own: Seq<char>)
    requires
        !own.contains('.'),
    ensures
        ({
            let name = package + seq!['.'] + own;
            let step = created_step(d, name, false, false, true);
            step is Prepare && step->Prepare_1 == name && step->Prepare_2 == package
        }),
        created_step(d, own, false, false, true)->Prepare_1 == own,
        created_step(d, own, false, false, true)->Prepare_2 == Seq::<char>::empty(),
        (created_step(d, own, false, false, true)->Prepare_0 is Some) == (d.m_size > 0),
        d.m_size > 0 ==> created_step(d, own, false, false, true)->Prepare_0 == Some(
            d.m_size as usize,
        ),
{
    law_package(package, own);
}

/// Every execution slot runs exactly once, in the order of the definition: the
/// slot chosen after `k` others is the one with exactly `k` execution slots
/// before it.
pub proof fn law_exec_slots_run_in_order(s: Seq<PyModuleDef_Slot>, i: int)
    requires
        0 <= i < s.len(),
        s[i].slot == PY_MOD_EXEC,
    ensures
        ({
            let k = exec_values(s, i).len() as int;
            let all = exec_values(s, s.len() as int);
            k < all.len() && all[k] == s[i].value
        }),
{
    lemma_exec_prefix(s, i + 1, s.len() as int);
}

proof fn lemma_exec_prefix(s: Seq<PyModuleDef_Slot>, a: int, b: int)
    requires
        0 <= a <= b <= s.len(),
    ensures
        exec_values(s, a).len() <= exec_values(s, b).len(),
        forall|k: int|
            0 <= k < exec_values(s, a).len() ==> exec_values(s, a)[k] == exec_values(s, b)[k],
    decreases b - a,
{
    if a < b {
        lemma_exec_prefix(s, a, b - 1);
    }
}

/// The links of an exception's chain that are shown, at most eight.
pub open spec fn chain_text(links: Seq<(Vec<char>, Vec<char>)>, n: int) -> Seq<char>
    decreases n,
{
    if n <= 0 {
        Seq::empty()
    } else {
        chain_text(links, n - 1) + "; caused by "@ + links[n - 1].0@ + ": "@ + links[n - 1].1@
    }
}

/// Which of an exception's two links is followed: the cause unless it is
/// absent or `None`, else the context unless that is.
pub fn next_link(cause_present: bool, context_present: bool) -> (r: Option<bool>)
    ensures
        r == (if cause_present {
            Some(true)
        } else if context_present {
            Some(false)
        } else {
            None
        }),
{
    if cause_present {
        Some(true)
    } else if context_present {
        Some(false)
    } else {
        None
    }
}

/// Render the chain of causes, given as type names and texts, for an error
/// message. At most eight links are shown.
pub fn cause_chain_suffix(links: &Vec<(Vec<char>, Vec<char>)>) -> (r: Vec<char>)
    ensures
        r@ == chain_text(
            links@,
            if links@.len() < 8 {
                links@.len() as int
            } else {
                8
            },
        ),
{
    let mut out: Vec<char> = Vec::new();
    let mut i: usize = 0;
    while i < links.len() && i < 8
        invariant
            i <= links@.len(),
            i <= 8,
            out@ == chain_text(links@, i as int),
        decreases links.len() - i,
    {
        push_str(&mut out, "; caused by ");
        push_all(&mut out, links[i].0.as_slice());
        push_str(&mut out, ": ");
        push_all(&mut out, links[i].1.as_slice());
        i = i + 1;
    }
    out
}

/// What setting a module's names after its creation stores.
#[derive(Debug)]
pub struct ModuleNames {
    pub name: Vec<char>,
    pub package: Vec<char>,
}

/// How the first phase alone creates a module.
#[derive(Debug, PartialEq, Eq, Structural)]
pub enum CreateBy {
    Slot(usize),
    Default,
}

/// The first phase alone: how the module is created.
pub fn PyModule_FromDefAndSpec2(def: Option<&PyModuleDef>) -> (r: Result<CreateBy, Failure>)
    requires
        def matches Some(d) ==> slots_wf(d),
    ensures
        match def {
            None => errors::raises(
                r,
                ExcKind::RuntimeError,
                "PyModule_FromDefAndSpec2 with null def"@,
            ),
            Some(d) => r is Ok && ({
                let i = slot_from(slots(d), PY_MOD_CREATE, 0);
                r->Ok_0 == (if i < slots(d).len() {
                    CreateBy::Slot(slots(d)[i].value)
                } else {
                    CreateBy::Default
                })
            }),
        },
{
    match def {
        None => Err(raise_str(ExcKind::RuntimeError, "PyModule_FromDefAndSpec2 with null def")),
        Some(d) => {
            let s: Vec<PyModuleDef_Slot> = slots_of(d);
            let i: usize = find_slot(&s, PY_MOD_CREATE);
            if i < s.len() {
                Ok(CreateBy::Slot(s[i].value))
            } else {
                Ok(CreateBy::Default)
            }
        },
    }
}

/// The names that a module gets from its spec; none for an object that is no
/// module or a spec without a name.
pub fn spec_names(full_name: &[char], is_module: bool) -> (r: Option<ModuleNames>)
    ensures
        full_name@.len() == 0 || !is_module ==> r is None,
        full_name@.len() > 0 && is_module ==> r is Some && r->0.name@ == full_name@
            && r->0.package@ == package_of(full_name@),
{
    if full_name.len() == 0 || !is_module {
        return None;
    }
    let name: Vec<char> = slice_of(full_name, 0, full_name.len());
    assert(name@ =~= full_name@);
    Some(ModuleNames { name, package: module_package(full_name) })
}

/// The second phase alone: the execution slot to run after `done` of them
/// succeeded, `None` at the end.
pub fn PyModule_ExecDef(module_null: bool, def: Option<&PyModuleDef>, done: usize) -> (r: Result<
    Option<usize>,
    Failure,
>)
    requires
        def matches Some(d) ==> slots_wf(d),
    ensures
        if module_null || def is None {
            errors::raises(r, ExcKind::RuntimeError, "PyModule_ExecDef with null argument"@)
        } else {
            let v = exec_values(slots(def->0), slots(def->0).len() as int);
            r is Ok && r->Ok_0 == (if done < v.len() {
                Some(v[done as int])
            } else {
                None
            })
        },
{
    match def {
        Some(d) => {
            if module_null {
                return Err(raise_str(ExcKind::RuntimeError, "PyModule_ExecDef with null argument"));
            }
            let s: Vec<PyModuleDef_Slot> = slots_of(d);
            let v: Vec<usize> = exec_slots(&s);
            if done < v.len() {
                Ok(Some(v[done]))
            } else {
                Ok(None)
            }
        },
        None => Err(raise_str(ExcKind::RuntimeError, "PyModule_ExecDef with null argument")),
    }
}

// ---------------------------------------------------------------------------
// Adding to a module
// ---------------------------------------------------------------------------

/// What adding a value to a module does.
#[derive(Debug)]
pub struct AddOutcome {
    pub result: Result<(), Failure>,
    /// The dict entry is written, and the value's box is retained with it.
    pub inserted: bool,
    /// How the call changes the caller's references to the value.
    pub refs: i32,
}

/// Add a value to a module's dict, stealing the reference on success.
pub fn PyModule_AddObject(
    m_null: bool,
    name_null: bool,
    value_null: bool,
    is_module: bool,
) -> (r: AddOutcome)
    ensures
        if m_null || name_null || value_null {
            errors::silent(r.result) && !r.inserted && r.refs == 0
        } else if !is_module {
            errors::raises(r.result, ExcKind::TypeError, "PyModule_AddObject: not a module"@)
                && !r.inserted && r.refs == 0
        } else {
            r.result is Ok && r.inserted && r.refs == -1
        },
{
    if m_null || name_null || value_null {
        return AddOutcome { result: Err(Failure::Silent), inserted: false, refs: 0 };
    }
    if !is_module {
        return AddOutcome {
            result: Err(raise_str(ExcKind::TypeError, "PyModule_AddObject: not a module")),
            inserted: false,
            refs: 0,
        };
    }
    AddOutcome { result: Ok(()), inserted: true, refs: -1 }
}

/// Add a value to a module's dict without stealing the reference.
pub fn PyModule_AddObjectRef(
    m_null: bool,
    name_null: bool,
    value_null: bool,
    is_module: bool,
) -> (r: AddOutcome)
    ensures
        r.refs == 0,
        r.inserted == r.result is Ok,
        if m_null || name_null || value_null {
            errors::silent(r.result)
        } else if !is_module {
            errors::raises(r.result, ExcKind::TypeError, "PyModule_AddObject: not a module"@)
        } else {
            r.result is Ok
        },
{
    let a = PyModule_AddObject(m_null, name_null, value_null, is_module);
    AddOutcome { result: a.result, inserted: a.inserted, refs: 0 }
}

/// Add a value to a module's dict, stealing the reference even on failure.
pub fn PyModule_Add(
    m_null: bool,
    name_null: bool,
    value_null: bool,
    is_module: bool,
) -> (r: AddOutcome)
    ensures
        r.refs == (if value_null {
            0i32
        } else {
            -1i32
        }),
        r.inserted == r.result is Ok,
        if m_null || name_null || value_null {
            errors::silent(r.result)
        } else if !is_module {
            errors::raises(r.result, ExcKind::TypeError, "PyModule_AddObject: not a module"@)
        } else {
            r.result is Ok
        },
{
    let a = PyModule_AddObjectRef(m_null, name_null, value_null, is_module);
    AddOutcome {
        result: a.result,
        inserted: a.inserted,
        refs: if value_null {
            0
        } else {
            -1
        },
    }
}

/// The name under which a type is added to a module: what follows the last dot
/// of its name.
pub fn PyModule_AddType(tp_name: Option<&[char]>) -> (r: Vec<char>)
    ensures
        r@ == (match tp_name {
            Some(n) => bare_name(n@),
            None => "<anonymous>"@,
        }),
{
    match tp_name {
        Some(n) => {
            let end: usize = n.len();
            match find_last_dot(n) {
                Some(i) => slice_of(n, i + 1, end),
                None => slice_of(n, 0, end),
            }
        },
        None => text::text("<anonymous>"),
    }
}

/// The name of a new module object, which must be a str. `ty_name` names the
/// type of anything else.
pub fn PyModule_NewObject(name: &Object, ty_name: &[char]) -> (r: Result<Vec<char>, Failure>)
    ensures
        match *name {
            Object::Str(s) => r is Ok && r->Ok_0@ == s@,
            _ => errors::raises(
                r,
                ExcKind::TypeError,
                "PyModule_NewObject: name must be a string, not "@ + ty_name@,
            ),
        },
{
    match name {
        Object::Str(s) => Ok(copy_text(s)),
        _ => {
            let mut m: Vec<char> = text::text("PyModule_NewObject: name must be a string, not ");
            push_all(&mut m, ty_name);
            Err(raise(ExcKind::TypeError, m))
        },
    }
}

// ---------------------------------------------------------------------------
// C functions with a receiver
// ---------------------------------------------------------------------------

/// The receiver and the method definition of callables made from C, by the
/// callable's identity. A zero receiver is none.
pub struct CFuncExtras {
    map: HashMap<usize, (usize, usize)>,
}

impl View for CFuncExtras {
    type V = Map<usize, (usize, usize)>;

    closed spec fn view(&self) -> Map<usize, (usize, usize)> {
        self.map@
    }
}

impl CFuncExtras {
    /// Nothing is recorded.
    pub fn new() -> (r: CFuncExtras)
        ensures
            r@ == Map::<usize, (usize, usize)>::empty(),
    {
        CFuncExtras { map: HashMap::new() }
    }
}

/// The receiver and method definition recorded for a callable.
pub fn cfunction_extra(extras: &CFuncExtras, key: usize) -> (r: Option<(usize, usize)>)
    ensures
        r == (if extras@.dom().contains(key) {
            Some(extras@[key])
        } else {
            None
        }),
{
    match extras.map.get(&key) {
        Some(p) => Some(*p),
        None => None,
    }
}

/// Make a callable from a method definition (`ml` is its address) and record
/// its receiver, which `None` and NULL leave unbound.
pub fn PyCFunction_NewEx(
    extras: &mut CFuncExtras,
    key: usize,
    ml: usize,
    entry: Option<&PyMethodDef>,
    receiver: usize,
    receiver_is_none: bool,
) -> (r: Result<BuiltinFn, Failure>)
    ensures
        match entry {
            None => errors::raises(
                r,
                ExcKind::TypeError,
                "PyCFunction_NewEx: method def is NULL"@,
            ) && final(extras)@ == old(extras)@,
            Some(e) => match e.ml_name {
                None => errors::raises(
                    r,
                    ExcKind::TypeError,
                    "PyCFunction_NewEx: method has no name"@,
                ) && final(extras)@ == old(extras)@,
                Some(n) => r is Ok && r->Ok_0.name@ == n@ && !r->Ok_0.binds_instance
                    && r->Ok_0.call_kw == flag_set(e.ml_flags, METH_KEYWORDS) && final(extras)@ == old(
                    extras,
                )@.insert(
                    key,
                    (
                        if receiver_is_none {
                            0
                        } else {
                            receiver
                        },
                        ml,
                    ),
                ),
            },
        },
{
    match entry {
        None => Err(raise_str(ExcKind::TypeError, "PyCFunction_NewEx: method def is NULL")),
        Some(e) => match &e.ml_name {
            None => Err(raise_str(ExcKind::TypeError, "PyCFunction_NewEx: method has no name")),
            Some(n) => {
                let recv: usize = if receiver_is_none {
                    0
                } else {
                    receiver
                };
                extras.map.insert(key, (recv, ml));
                Ok(wrap_c_function(n, e.ml_flags))
            },
        },
    }
}

/// A class method: it binds the class that it is read from to its callable.
#[derive(Debug)]
pub struct ClassMethodDescr {
    pub callable: BuiltinFn,
}

/// Make a class-method descriptor around the callable of a method.
pub fn PyDescr_NewClassMethod(method: Option<&PyMethodDef>) -> (r: Result<
    ClassMethodDescr,
    Failure,
>)
    ensures
        match method {
            None => errors::raises(
                r,
                ExcKind::TypeError,
                "PyDescr_NewClassMethod: method is NULL"@,
            ),
            Some(e) => match e.ml_name {
                None => errors::raises(
                    r,
                    ExcKind::TypeError,
                    "PyDescr_NewClassMethod: method has no name"@,
                ),
                Some(n) => r is Ok && r->Ok_0.callable.name@ == n@
                    && !r->Ok_0.callable.binds_instance && r->Ok_0.callable.call_kw == flag_set(
                    e.ml_flags,
                    METH_KEYWORDS,
                ),
            },
        },
{
    match method {
        None => Err(raise_str(ExcKind::TypeError, "PyDescr_NewClassMethod: method is NULL")),
        Some(e) => match &e.ml_name {
            None => Err(
                raise_str(ExcKind::TypeError, "PyDescr_NewClassMethod: method has no name"),
            ),
            Some(n) => Ok(ClassMethodDescr { callable: wrap_c_function(n, e.ml_flags) }),
        },
    }
}

} // verus!
