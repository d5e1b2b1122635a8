//! Modules, calls into C functions and keyword arguments.

use std::collections::HashMap;

use weavepy_capi::errors::{ExcKind, Failure};
use weavepy_capi::imports::{
    build_module_spec, install_runtime_error, main_module_dict, spec_args,
    Imported, ModuleCache, NamedModule, PyErr_SetImportError, PyImport_AddModule,
    PyImport_GetModule, PyImport_ImportModule, PyModule_AddFunctions, PyModule_AddStringConstant,
    PyModule_GetName, PyModule_GetNameObject, PyModule_New, Seen, VmError, _WeavePy_ApplyCause,
};
use weavepy_capi::modsupport_ext::{
    register_module_def, FoundModules, KwInput, KwName, ModuleDefs, PyArgParser,
    PyModule_GetDef, PyState_AddModule, PyState_RemoveModule, PyTime_Monotonic,
    PyType_GetModule, _PyArg_CheckPositional, _PyArg_UnpackKeywords,
};
use weavepy_capi::module::{
    bridge_invoke, bridge_invoke_method, bridge_result, call_fastcall, cause_chain_suffix,
    cfunction_extra, multiphase_next, run_multiphase_init, CFuncExtras, CallOutcome, CallShape,
    ModuleValue, MultiphaseStep, PyCFunction_NewEx, PyMethodDef, PyModuleDef, PyModuleDef_Base,
    PyModuleDef_Slot, PyModule_Add, PyModule_AddObject, PyModule_AddObjectRef, PyModule_AddType,
    PyModule_Create2, METH_FASTCALL, METH_KEYWORDS, METH_METHOD, METH_NOARGS, METH_O,
    METH_VARARGS, PY_MOD_CREATE, PY_MOD_EXEC,
};
use weavepy_capi::mypyc_tail::{
    PairItem, Pending, PyDict_MergeFromSeq2, PyErr_SetExcInfo, PyErr_SetHandledException,
    StopValue, _PyGen_FetchStopIterationValue,
};
use weavepy_capi::object::PyObject;
use weavepy_capi::value::{Native, Object};

fn t(s: &str) -> Vec<char> {
    s.chars().collect()
}

fn raised(f: Failure) -> (ExcKind, String) {
    match f {
        Failure::Raised(e) => (e.kind, e.msg.into_iter().collect()),
        Failure::Silent => panic!("nothing was raised"),
    }
}

fn method(name: Option<&str>, meth: usize, flags: i32) -> PyMethodDef {
    PyMethodDef { ml_name: name.map(t), ml_meth: meth, ml_flags: flags, ml_doc: None }
}

fn table() -> Option<Vec<PyMethodDef>> {
    Some(vec![
        method(Some("one"), 1, METH_NOARGS),
        method(Some("two"), 2, METH_O),
        method(None, 0, 0),
    ])
}

fn def(slots: Option<Vec<PyModuleDef_Slot>>, size: isize) -> PyModuleDef {
    PyModuleDef {
        m_base: PyModuleDef_Base {
            ob_base: PyObject { ob_refcnt: 1, ob_type: 0 },
            m_init: 0,
            m_index: 0,
            m_copy: 0,
        },
        m_name: Some(t("spam")),
        m_doc: Some(t("eggs")),
        m_size: size,
        m_methods: table(),
        m_slots: slots,
        m_traverse: 0,
        m_clear: 0,
        m_free: 0,
    }
}

fn slot(slot: i32, value: usize) -> PyModuleDef_Slot {
    PyModuleDef_Slot { slot, value }
}

#[test]
fn single_phase_module_has_its_methods() {
    let m = PyModule_Create2(Some(&def(None, 8))).unwrap();
    assert_eq!(m.name, t("spam"));
    let keys: Vec<String> = m.dict.iter().map(|p| p.0.iter().collect()).collect();
    assert_eq!(
        keys,
        vec!["__name__", "__doc__", "__package__", "__loader__", "__spec__", "one", "two"]
    );
    assert!(matches!(m.dict[6].1, ModuleValue::Method(1)));
    assert_eq!(m.state, Some(8));
    assert!(m.findable);
    assert_eq!(
        raised(PyModule_Create2(None).unwrap_err()).1,
        "PyModule_Create2 with null def"
    );
}

#[test]
fn multiphase_checks_the_slots_and_runs_them() {
    let d = def(Some(vec![slot(PY_MOD_CREATE, 0x10), slot(PY_MOD_EXEC, 0x20), slot(0, 0)]), 0);
    assert!(matches!(
        run_multiphase_init(&d, &t("pkg.spam"), None),
        MultiphaseStep::Create(0x10)
    ));
    assert!(matches!(multiphase_next(&d, 0), MultiphaseStep::Exec(0x20)));
    assert!(matches!(multiphase_next(&d, 1), MultiphaseStep::Done));

    let plain = def(Some(vec![slot(0, 0)]), 0);
    assert!(matches!(
        run_multiphase_init(&plain, &t("spam"), None),
        MultiphaseStep::CreateDefault
    ));

    let bad = def(Some(vec![slot(99, 1), slot(0, 0)]), 0);
    match run_multiphase_init(&bad, &t("spam"), None) {
        MultiphaseStep::Fail(f) => {
            let e = f.raised.unwrap();
            assert_eq!(e.kind, ExcKind::SystemError);
            assert_eq!(e.msg, t("module spam uses unknown slot ID 99"));
        }
        other => panic!("{other:?}"),
    }
    match run_multiphase_init(&def(Some(vec![slot(0, 0)]), -1), &t("spam"), None) {
        MultiphaseStep::Fail(f) => assert_eq!(
            f.raised.unwrap().msg,
            t("module spam: m_size may not be negative for multi-phase initialization")
        ),
        other => panic!("{other:?}"),
    }
}

#[test]
fn functions_are_called_by_their_flags() {
    let n = t("f");
    assert_eq!(bridge_invoke(1, &n, METH_NOARGS, 0).unwrap(), CallShape::NoArgs);
    assert_eq!(bridge_invoke(1, &n, METH_O, 1).unwrap(), CallShape::One);
    assert_eq!(
        bridge_invoke(1, &n, METH_FASTCALL | METH_KEYWORDS, 3).unwrap(),
        CallShape::Fastcall(true)
    );
    assert_eq!(bridge_invoke(1, &n, METH_VARARGS, 3).unwrap(), CallShape::Tuple(false));
    assert_eq!(
        raised(bridge_invoke(1, &n, METH_NOARGS, 2).unwrap_err()).1,
        "f() takes no arguments (2 given)"
    );
    assert_eq!(
        raised(bridge_invoke(1, &n, METH_O, 0).unwrap_err()).1,
        "f() takes exactly one argument (0 given)"
    );
    assert_eq!(raised(bridge_invoke(0, &n, METH_O, 1).unwrap_err()).1, "'f' is null");
    assert_eq!(
        bridge_invoke_method(1, &n, METH_FASTCALL | METH_KEYWORDS | METH_METHOD, 2, 7).unwrap(),
        CallShape::Method(7)
    );
    assert_eq!(
        raised(bridge_invoke_method(1, &n, METH_METHOD, 2, 0).unwrap_err()).1,
        "f(): defining class is not available"
    );
    assert_eq!(
        raised(bridge_invoke_method(1, &n, METH_O, 0, 0).unwrap_err()).1,
        "f() takes at least 1 argument (self) (0 given)"
    );
}

#[test]
fn results_of_calls_are_checked() {
    assert!(matches!(bridge_result(&t("f"), 9, false), CallOutcome::Value(9)));
    assert!(matches!(bridge_result(&t("f"), 0, true), CallOutcome::Pending));
    assert!(matches!(bridge_result(&t("f"), 0, false), CallOutcome::Failed(_)));
    let v = call_fastcall(&vec![1, 2], &vec![(t("k"), 3)]);
    assert_eq!(v.argv, vec![1, 2, 3]);
    assert_eq!(v.nargs, 2);
    assert_eq!(v.kwnames, Some(vec![t("k")]));
}

fn parser(names: &[&str], pos: i32) -> PyArgParser {
    PyArgParser {
        keywords: names.iter().map(|n| t(n)).collect(),
        fname: Some(t("f")),
        pos,
    }
}

#[test]
fn keywords_are_unpacked_into_slots() {
    let p = parser(&["a", "b"], 0);
    let kw = KwInput::Names(vec![KwName::Str(t("b"))]);
    let r = _PyArg_UnpackKeywords(&[10, 20], 1, &kw, Some(&p), false, 1, 2, 0).unwrap();
    assert_eq!(r, vec![10, 20]);
    let r = _PyArg_UnpackKeywords(&[10], 1, &KwInput::Absent, Some(&p), false, 1, 2, 0).unwrap();
    assert_eq!(r, vec![10, 0]);
}

#[test]
fn bad_keywords_are_refused() {
    let p = parser(&["a", "b"], 0);
    let unknown = KwInput::Names(vec![KwName::Str(t("c"))]);
    assert_eq!(
        raised(
            _PyArg_UnpackKeywords(&[10, 20], 1, &unknown, Some(&p), false, 1, 2, 0).unwrap_err()
        )
        .0,
        ExcKind::TypeError
    );
    let twice = KwInput::Names(vec![KwName::Str(t("a"))]);
    assert!(_PyArg_UnpackKeywords(&[10, 20], 1, &twice, Some(&p), false, 1, 2, 0).is_err());
    let other = KwInput::Names(vec![KwName::Other]);
    assert_eq!(
        raised(_PyArg_UnpackKeywords(&[10, 20], 1, &other, Some(&p), false, 1, 2, 0).unwrap_err())
            .1,
        "keywords must be strings"
    );
    assert_eq!(
        raised(
            _PyArg_UnpackKeywords(&[], 0, &KwInput::Absent, None, false, 0, 0, 0).unwrap_err()
        ),
        (ExcKind::RuntimeError, "_PyArg_UnpackKeywords: NULL parser/buf".to_string())
    );
    assert!(
        _PyArg_UnpackKeywords(&[1, 2, 3], 3, &KwInput::Absent, Some(&p), false, 1, 2, 0).is_err()
    );
}

#[test]
fn positional_counts_are_checked() {
    assert!(_PyArg_CheckPositional(Some(&t("f")), 2, 1, 3).is_ok());
    assert!(_PyArg_CheckPositional(Some(&t("f")), 0, 1, 3).is_err());
    assert!(_PyArg_CheckPositional(Some(&t("f")), 4, 1, 3).is_err());
}

#[test]
fn adding_to_a_module_moves_references() {
    let ok = PyModule_AddObject(false, false, false, true);
    assert!(ok.result.is_ok() && ok.inserted && ok.refs == -1);
    let not = PyModule_AddObject(false, false, false, false);
    assert_eq!(raised(not.result.unwrap_err()).1, "PyModule_AddObject: not a module");
    assert_eq!(not.refs, 0);
    assert_eq!(PyModule_AddObjectRef(false, false, false, true).refs, 0);
    assert_eq!(PyModule_Add(false, false, false, false).refs, -1);
    assert_eq!(PyModule_Add(true, false, true, true).refs, 0);
    assert_eq!(PyModule_AddType(Some(&t("a.b.C"))), t("C"));
    assert_eq!(PyModule_AddType(Some(&t("C"))), t("C"));
    let (o, v) = PyModule_AddStringConstant(false, false, true, None);
    assert!(o.inserted);
    assert_eq!(v, t(""));
}

#[test]
fn first_definition_of_a_module_stays() {
    let mut defs = ModuleDefs::new();
    register_module_def(&mut defs, 1, 100);
    register_module_def(&mut defs, 1, 200);
    assert_eq!(PyModule_GetDef(&defs, Some(1)).unwrap(), 100);
    let mut found = FoundModules::new();
    assert!(PyState_AddModule(&mut found, 5, 50, false).is_ok());
    assert_eq!(found.find(50), 5);
    assert!(PyState_AddModule(&mut found, 5, 51, true).is_err());
    assert!(PyState_RemoveModule(&mut found, 50, false).is_ok());
    assert_eq!(found.find(50), 0);
    assert_eq!(raised(PyType_GetModule(0).unwrap_err()).0, ExcKind::SystemError);
}

#[test]
fn clock_readings_saturate() {
    assert_eq!(PyTime_Monotonic(false, 5), Some(5));
    assert_eq!(PyTime_Monotonic(false, u128::MAX), Some(i64::MAX));
    assert_eq!(PyTime_Monotonic(true, 5), None);
}

#[test]
fn modules_are_found_by_name() {
    let mut c = ModuleCache::new();
    let made = PyImport_AddModule(&mut c, Some(&t("a")), 7).unwrap();
    assert_eq!(made.id, 7);
    assert_eq!(made.dict.len(), 1);
    assert!(matches!(&made.dict[0].1, ModuleValue::Text(x) if *x == t("a")));
    let again = PyImport_AddModule(&mut c, Some(&t("a")), 8).unwrap();
    assert_eq!(again.id, 7);
    assert!(again.dict.is_empty());
    assert!(PyImport_AddModule(&mut c, None, 9).is_none());
    assert_eq!(PyImport_GetModule(&c, &Object::Str(t("a"))), Some(7));
    assert_eq!(PyImport_GetModule(&c, &Object::Str(t("b"))), None);
    assert_eq!(PyImport_GetModule(&c, &Object::Int(1)), None);
    assert_eq!(main_module_dict(&mut c, true, 11).id, 11);
    assert_eq!(main_module_dict(&mut c, true, 12).id, 11);
    assert_eq!(main_module_dict(&mut c, false, 13).id, 13);
}

#[test]
fn import_failures_are_named() {
    assert_eq!(PyImport_ImportModule(Some(&t("os")), Imported::Done(3)).unwrap(), 3);
    assert!(matches!(PyImport_ImportModule(None, Imported::Done(3)), Err(Failure::Silent)));
    assert_eq!(
        raised(PyImport_ImportModule(Some(&t("o\"s")), Imported::NoInterpreter).unwrap_err()),
        (
            ExcKind::RuntimeError,
            "PyImport_ImportModule(\"o\\\"s\"): no active interpreter".to_string()
        )
    );
    assert!(matches!(
        install_runtime_error(VmError::Internal(t("x"))),
        Seen::Runtime(m) if m == t("x")
    ));
    assert!(matches!(
        install_runtime_error(VmError::Exception(Some(4), t("x"))),
        Seen::OfClass(Some(4), _)
    ));
}

#[test]
fn module_names_come_from_the_dict_first() {
    let own = NamedModule { name: t("m"), in_dict: None };
    assert!(matches!(
        PyModule_GetNameObject(Some(&own), 3).unwrap(),
        Native { id: 3, val: Object::Str(s) } if s == t("m")
    ));
    let set = NamedModule {
        name: t("m"),
        in_dict: Some(Native { id: 9, val: Object::Str(t("n")) }),
    };
    assert_eq!(PyModule_GetNameObject(Some(&set), 3).unwrap().id, 9);
    assert_eq!(PyModule_GetName(Some(&set)), Some(b"m\0".to_vec()));
    assert_eq!(
        raised(PyModule_GetNameObject(None, 0).unwrap_err()).1,
        "PyModule_GetNameObject: not a module"
    );
    let (name, dict) = PyModule_New(Some(&t("m"))).unwrap();
    assert_eq!(name, t("m"));
    assert_eq!(dict.len(), 1);
    assert_eq!(dict[0].0, t("__name__"));
    assert_eq!(raised(PyModule_New(None).unwrap_err()).1, "PyModule_New: name is NULL");
    let added = PyModule_AddFunctions(true, &table()).unwrap();
    assert_eq!(added.len(), 2);
    assert_eq!(added[1].0, t("two"));
    assert!(PyModule_AddFunctions(false, &table()).is_none());
    assert!(PyModule_AddFunctions(true, &None).is_none());
}

#[test]
fn module_specs_are_optional() {
    let made = build_module_spec(1, 2, 3);
    assert!(made.spec == 3 && !made.clear);
    let failed = build_module_spec(1, 0, 3);
    assert!(failed.spec == 0 && failed.clear);
    let args = spec_args(&t("a.b"), 4);
    assert!(matches!(&args[0].val, Object::Str(s) if *s == t("a.b")));
    assert!(matches!(args[1].val, Object::PyNone));
}

#[test]
fn import_errors_need_a_message() {
    let e = PyErr_SetImportError(Some(&Object::Str(t("no"))), &t("x"), 1, 2).unwrap();
    assert_eq!((e.msg, e.name, e.path), (t("no"), 1, 2));
    let e = PyErr_SetImportError(Some(&Object::Int(4)), &t("4"), 0, 0).unwrap();
    assert_eq!(e.msg, t("4"));
    assert_eq!(
        raised(PyErr_SetImportError(None, &t(""), 0, 0).unwrap_err()).1,
        "PyErr_SetImportError: msg must be set"
    );
    assert_eq!(_WeavePy_ApplyCause(5, Some(true)), Some(5));
    assert_eq!(_WeavePy_ApplyCause(5, Some(false)), None);
    assert_eq!(_WeavePy_ApplyCause(0, Some(true)), None);
}

#[test]
fn handled_exceptions_replace_each_other() {
    let mut slot = 4;
    let c = PyErr_SetHandledException(&mut slot, 5, false);
    assert_eq!((slot, c.incref, c.decref), (5, 5, 4));
    let c = PyErr_SetHandledException(&mut slot, 6, true);
    assert_eq!((slot, c.incref, c.decref), (0, 0, 5));
    let mut slot = 4;
    assert_eq!(PyErr_SetExcInfo(&mut slot, 1, 2, false, 3), vec![4, 1, 3]);
    assert_eq!(slot, 2);
    assert_eq!(_PyGen_FetchStopIterationValue(&Pending::Stop(Some(8))), StopValue::Value(8));
    assert_eq!(_PyGen_FetchStopIterationValue(&Pending::Other), StopValue::Failed);
}

#[test]
fn merging_keeps_or_overrides() {
    let items = vec![PairItem::Pair(1, 10, true, true), PairItem::Pair(2, 20, true, true)];
    let mut d: HashMap<u64, usize> = HashMap::from([(1, 5)]);
    assert!(PyDict_MergeFromSeq2(&mut d, &items, false, 0).is_ok());
    assert_eq!((d[&1], d[&2]), (5, 20));
    assert!(PyDict_MergeFromSeq2(&mut d, &items, false, 1).is_ok());
    assert_eq!(d[&1], 10);
    assert!(PyDict_MergeFromSeq2(&mut d, &vec![PairItem::NotPair], false, 0).is_err());
}

#[test]
fn merging_ends_at_a_key_that_the_dict_fails_on() {
    let items = vec![
        PairItem::Pair(1, 10, true, true),
        PairItem::Pair(2, 20, false, true),
        PairItem::Pair(3, 30, true, true),
    ];
    let mut d: HashMap<u64, usize> = HashMap::new();
    let r = PyDict_MergeFromSeq2(&mut d, &items, false, 0);
    assert!(matches!(r, Err(Failure::Silent)));
    assert_eq!(d.len(), 1);
    assert!(PyDict_MergeFromSeq2(&mut d, &items, false, 1).is_ok());
    assert_eq!(d.len(), 3);
    let broken = vec![PairItem::Pair(3, 31, true, false)];
    assert!(PyDict_MergeFromSeq2(&mut d, &broken, false, 0).is_ok());
    assert!(matches!(PyDict_MergeFromSeq2(&mut d, &broken, false, 1), Err(Failure::Silent)));
    assert_eq!(d[&3], 30);
}

#[test]
fn cfunctions_remember_their_receiver() {
    let mut x = CFuncExtras::new();
    let m = method(Some("f"), 1, METH_O);
    assert!(PyCFunction_NewEx(&mut x, 7, 70, Some(&m), 700, false).is_ok());
    assert_eq!(cfunction_extra(&x, 7), Some((700, 70)));
    assert_eq!(cfunction_extra(&x, 8), None);
    assert!(PyCFunction_NewEx(&mut x, 7, 0, None, 0, false).is_err());
}

#[test]
fn causes_are_appended_to_a_message() {
    assert_eq!(cause_chain_suffix(&Vec::new()), t(""));
    let s: String = cause_chain_suffix(&vec![(t("ValueError"), t("bad"))]).into_iter().collect();
    assert!(s.contains("ValueError") && s.contains("bad"), "{s}");
}
