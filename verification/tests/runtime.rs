//! Running code, thread state, tracing and monitoring.

use std::collections::{HashMap, HashSet};

use weavepy_capi::errors::{ExcKind, Failure};
use weavepy_capi::monitoring::{PyMonitoringState, PyMonitoring_EnterScope};
use weavepy_capi::mypyc_tail::{
    build_ctype_table, build_tolower, build_toupper, Trashcan, _PyTrash_thread_deposit_object,
    _PyTrash_thread_destroy_chain,
};
use weavepy_capi::object::{soul_count, soul_dec, soul_inc, Souls};
use weavepy_capi::pep741::{
    default_int, flag_for, runtime_int, sys_flag, PyConfig_Get, PyConfig_GetInt, PyConfig_Names,
    ConfigValue,
};
use weavepy_capi::pystate::{
    current_threadstate, PyTssT, PyThread_tss_alloc, PyThread_tss_create, PyThread_tss_delete,
    PyThread_tss_free, PyThread_tss_get, PyThread_tss_is_created, Py_FrozenMain, TStateStore,
};
use weavepy_capi::pythonrun::{
    command_text, mode_for_start, print_or_exit, read_line, take_line, MainOutcome,
    PyCompilerFlags, PyRun_AnyFile, PyRun_File, PyRun_InteractiveLoop, PyRun_InteractiveOne,
    PyRun_SimpleString, PyRun_String, PyRun_StringFlags, Py_CompileString, Uncaught,
};
use weavepy_capi::singletons::{
    current_interpreter, none_ptr, set_current_interpreter, true_ptr, BoolSingleton,
    InterpreterCell, Singleton, Singletons,
};
use weavepy_capi::tracing::{
    body_trace_interesting, check_body_reuse, is_watched, note_body_freed, unwatch_ptr, watch_ptr,
    BodyTrace, Watch,
};
use weavepy_capi::value::Object;

fn t(s: &str) -> Vec<char> {
    s.chars().collect()
}

fn raised(f: Failure) -> (ExcKind, String) {
    match f {
        Failure::Raised(e) => (e.kind, e.msg.into_iter().collect()),
        Failure::Silent => panic!("nothing was raised"),
    }
}

#[test]
fn start_tokens_choose_a_mode() {
    assert_eq!(mode_for_start(258), Some("eval"));
    assert_eq!(mode_for_start(257), Some("exec"));
    assert_eq!(mode_for_start(256), Some("single"));
    assert_eq!(mode_for_start(1), None);
}

#[test]
fn running_a_text_is_checked() {
    let g = Object::Dict(Vec::new());
    let p = PyRun_String(Some(&t("1")), 258, Some(&g), false).unwrap();
    assert_eq!((p.mode, p.filename, p.globals_as_locals), ("eval", t("<string>"), true));
    let flags = PyCompilerFlags { cf_flags: 7, cf_feature_version: 0 };
    let p = PyRun_StringFlags(Some(&t("1")), 257, Some(&g), true, Some(flags)).unwrap();
    assert_eq!((p.flags, p.globals_as_locals), (7, false));
    assert_eq!(
        raised(PyRun_String(None, 258, Some(&g), false).unwrap_err()).1,
        "PyRun_StringFlags: NULL string"
    );
    assert_eq!(
        raised(PyRun_String(Some(&t("1")), 9, Some(&g), false).unwrap_err()).1,
        "PyRun_String: bad start token 9"
    );
    assert_eq!(
        raised(PyRun_String(Some(&t("1")), 258, None, false).unwrap_err()).1,
        "PyRun_String: NULL globals"
    );
    assert_eq!(
        raised(PyRun_String(Some(&t("1")), 258, Some(&Object::Int(1)), false).unwrap_err()),
        (ExcKind::TypeError, "exec/eval: globals must be a dict".to_string())
    );
    assert_eq!(
        raised(PyRun_File(false, None, 257, Some(&g), false).unwrap_err()).1,
        "PyRun_File: NULL file"
    );
    assert_eq!(PyRun_File(true, None, 257, Some(&g), false).unwrap().filename, t("???"));
    assert_eq!(Py_CompileString(Some(&t("1")), None, 257).unwrap().filename, t("<string>"));
}

#[test]
fn simple_runs_have_return_codes() {
    assert_eq!(PyRun_SimpleString(Some(&t("x")), None, MainOutcome::Done).unwrap(), 0);
    assert_eq!(PyRun_SimpleString(Some(&t("x")), None, MainOutcome::Raised).unwrap(), -1);
    assert_eq!(PyRun_SimpleString(Some(&t("x")), Some(3), MainOutcome::Done).unwrap(), 3);
    assert_eq!(
        raised(PyRun_SimpleString(Some(&t("x")), None, MainOutcome::NoInterpreter).unwrap_err()).1,
        "PyRun_SimpleString: interpreter not initialized"
    );
    assert!(PyRun_AnyFile(true, 1));
    assert!(!PyRun_AnyFile(true, 0));
}

#[test]
fn uncaught_exits_carry_a_code() {
    assert_eq!(print_or_exit(Some(&Object::PyNone)), Uncaught::Exit(0, false));
    assert_eq!(print_or_exit(Some(&Object::Int(3))), Uncaught::Exit(3, false));
    assert_eq!(print_or_exit(None), Uncaught::Report);
    assert!(matches!(print_or_exit(Some(&Object::Str(t("x")))), Uncaught::Exit(1, true)));
}

#[test]
fn interactive_input_is_taken_by_lines() {
    assert_eq!(read_line(&vec![b"ab".to_vec(), b"c\n".to_vec(), b"d".to_vec()]), Some(b"abc\n".to_vec()));
    assert_eq!(read_line(&Vec::new()), None);
    let mut src = t("if x:\n");
    assert!(take_line(&mut src, Some(&t("  y\n"))));
    assert!(take_line(&mut src, Some(&t("\n"))));
    assert!(!take_line(&mut src, Some(&t("\n"))));
    assert!(!take_line(&mut src, None));
    assert_eq!(src, t("if x:\n  y\n\n"));
    assert_eq!(command_text(&src), t("if x:\n  y"));
    assert_eq!(PyRun_InteractiveOne(true, MainOutcome::Done), 0);
    assert_eq!(PyRun_InteractiveLoop(PyRun_InteractiveOne(false, MainOutcome::Done)), Some(0));
    assert_eq!(PyRun_InteractiveLoop(0), None);
}

#[test]
fn thread_keys_are_created_once() {
    let mut k = Some(PyThread_tss_alloc());
    assert_eq!(PyThread_tss_is_created(k), 0);
    assert_eq!(PyThread_tss_get(k, 9), 0);
    assert_eq!(PyThread_tss_create(&mut k, Some(5)), 0);
    assert_eq!(PyThread_tss_create(&mut k, Some(6)), 0);
    assert_eq!(k, Some(PyTssT { is_initialized: 1, key: 5 }));
    assert_eq!(PyThread_tss_get(k, 9), 9);
    assert_eq!(PyThread_tss_delete(&mut k), Some(5));
    assert_eq!(PyThread_tss_delete(&mut k), None);
    assert_eq!(PyThread_tss_create(&mut k, None), -1);
    assert_eq!(PyThread_tss_create(&mut k, Some(8)), 0);
    assert_eq!(PyThread_tss_free(&mut k), Some(8));
    assert_eq!(k, None);
    assert_eq!(Py_FrozenMain().0, 1);
}

#[test]
fn thread_state_is_wired_once() {
    let mut s = TStateStore::new(0x4000, 0x5000);
    assert_eq!(current_threadstate(&mut s, 0x6000), 0x4000);
    assert!(s.initialized);
    let before = s.body.clone();
    current_threadstate(&mut s, 0x7000);
    assert_eq!(s.body, before);
}

#[test]
fn singletons_keep_their_addresses() {
    let s = Singletons {
        none: Singleton::new(0x100),
        tru: BoolSingleton::new(0x200, 1),
        fals: BoolSingleton::new(0x300, 0),
        not_implemented: Singleton::new(0x400),
        ellipsis: Singleton::new(0x500),
    };
    assert_eq!(none_ptr(&s), 0x100);
    assert_eq!(true_ptr(&s), 0x200);
    let mut c = InterpreterCell::new();
    assert_eq!(current_interpreter(&c), 0);
    set_current_interpreter(&mut c, 5);
    assert_eq!(current_interpreter(&c), 5);
}

#[test]
fn options_of_the_running_process() {
    assert_eq!(flag_for(&t("isolated")), Some(("isolated", false)));
    assert_eq!(sys_flag(Some(&Object::Bool(true))), Some(1));
    assert_eq!(sys_flag(Some(&Object::PyNone)), None);
    assert_eq!(runtime_int(&t("isolated"), false, None, Some(1)), Some(1));
    assert_eq!(default_int(&t("buffered_stdio"), false), Some(1));
    assert_eq!(PyConfig_GetInt(Some(&t("isolated")), false, None, Some(1)).unwrap(), 1);
    assert!(matches!(
        PyConfig_Get(Some(&t("isolated")), 0, false, None, Some(1)),
        Ok(ConfigValue::Int(1))
    ));
    assert_eq!(
        raised(PyConfig_Get(None, 0, false, None, None).unwrap_err()),
        (ExcKind::ValueError, "PyConfig_Get: NULL option name".to_string())
    );
    assert!(PyConfig_GetInt(Some(&t("nope")), false, None, None).is_err());
    assert!(PyConfig_Names().contains(&t("argv")));
}

#[test]
fn trashcan_hands_back_the_last_first() {
    let mut c = Trashcan { parked: Vec::new(), delete_later: 0 };
    _PyTrash_thread_deposit_object(&mut c, 1);
    _PyTrash_thread_deposit_object(&mut c, 2);
    assert_ne!(c.delete_later, 0);
    assert_eq!(_PyTrash_thread_destroy_chain(&mut c), Some(2));
    assert_eq!(_PyTrash_thread_destroy_chain(&mut c), Some(1));
    assert_eq!(_PyTrash_thread_destroy_chain(&mut c), None);
    assert_eq!(c.delete_later, 0);
}

#[test]
fn character_tables_cover_ascii() {
    let lower = build_tolower();
    let upper = build_toupper();
    assert_eq!(lower[b'A' as usize], b'a');
    assert_eq!(lower[b'1' as usize], b'1');
    assert_eq!(upper[b'z' as usize], b'Z');
    assert_eq!(lower.len(), 256);
    assert_eq!(build_ctype_table().len(), 256);
}

#[test]
fn souls_count_while_enabled() {
    let mut s = Souls { enabled: true, counts: HashMap::new() };
    soul_inc(&mut s, 5);
    soul_inc(&mut s, 5);
    assert_eq!(soul_count(&s, 5), 2);
    soul_dec(&mut s, 5);
    soul_dec(&mut s, 5);
    soul_dec(&mut s, 5);
    assert_eq!(soul_count(&s, 5), 0);
    let mut off = Souls { enabled: false, counts: HashMap::new() };
    soul_inc(&mut off, 5);
    assert_eq!(soul_count(&off, 5), 0);
}

#[test]
fn watched_addresses_and_freed_bodies() {
    let mut w = Watch { enabled: true, ptrs: HashSet::new(), freed: HashMap::new() };
    watch_ptr(&mut w, 5);
    assert!(is_watched(&w, 5));
    unwatch_ptr(&mut w, 5);
    assert!(!is_watched(&w, 5));
    let mut b = BodyTrace { enabled: true, freed: HashMap::new() };
    note_body_freed(&mut b, 7, t("A"));
    let reused = check_body_reuse(&mut b, 7, &t("B"));
    let again = check_body_reuse(&mut b, 7, &t("B"));
    assert!(again.is_none());
    assert_eq!(
        reused.is_some(),
        body_trace_interesting(&t("A")) || body_trace_interesting(&t("B"))
    );
}

#[test]
fn monitoring_scopes_start_inactive() {
    let mut v: Vec<PyMonitoringState> = vec![PyMonitoringState { active: 1, opaque: 1 }; 2];
    let mut version = 3u64;
    assert_eq!(PyMonitoring_EnterScope(&mut v, &mut version, 2), 0);
    assert!(v.iter().all(|s| s.active == 0));
}
