//! Initialisation by named options.

use weavepy_capi::pep741::{
    int_slot, PyConfig, PyInitConfig, PyInitConfig_Create, PyInitConfig_GetError,
    PyInitConfig_GetInt, PyInitConfig_GetStr, PyInitConfig_GetStrList, PyInitConfig_HasOption,
    PyInitConfig_SetInt, PyInitConfig_SetStr, PyInitConfig_SetStrList,
};

fn t(s: &str) -> Vec<char> {
    s.chars().collect()
}

fn isolated() -> PyInitConfig {
    let mut c = PyConfig::zeroed();
    let at = int_slot(&t("isolated")).unwrap();
    c.ints[at] = 1;
    PyInitConfig_Create(c)
}

fn get_int(c: &mut PyInitConfig, name: &str) -> Option<i64> {
    PyInitConfig_GetInt(c, Some(&t(name)))
}

fn set_int(c: &mut PyInitConfig, name: &str, v: i64) -> i32 {
    PyInitConfig_SetInt(c, Some(&t(name)), v)
}

fn error_text(c: &PyInitConfig) -> String {
    PyInitConfig_GetError(c).unwrap().into_iter().collect()
}

#[test]
fn create_set_get_round_trip() {
    let mut c = isolated();

    assert_eq!(get_int(&mut c, "isolated"), Some(1));

    assert_eq!(set_int(&mut c, "verbose", 2), 0);
    assert_eq!(get_int(&mut c, "verbose"), Some(2));

    assert_eq!(set_int(&mut c, "hash_seed", 10), 0);
    assert_eq!(get_int(&mut c, "use_hash_seed"), Some(1));

    assert_eq!(PyInitConfig_SetStr(&mut c, Some(&t("program_name")), Some(&t("my_embedder"))), 0);
    assert_eq!(
        PyInitConfig_GetStr(&mut c, Some(&t("program_name"))),
        Some(Some(t("my_embedder")))
    );

    assert_eq!(PyInitConfig_GetStr(&mut c, Some(&t("run_module"))), Some(None));

    let items = vec![Some(t("/one")), Some(t("/two"))];
    assert_eq!(
        PyInitConfig_SetStrList(&mut c, Some(&t("module_search_paths")), 2, Some(&items)),
        0
    );
    assert_eq!(get_int(&mut c, "module_search_paths_set"), Some(1));
    let out = PyInitConfig_GetStrList(&mut c, Some(&t("module_search_paths"))).unwrap();
    assert_eq!(out.len(), 2);
    assert_eq!(out[0], t("/one"));
    assert_eq!(out[1], t("/two"));
}

#[test]
fn errors_are_named_and_readable() {
    let mut c = isolated();

    assert_eq!(set_int(&mut c, "no_such_option", 1), -1);
    let text = error_text(&c);
    assert!(text.contains("no_such_option"), "{text}");

    assert_eq!(set_int(&mut c, "program_name", 1), -1);
    let text = error_text(&c);
    assert!(text.contains("not an int option"), "{text}");

    assert_eq!(set_int(&mut c, "gil", 7), -1);
    assert_eq!(set_int(&mut c, "gil", 0), 0);
    assert_eq!(get_int(&mut c, "gil"), Some(0));

    assert!(PyInitConfig_HasOption(Some(&t("argv"))));
    assert!(PyInitConfig_HasOption(Some(&t("utf8_mode"))));
    assert!(!PyInitConfig_HasOption(Some(&t("nope"))));
}
