//! The bodies that C code reads, and the way back to the VM object.

use std::collections::{HashMap, HashSet};

use weavepy_capi::bodies::{alloc_instance_body, free_instance_body, is_instance_body};
use weavepy_capi::bytes::{get_slot, put_u32, put_u64};
use weavepy_capi::calls::{build_kwargs_dict, close_call, open_call, Called};
use weavepy_capi::crossing::type_for_object;
use weavepy_capi::errors::{ExcKind, Failure};
use weavepy_capi::floats::PyBool_FromLong;
use weavepy_capi::freeing::{destructor_ran, free_mirror, unregister_list_box};
use weavepy_capi::imports::{PyClassMethod_New, _PyNamespace_New};
use weavepy_capi::heap::{Event, Facts, Heap, Link, Types};
use weavepy_capi::layout::{get_field, get_half, pack_state};
use weavepy_capi::lists::{
    list_append, list_insert, list_permute, list_ptrs, list_size, list_slot, list_store,
    no_watched_lists, tuple_store, unwatch_list, watch_list_for_macro_reads, MACRO_WATCH_CAP,
};
use weavepy_capi::mirror::is_mirror;
use weavepy_capi::module::CallShape;
use weavepy_capi::mypyc_tail::{
    is_raw_long, register_raw_long, take_raw_long, PyList_Clear, PyList_GetSlice,
    PyUnicode_Append, _PyErr_ChainExceptions1, _PyLong_New,
};
use weavepy_capi::object::{
    clone_object, into_owned, is_immortal_refcnt, is_weavepy_owned, register_minted,
    unregister_minted, PyObject, Py_DecRef, Py_IncRef, IMMORTAL_REFCNT,
};
use weavepy_capi::pins::{
    enter_arg_pin, enter_intern_scope, is_scalar_pinned, scalar_pin_key, sweep_scalar_pins,
};
use weavepy_capi::publish::{
    args_tuple_out, flush_seeded_lists, mirror_out, sync_bytearray_boxes, sync_dict_ma_used,
    sync_list_ob_item,
};
use weavepy_capi::reading::{native_of, read_list, read_tuple, reconcile_list_from_c};
use weavepy_capi::singletons::{BoolSingleton, Singleton, Singletons};
use weavepy_capi::slice::PySlice_New;
use weavepy_capi::strings::PyBytes_ConcatAndDel;
use weavepy_capi::unicode::{
    resize_unicode, PyUnicode_CopyCharacters, PyUnicode_New, PyUnicode_WriteChar,
};
use weavepy_capi::value::{BigNum, InstInfo, Native, Object, Sign};

fn types() -> Types {
    Types {
        float_type: 0x1000,
        long_type: 0x1010,
        bool_type: 0x1020,
        complex_type: 0x1030,
        bytes_type: 0x1040,
        bytearray_type: 0x1050,
        unicode_type: 0x1060,
        tuple_type: 0x1070,
        list_type: 0x1080,
        dict_type: 0x1090,
        set_type: 0x10a0,
        frozenset_type: 0x10b0,
        cfunction_type: 0x10c0,
        method_type: 0x10d0,
        slice_type: 0x10e0,
        memoryview_type: 0x10f0,
        getset_type: 0x1100,
        object_type: 0x1110,
    }
}

fn heap() -> Heap {
    let facts = Facts {
        types: types(),
        singles: Singletons {
            none: Singleton::new(0x100),
            tru: BoolSingleton::new(0x200, 1),
            fals: BoolSingleton::new(0x300, 0),
            not_implemented: Singleton::new(0x400),
            ellipsis: Singleton::new(0x500),
        },
        inline_types: HashSet::new(),
        list_like: HashSet::new(),
        tuple_like: HashSet::new(),
        text_kin: HashSet::new(),
        bytes_kin: HashSet::new(),
        tuple_kin: HashSet::new(),
        far_texts: HashMap::new(),
        classes: HashSet::new(),
        type_of: HashMap::new(),
        hashes: HashMap::new(),
        buffers: HashMap::new(),
        extras: HashMap::new(),
        strong: HashMap::new(),
        raw_values: HashMap::new(),
        codes: HashMap::new(),
        capsules: HashSet::new(),
        in_flight: HashSet::new(),
    };
    Heap::new(facts, 0x10000)
}

fn imm(val: Object) -> Native {
    Native { id: 0, val }
}

fn shared(id: usize, val: Object) -> Native {
    Native { id, val }
}

fn word(h: &Heap, p: usize, off: usize) -> u64 {
    get_field(&h.store(p).unwrap().tail, off)
}

fn half(h: &Heap, p: usize, off: usize) -> u32 {
    get_half(&h.store(p).unwrap().tail, off)
}

fn byte(h: &Heap, p: usize, off: usize) -> u8 {
    h.store(p).unwrap().tail[off - 16]
}

#[test]
fn float_body_is_faithful() {
    let mut h = heap();
    let p = mirror_out(&mut h, &imm(Object::Float(2.5f64.to_bits())));
    assert!(is_mirror(&h, p));
    assert_eq!(f64::from_bits(word(&h, p, 16)), 2.5);
    assert_eq!(h.get_refcnt(p), 1);
    assert_eq!(h.get_type(p), types().float_type);
    match native_of(&mut h, p).val {
        Object::Float(b) => assert_eq!(f64::from_bits(b), 2.5),
        other => panic!("not a float: {other:?}"),
    }
    free_mirror(&mut h, p);
    assert!(h.store(p).is_none());
}

#[test]
fn long_body_encodes_small_int() {
    let mut h = heap();
    let p = mirror_out(&mut h, &imm(Object::Int(5)));
    assert_eq!(word(&h, p, 16), 8);
    assert_eq!(half(&h, p, 24), 5);
    assert!(matches!(native_of(&mut h, p).val, Object::Int(5)));
    free_mirror(&mut h, p);
}

#[test]
fn long_body_encodes_negative() {
    let mut h = heap();
    let p = mirror_out(&mut h, &imm(Object::Int(-1)));
    assert_eq!(word(&h, p, 16), 10);
    assert_eq!(half(&h, p, 24), 1);
    free_mirror(&mut h, p);
}

#[test]
fn bytes_body_is_faithful() {
    let mut h = heap();
    let p = mirror_out(&mut h, &shared(7, Object::Bytes(b"hi".to_vec())));
    assert_eq!(word(&h, p, 16), 2);
    assert_eq!(byte(&h, p, 32), b'h');
    assert_eq!(byte(&h, p, 33), b'i');
    assert_eq!(byte(&h, p, 34), 0);
    free_mirror(&mut h, p);
}

#[test]
fn str_ascii_body_is_faithful() {
    let mut h = heap();
    let p = mirror_out(&mut h, &shared(7, Object::Str("abc".chars().collect())));
    assert_eq!(word(&h, p, 16), 3);
    assert_eq!(half(&h, p, 32), pack_state(0, 1, true, true, false));
    assert_eq!(byte(&h, p, 40), b'a');
    assert_eq!(byte(&h, p, 42), b'c');
    free_mirror(&mut h, p);
}

#[test]
fn tuple_body_holds_element_mirrors() {
    let mut h = heap();
    let t = shared(
        7,
        Object::Tuple(vec![imm(Object::Float(1.0f64.to_bits())), imm(Object::Int(2))]),
    );
    let p = mirror_out(&mut h, &t);
    assert_eq!(word(&h, p, 16), 2);
    let e0 = word(&h, p, 24) as usize;
    assert_eq!(f64::from_bits(word(&h, e0, 16)), 1.0);
    free_mirror(&mut h, p);
}

#[test]
fn generic_body_keeps_native_in_prefix() {
    let mut h = heap();
    let p = mirror_out(&mut h, &imm(Object::Float(9.0f64.to_bits())));
    assert!(is_mirror(&h, p));
    free_mirror(&mut h, p);
}

// ---------------------------------------------------------------------------

fn ints(items: &[i64]) -> Vec<Native> {
    items.iter().map(|i| imm(Object::Int(*i))).collect()
}

fn ints_of(o: &Object) -> Vec<i64> {
    let items = match o {
        Object::List(v) | Object::Tuple(v) => v,
        other => panic!("not a sequence: {other:?}"),
    };
    read_ints(items)
}

fn read_ints(items: &[Native]) -> Vec<i64> {
    items
        .iter()
        .map(|n| match n.val {
            Object::Int(i) => i,
            ref other => panic!("not an int: {other:?}"),
        })
        .collect()
}

fn raised(f: Failure) -> (ExcKind, String) {
    match f {
        Failure::Raised(e) => (e.kind, e.msg.into_iter().collect()),
        Failure::Silent => panic!("nothing was raised"),
    }
}

fn write_slot(h: &mut Heap, p: usize, i: usize, v: usize) {
    let mut s = h.take_store(p).unwrap();
    put_u64(&mut s.aux, 8 * i, v as u64);
    h.put_store(p, s);
}

#[test]
fn complex_body_is_faithful() {
    let mut h = heap();
    let p = mirror_out(&mut h, &shared(3, Object::Complex(1.5f64.to_bits(), (-2.0f64).to_bits())));
    assert_eq!(f64::from_bits(word(&h, p, 16)), 1.5);
    assert_eq!(f64::from_bits(word(&h, p, 24)), -2.0);
}

#[test]
fn long_body_has_one_digit_for_zero_and_two_for_a_large_int() {
    let mut h = heap();
    let z = mirror_out(&mut h, &imm(Object::Int(0)));
    assert_eq!(word(&h, z, 16), 9);
    assert_eq!(half(&h, z, 24), 0);
    let v: i64 = (7i64 << 30) + 5;
    let p = mirror_out(&mut h, &imm(Object::Int(v)));
    assert_eq!(word(&h, p, 16), 16);
    assert_eq!(half(&h, p, 24), 5);
    assert_eq!(half(&h, p, 28), 7);
}

#[test]
fn wide_text_body_uses_wider_units() {
    let mut h = heap();
    let p = mirror_out(&mut h, &shared(7, Object::Str(vec!['a', '\u{20ac}'])));
    assert_eq!(word(&h, p, 16), 2);
    assert_eq!(half(&h, p, 32), pack_state(0, 2, true, false, false));
    assert_eq!(byte(&h, p, 56), b'a');
    assert_eq!(byte(&h, p, 58), 0xac);
    assert_eq!(byte(&h, p, 59), 0x20);
}

#[test]
fn list_comes_back_as_it_was() {
    let mut h = heap();
    let l = shared(9, Object::List(ints(&[1, 2])));
    let p = mirror_out(&mut h, &l);
    assert_eq!(word(&h, p, 16), 2);
    assert_eq!(word(&h, p, 32), 2);
    let back = native_of(&mut h, p);
    assert_eq!(back.id, 9);
    assert_eq!(ints_of(&back.val), vec![1, 2]);
    assert_eq!(read_ints(h.cell(9).unwrap()), vec![1, 2]);
}

#[test]
fn list_crosses_as_one_object() {
    let mut h = heap();
    let l = shared(9, Object::List(ints(&[1, 2])));
    let p = mirror_out(&mut h, &l);
    assert_eq!(mirror_out(&mut h, &l), p);
    assert_eq!(h.get_refcnt(p), 2);
}

#[test]
fn list_inside_itself_crosses_once() {
    let mut h = heap();
    let inner = shared(9, Object::List(Vec::new()));
    let l = shared(9, Object::List(vec![inner]));
    let p = mirror_out(&mut h, &l);
    assert_eq!(list_slot(&h, p, 0), Some(p));
}

#[test]
fn sets_and_builtins_cross_as_one_object() {
    let mut h = heap();
    let s = shared(3, Object::PySet(4));
    let p = mirror_out(&mut h, &s);
    assert_eq!(mirror_out(&mut h, &s), p);
    assert_eq!(word(&h, p, 24), 4);
    let b = shared(5, Object::Builtin);
    let q = mirror_out(&mut h, &b);
    assert_eq!(mirror_out(&mut h, &b), q);
}

#[test]
fn append_insert_store_and_permute_change_both_sides() {
    let mut h = heap();
    let p = mirror_out(&mut h, &shared(9, Object::List(ints(&[1, 2]))));
    let q = mirror_out(&mut h, &imm(Object::Int(7)));
    assert!(list_append(&mut h, p, q));
    assert_eq!(list_size(&h, p), 3);
    assert_eq!(list_slot(&h, p, 2), Some(q));
    assert_eq!(h.get_refcnt(q), 2);
    assert_eq!(read_ints(h.cell(9).unwrap()), vec![1, 2, 7]);

    let r = mirror_out(&mut h, &imm(Object::Int(5)));
    assert!(list_insert(&mut h, p, 0, r));
    assert_eq!(read_ints(h.cell(9).unwrap()), vec![5, 1, 2, 7]);
    assert_eq!(list_slot(&h, p, 0), Some(r));

    let s = mirror_out(&mut h, &imm(Object::Int(8)));
    assert!(list_store(&mut h, p, 1, s));
    assert_eq!(read_ints(h.cell(9).unwrap()), vec![5, 8, 2, 7]);
    assert_eq!(list_slot(&h, p, 1), Some(s));
    assert!(!list_store(&mut h, p, 4, s));
    assert!(!list_store(&mut h, p, -1, s));

    let mut order = list_ptrs(&h, p);
    order.reverse();
    list_permute(&mut h, p, &order);
    assert_eq!(list_ptrs(&h, p), order);
    assert_eq!(read_ints(h.cell(9).unwrap()), vec![7, 2, 8, 5]);
}

#[test]
fn vm_change_is_published() {
    let mut h = heap();
    let p = mirror_out(&mut h, &shared(9, Object::List(ints(&[1, 2, 3]))));
    native_of(&mut h, p);
    h.put_cell(9, ints(&[4]));
    sync_list_ob_item(&mut h, p);
    assert_eq!(list_size(&h, p), 1);
    let slot = list_slot(&h, p, 0).unwrap();
    assert!(matches!(native_of(&mut h, slot).val, Object::Int(4)));
    assert_eq!(get_slot(&h.store(p).unwrap().aux, 8), 0);
}

#[test]
fn flush_publishes_every_shared_list_unless_disabled() {
    let mut h = heap();
    let p = mirror_out(&mut h, &shared(9, Object::List(ints(&[1]))));
    native_of(&mut h, p);
    h.put_cell(9, ints(&[4, 5]));
    flush_seeded_lists(&mut h, true);
    assert_eq!(list_size(&h, p), 1);
    flush_seeded_lists(&mut h, false);
    assert_eq!(list_size(&h, p), 2);
}

#[test]
fn direct_write_is_adopted() {
    let mut h = heap();
    let p = mirror_out(&mut h, &shared(9, Object::List(ints(&[1, 2]))));
    native_of(&mut h, p);
    let q = mirror_out(&mut h, &imm(Object::Int(7)));
    write_slot(&mut h, p, 0, q);
    reconcile_list_from_c(&mut h, p);
    assert_eq!(read_ints(h.cell(9).unwrap()), vec![7, 2]);
}

#[test]
fn vm_change_without_a_direct_write_stays() {
    let mut h = heap();
    let p = mirror_out(&mut h, &shared(9, Object::List(ints(&[1, 2]))));
    native_of(&mut h, p);
    h.put_cell(9, ints(&[6]));
    reconcile_list_from_c(&mut h, p);
    assert_eq!(read_ints(h.cell(9).unwrap()), vec![6]);
}

#[test]
fn own_list_of_c_is_left_alone() {
    let mut h = heap();
    let p = mirror_out(&mut h, &shared(9, Object::List(ints(&[1, 2]))));
    h.put_cell(9, ints(&[6]));
    sync_list_ob_item(&mut h, p);
    assert_eq!(list_size(&h, p), 2);
}

#[test]
fn dropping_the_last_reference_frees_an_object_and_what_it_owns() {
    let mut h = heap();
    let t = shared(7, Object::Tuple(vec![imm(Object::Int(1))]));
    let p = mirror_out(&mut h, &t);
    let e = word(&h, p, 24) as usize;
    assert_eq!(h.get_refcnt(e), 2);
    Py_IncRef(&mut h, p);
    Py_DecRef(&mut h, p);
    assert!(h.store(p).is_some());
    Py_DecRef(&mut h, p);
    assert!(h.store(p).is_none());
    assert!(h.store(e).is_none());
    assert!(!is_weavepy_owned(&h, p));
}

#[test]
fn extension_object_is_given_to_its_deallocator() {
    let mut h = heap();
    h.heads.insert(0x5000, PyObject { ob_refcnt: 1, ob_type: 0x7000 });
    Py_DecRef(&mut h, 0x5000);
    assert!(h.events.contains(&Event::Dealloc(0x5000)));
}

#[test]
fn bytes_are_pinned_and_stay_one_object() {
    let mut h = heap();
    let b = shared(4, Object::Bytes(b"xy".to_vec()));
    let p = mirror_out(&mut h, &b);
    assert!(is_scalar_pinned(&h, p));
    Py_DecRef(&mut h, p);
    assert!(h.store(p).is_some());
    assert_eq!(mirror_out(&mut h, &b), p);
    Py_DecRef(&mut h, p);
    sweep_scalar_pins(&mut h);
    assert!(h.store(p).is_none());
    assert_ne!(mirror_out(&mut h, &b), p);
}

#[test]
fn arguments_are_pinned_inside_their_scope_only() {
    let mut h = heap();
    let scope = enter_arg_pin(&mut h);
    let p = mirror_out(&mut h, &imm(Object::Int(5)));
    assert_eq!(mirror_out(&mut h, &imm(Object::Int(5))), p);
    scope.leave(&mut h);
    assert_ne!(mirror_out(&mut h, &imm(Object::Int(5))), p);
    assert!(scalar_pin_key(&shared(1, Object::List(Vec::new()))).is_none());
}

#[test]
fn argument_tuple_is_not_shared_and_pins_its_elements() {
    let mut h = heap();
    let t = shared(6, Object::Tuple(ints(&[5])));
    let a = args_tuple_out(&mut h, &t);
    let b = args_tuple_out(&mut h, &t);
    assert_ne!(a, b);
    assert_eq!(word(&h, a, 24), word(&h, b, 24));
}

#[test]
fn interned_texts_are_one_object_for_one_text() {
    let mut h = heap();
    let scope = enter_intern_scope(&mut h);
    let p = mirror_out(&mut h, &shared(1, Object::Str(vec!['k'])));
    let q = mirror_out(&mut h, &shared(2, Object::Str(vec!['k'])));
    scope.leave(&mut h);
    assert_eq!(p, q);
    assert_ne!(mirror_out(&mut h, &shared(3, Object::Str(vec!['k']))), p);
}

#[test]
fn late_end_spares_the_successor() {
    let mut h = heap();
    let l = shared(9, Object::List(Vec::new()));
    let p = mirror_out(&mut h, &l);
    unregister_list_box(&mut h, p);
    let q = mirror_out(&mut h, &l);
    assert_ne!(p, q);
    free_mirror(&mut h, p);
    assert_eq!(mirror_out(&mut h, &l), q);
}

#[test]
fn tuple_slots_are_read_and_replaced() {
    let mut h = heap();
    let p = mirror_out(&mut h, &shared(7, Object::Tuple(ints(&[1, 2]))));
    let q = mirror_out(&mut h, &imm(Object::Int(9)));
    assert!(tuple_store(&mut h, p, 1, q));
    assert!(!tuple_store(&mut h, p, 2, q));
    assert_eq!(ints_of(&native_of(&mut h, p).val), vec![1, 9]);
    assert_eq!(ints_of(&read_tuple(&mut h, p).val), vec![1, 9]);
    let l = mirror_out(&mut h, &shared(8, Object::List(ints(&[3]))));
    assert_eq!(ints_of(&read_list(&mut h, l).val), vec![3]);
}

#[test]
fn bytearray_fields_follow_the_vm() {
    let mut h = heap();
    h.facts.buffers.insert(4, (0x9000, 16));
    let p = mirror_out(&mut h, &shared(4, Object::ByteArray(vec![1, 2])));
    assert_eq!(word(&h, p, 16), 2);
    assert_eq!(word(&h, p, 24), 16);
    assert_eq!(word(&h, p, 32), 0x9000);
    sync_bytearray_boxes(&mut h, &vec![shared(4, Object::ByteArray(vec![1, 2, 3]))]);
    assert_eq!(word(&h, p, 16), 3);
}

#[test]
fn dict_size_is_refreshed() {
    let mut h = heap();
    let p = mirror_out(&mut h, &shared(4, Object::Dict(pairs(&[("a", 1), ("b", 2)]))));
    assert_eq!(word(&h, p, 16), 2);
    sync_dict_ma_used(&mut h, p, 5);
    assert_eq!(word(&h, p, 16), 5);
    h.put_cell(4, pairs(&[("c", 3)]));
    assert_eq!(pairs_of(&native_of(&mut h, p).val), vec![("c".to_string(), 3)]);
}

#[test]
fn singletons_cross_as_themselves() {
    let mut h = heap();
    let p = into_owned(&mut h, &imm(Object::PyNone));
    assert_eq!(p, 0x100);
    assert!(matches!(clone_object(&mut h, p).val, Object::PyNone));
    assert_eq!(into_owned(&mut h, &imm(Object::Bool(true))), 0x200);
    assert!(matches!(clone_object(&mut h, 0x300).val, Object::Bool(false)));
    assert_eq!(PyBool_FromLong(&mut h, 3), 0x200);
    assert_eq!(PyBool_FromLong(&mut h, 0), 0x300);
    assert!(matches!(clone_object(&mut h, 0).val, Object::PyNone));
    assert!(matches!(clone_object(&mut h, 0x5555).val, Object::Foreign(0x5555)));
}

#[test]
fn immortal_counts_do_not_move() {
    assert!(is_immortal_refcnt(IMMORTAL_REFCNT));
    assert!(!is_immortal_refcnt(1));
    let mut h = heap();
    h.heads.insert(0x100, PyObject { ob_refcnt: IMMORTAL_REFCNT, ob_type: 0 });
    Py_IncRef(&mut h, 0x100);
    Py_DecRef(&mut h, 0x100);
    Py_DecRef(&mut h, 0x100);
    assert_eq!(h.get_refcnt(0x100), IMMORTAL_REFCNT);
}

#[test]
fn minted_addresses_are_owned() {
    let mut h = heap();
    register_minted(&mut h, 0x8000);
    assert!(is_weavepy_owned(&h, 0x8000));
    assert!(!is_weavepy_owned(&h, 0x8001));
    unregister_minted(&mut h, 0x8000);
    assert!(!is_weavepy_owned(&h, 0x8000));
    register_minted(&mut h, 0);
    assert!(!is_weavepy_owned(&h, 0));
}

#[test]
fn modules_have_one_immortal_object() {
    let mut h = heap();
    let m = shared(12, Object::Module);
    let p = into_owned(&mut h, &m);
    Py_DecRef(&mut h, p);
    assert_eq!(into_owned(&mut h, &m), p);
    assert!(is_immortal_refcnt(h.get_refcnt(p)));
}

#[test]
fn exception_instances_show_their_arguments() {
    let mut h = heap();
    let args = shared(21, Object::Tuple(ints(&[4])));
    let e = shared(
        20,
        Object::Instance(InstInfo {
            body: 0,
            exception: true,
            stop: true,
            args: vec![args],
            value: vec![imm(Object::Int(4))],
            native: Vec::new(),
        }),
    );
    let p = into_owned(&mut h, &e);
    let t = word(&h, p, 24) as usize;
    assert_eq!(ints_of(&clone_object(&mut h, t).val), vec![4]);
    let v = word(&h, p, 72) as usize;
    assert!(matches!(clone_object(&mut h, v).val, Object::Int(4)));
    assert_eq!(into_owned(&mut h, &e), p);
    assert_eq!(h.get_refcnt(p), 2);
}

#[test]
fn instance_bodies_are_linked_until_freed() {
    let mut h = heap();
    h.facts.inline_types.insert(0x7000);
    let n = shared(
        30,
        Object::Instance(InstInfo {
            body: 0,
            exception: false,
            stop: false,
            args: Vec::new(),
            value: Vec::new(),
            native: Vec::new(),
        }),
    );
    let p = alloc_instance_body(&mut h, 0x7000, 64, &n);
    assert!(is_instance_body(&h, p));
    assert_eq!(h.store(p).unwrap().link, Link::Alive);
    free_instance_body(&mut h, p);
    assert!(h.store(p).is_none());
    assert!(!is_instance_body(&h, p));
}

fn name(s: &str) -> Vec<char> {
    s.chars().collect()
}

#[test]
fn a_call_with_one_argument_gives_its_references_back() {
    let mut h = heap();
    let me = into_owned(&mut h, &shared(9, Object::List(ints(&[1]))));
    let n = shared(9, Object::List(ints(&[1])));
    let f = open_call(&mut h, &CallShape::One, Some(&n), &vec![imm(Object::Bool(true))], &vec![]);
    assert_eq!(f.receiver, me);
    assert_eq!(f.argv, vec![0x200]);
    assert_eq!(f.nargs, 1);
    assert_eq!(f.keywords, 0);
    assert_eq!(h.get_refcnt(me), 2);
    let r = into_owned(&mut h, &imm(Object::Float(7)));
    match close_call(&mut h, &CallShape::One, &f, &name("f"), r, false) {
        Called::Returned(v) => assert!(matches!(v.val, Object::Float(7))),
        other => panic!("not a value: {other:?}"),
    }
    assert_eq!(h.get_refcnt(me), 1);
    assert!(h.store(r).is_none());
}

#[test]
fn a_fastcall_lays_keywords_behind_the_arguments() {
    let mut h = heap();
    let args = vec![imm(Object::PyNone), imm(Object::Bool(false)), imm(Object::Bool(true))];
    let names = vec![name("a"), name("b")];
    let shape = CallShape::Fastcall(true);
    let f = open_call(&mut h, &shape, None, &args, &names);
    assert_eq!(f.receiver, 0x100);
    assert_eq!(f.argv, vec![0x100, 0x300, 0x200]);
    assert_eq!(f.nargs, 1);
    match clone_object(&mut h, f.keywords).val {
        Object::Tuple(ks) => {
            assert!(matches!(&ks[0].val, Object::Str(s) if s == &name("a")));
            assert!(matches!(&ks[1].val, Object::Str(s) if s == &name("b")));
        }
        other => panic!("not a tuple: {other:?}"),
    }
    assert!(matches!(close_call(&mut h, &shape, &f, &name("f"), 0, true), Called::Pending));
    assert!(h.store(f.keywords).is_none());
}

#[test]
fn a_call_with_a_tuple_and_a_dict() {
    let mut h = heap();
    let args = vec![imm(Object::Bool(true)), imm(Object::Int(1)), imm(Object::Int(2))];
    let names = vec![name("k"), name("k")];
    let shape = CallShape::Tuple(true);
    let f = open_call(&mut h, &shape, None, &args, &names);
    match clone_object(&mut h, f.argv[0]).val {
        Object::Tuple(v) => {
            assert_eq!(v.len(), 1);
            assert!(matches!(v[0].val, Object::Bool(true)));
        }
        other => panic!("not a tuple: {other:?}"),
    }
    assert_eq!(
        pairs_of(&clone_object(&mut h, f.keywords).val),
        vec![("k".to_string(), 2)]
    );
    match close_call(&mut h, &shape, &f, &name("f"), 0, false) {
        Called::Failed(e) => {
            assert!(matches!(e.kind, ExcKind::TypeError));
            assert_eq!(e.msg, name("f() returned NULL without setting an exception"));
        }
        other => panic!("not a failure: {other:?}"),
    }
    assert!(h.store(f.argv[0]).is_none());
    assert!(h.store(f.keywords).is_none());
    let g = open_call(&mut h, &CallShape::Tuple(false), None, &args, &names);
    assert_eq!(g.keywords, 0);
    let n = open_call(&mut h, &CallShape::NoArgs, None, &vec![], &vec![]);
    assert_eq!((n.receiver, n.argv, n.nargs), (0x100, vec![0x100], 0));
}

#[test]
fn raw_blocks_are_integers_until_they_are_freed() {
    let mut h = heap();
    h.facts.raw_values.insert(0x9000, imm(Object::Int(77)));
    assert_eq!(_PyLong_New(&mut h, 0x9000).unwrap(), 0x9000);
    assert!(is_raw_long(&h, 0x9000));
    assert!(matches!(clone_object(&mut h, 0x9000).val, Object::Int(77)));
    Py_DecRef(&mut h, 0x9000);
    assert!(!is_raw_long(&h, 0x9000));
    assert_eq!(h.events.last(), Some(&Event::LibcFree(0x9000)));
    assert!(_PyLong_New(&mut h, 0).is_err());
    register_raw_long(&mut h, 5);
    assert!(take_raw_long(&mut h, 5));
    assert!(!take_raw_long(&mut h, 5));
}

#[test]
fn class_methods_wrap_what_stands_behind_the_callable() {
    let mut h = heap();
    let f = into_owned(&mut h, &shared(40, Object::Builtin));
    let p = PyClassMethod_New(&mut h, f).unwrap();
    assert!(p != f);
    match clone_object(&mut h, p).val {
        Object::ClassMethod(v) => {
            assert_eq!(v.len(), 1);
            assert_eq!(v[0].id, 40);
            assert!(matches!(v[0].val, Object::Builtin));
        }
        other => panic!("not a class method: {other:?}"),
    }
    assert_eq!(h.get_refcnt(p), 1);
    assert_eq!(h.get_refcnt(f), 1);
    assert_eq!(
        raised(PyClassMethod_New(&mut h, 0).unwrap_err()),
        (ExcKind::TypeError, "PyClassMethod_New: callable is NULL".to_string())
    );
}

#[test]
fn namespaces_are_new_objects() {
    let mut h = heap();
    let d = into_owned(&mut h, &shared(41, Object::Dict(pairs(&[("x", 1), ("y", 2)]))));
    let p = _PyNamespace_New(&mut h, d).unwrap();
    assert!(p != d);
    assert_eq!(
        pairs_of(&clone_object(&mut h, p).val),
        vec![("x".to_string(), 1), ("y".to_string(), 2)]
    );
    let q = _PyNamespace_New(&mut h, 0).unwrap();
    assert!(matches!(clone_object(&mut h, q).val, Object::Namespace(v) if v.is_empty()));
    let l = into_owned(&mut h, &shared(42, Object::List(ints(&[1]))));
    assert_eq!(
        raised(_PyNamespace_New(&mut h, l).unwrap_err()),
        (ExcKind::TypeError, "_PyNamespace_New: kwds must be a dict".to_string())
    );
}

#[test]
fn slices_of_lists_are_new_lists() {
    let mut h = heap();
    let p = into_owned(&mut h, &shared(43, Object::List(ints(&[1, 2, 3, 4]))));
    let q = PyList_GetSlice(&mut h, p, 1, 3).unwrap();
    assert!(p != q);
    assert_eq!(ints_of(&clone_object(&mut h, q).val), vec![2, 3]);
    let r = PyList_GetSlice(&mut h, p, -5, 99).unwrap();
    assert_eq!(ints_of(&clone_object(&mut h, r).val), vec![1, 2, 3, 4]);
    let e = PyList_GetSlice(&mut h, p, 3, 1).unwrap();
    assert!(ints_of(&clone_object(&mut h, e).val).is_empty());
    let d = into_owned(&mut h, &shared(44, Object::Dict(Vec::new())));
    assert_eq!(
        raised(PyList_GetSlice(&mut h, d, 0, 1).unwrap_err()),
        (ExcKind::TypeError, "PyList_GetSlice: expected list".to_string())
    );
}

#[test]
fn a_mirror_ends_after_what_it_owned() {
    let mut h = heap();
    let p = mirror_out(&mut h, &shared(7, Object::Tuple(vec![shared(8, Object::Str(name("x")))])));
    let mut s = h.take_store(p).unwrap();
    s.destructor = 0xd00d;
    h.put_store(p, s);
    h.events.clear();
    free_mirror(&mut h, p);
    assert_eq!(h.events[0], Event::Untether(p));
    assert_eq!(h.events[1], Event::Destroy(0xd00d, p));
    let inner = h.events.iter().position(|e| *e == Event::Dropped(8)).unwrap();
    assert!(inner > 1);
    assert_eq!(h.events.last(), Some(&Event::Dropped(7)));
    assert!(h.store(p).is_none());
    assert_eq!(h.ending.get(&p).unwrap().obj.id, 7);
    destructor_ran(&mut h, p);
    assert!(h.ending.is_empty());
}

#[test]
fn deep_tuples_are_read_to_the_bottom() {
    let mut h = heap();
    let mut p = mirror_out(&mut h, &imm(Object::Int(5)));
    for _ in 0..600 {
        let t = mirror_out(&mut h, &shared(0, Object::Tuple(vec![imm(Object::PyNone)])));
        assert!(tuple_store(&mut h, t, 0, p));
        p = t;
    }
    let mut v = clone_object(&mut h, p);
    for _ in 0..600 {
        v = match v.val {
            Object::Tuple(mut items) => items.remove(0),
            other => panic!("not a tuple: {other:?}"),
        };
    }
    assert!(matches!(v.val, Object::Int(5)));
}

#[test]
fn known_objects_come_back() {
    let mut h = heap();
    let text = shared(50, Object::Str(name("key")));
    let scope = enter_intern_scope(&mut h);
    let p = mirror_out(&mut h, &text);
    let q = mirror_out(&mut h, &shared(51, Object::Str(name("key"))));
    let r = mirror_out(&mut h, &shared(52, Object::Str(name("other"))));
    assert_eq!(p, q);
    assert!(p != r);
    scope.leave(&mut h);
    assert!(matches!(native_of(&mut h, q).val, Object::Str(s) if s == name("key")));
    let scope = enter_arg_pin(&mut h);
    let b = shared(53, Object::Bytes(vec![1, 2]));
    let x = mirror_out(&mut h, &b);
    assert_eq!(mirror_out(&mut h, &b), x);
    assert!(matches!(native_of(&mut h, x).val, Object::Bytes(v) if v == vec![1, 2]));
    scope.leave(&mut h);
    assert_eq!(h.get_refcnt(x), 2);
    let l = shared(54, Object::List(ints(&[3])));
    let y = mirror_out(&mut h, &l);
    assert_eq!(mirror_out(&mut h, &l), y);
    let back = clone_object(&mut h, y);
    assert_eq!(back.id, 54);
    assert_eq!(ints_of(&back.val), vec![3]);
}

fn pairs(entries: &[(&str, i64)]) -> Vec<Native> {
    let mut out = Vec::new();
    for (k, v) in entries {
        out.push(shared(900, Object::Str(name(k))));
        out.push(imm(Object::Int(*v)));
    }
    out
}

fn pairs_of(o: &Object) -> Vec<(String, i64)> {
    let items = match o {
        Object::Dict(v) | Object::Namespace(v) => v,
        other => panic!("neither a dict nor a namespace: {other:?}"),
    };
    items
        .chunks(2)
        .map(|p| match (&p[0].val, &p[1].val) {
            (Object::Str(k), Object::Int(v)) => (k.iter().collect(), *v),
            other => panic!("not an entry: {other:?}"),
        })
        .collect()
}

#[test]
fn keyword_dicts_keep_the_last_value() {
    let mut h = heap();
    assert_eq!(build_kwargs_dict(&mut h, &vec![], &vec![]), 0);
    let names = vec![name("a"), name("b"), name("a")];
    let vals = vec![imm(Object::Int(1)), imm(Object::Int(2)), imm(Object::Int(3))];
    let d = build_kwargs_dict(&mut h, &names, &vals);
    assert_eq!(word(&h, d, 16), 2);
    assert_eq!(
        pairs_of(&clone_object(&mut h, d).val),
        vec![("a".to_string(), 3), ("b".to_string(), 2)]
    );
}

#[test]
fn texts_are_appended_in_place() {
    let mut h = heap();
    let a = into_owned(&mut h, &shared(60, Object::Str(name("ab"))));
    let b = into_owned(&mut h, &shared(61, Object::Str(name("c"))));
    let (place, r) = PyUnicode_Append(&mut h, Some(a), b);
    assert!(r.is_ok());
    let p = place.unwrap();
    assert!(matches!(clone_object(&mut h, p).val, Object::Str(s) if s == name("abc")));
    assert!(h.store(a).is_none());
    assert_eq!(h.get_refcnt(b), 1);
    assert_eq!(PyUnicode_Append(&mut h, Some(p), 0).0, Some(p));
    assert_eq!(PyUnicode_Append(&mut h, None, b).0, None);
    let (place, r) = PyUnicode_Append(&mut h, Some(p), 0x200);
    assert_eq!(place, Some(0));
    assert_eq!(
        raised(r.unwrap_err()),
        (ExcKind::TypeError, "PyUnicode_Append: expected str".to_string())
    );
    assert!(h.store(p).is_none());
}

#[test]
fn clearing_a_list_empties_the_vm_list() {
    let mut h = heap();
    let p = into_owned(&mut h, &shared(62, Object::List(ints(&[1, 2]))));
    assert!(PyList_Clear(&mut h, p).is_ok());
    assert!(h.cell(62).unwrap().is_empty());
    assert!(ints_of(&clone_object(&mut h, p).val).is_empty());
    assert_eq!(
        raised(PyList_Clear(&mut h, 0x100).unwrap_err()),
        (ExcKind::TypeError, "PyList_Clear: expected list".to_string())
    );
}

#[test]
fn chaining_takes_the_reference() {
    let mut h = heap();
    let e = into_owned(&mut h, &instance(63));
    Py_IncRef(&mut h, e);
    Py_IncRef(&mut h, e);
    assert_eq!(_PyErr_ChainExceptions1(&mut h, e, Some(true)).unwrap().id, 63);
    assert_eq!(h.get_refcnt(e), 2);
    assert!(_PyErr_ChainExceptions1(&mut h, e, Some(false)).is_none());
    assert_eq!(h.get_refcnt(e), 1);
    assert!(_PyErr_ChainExceptions1(&mut h, e, None).is_none());
    assert!(h.store(e).is_none());
    assert!(_PyErr_ChainExceptions1(&mut h, 0, Some(true)).is_none());
}

#[test]
fn instances_without_a_body_cross_as_plain_objects() {
    let mut h = heap();
    h.facts.list_like.insert(0x7100);
    h.facts.type_of.insert(64, 0x7100);
    let p = into_owned(&mut h, &instance(64));
    assert!(p != 0);
    assert_eq!(h.get_type(p), 0x7100);
    h.facts.inline_types.insert(0x7200);
    h.facts.type_of.insert(65, 0x7200);
    assert_eq!(into_owned(&mut h, &instance(65)), 0);
}

fn instance(id: usize) -> Native {
    shared(
        id,
        Object::Instance(InstInfo {
            body: 0,
            exception: false,
            stop: false,
            args: Vec::new(),
            value: Vec::new(),
            native: Vec::new(),
        }),
    )
}

fn value_of(n: Native) -> Vec<Native> {
    match n.val {
        Object::Instance(i) => i.native,
        other => panic!("not an instance: {other:?}"),
    }
}

#[test]
fn text_subclass_takes_its_text_from_its_body_once() {
    let mut h = heap();
    h.facts.inline_types.insert(0x7000);
    h.facts.text_kin.insert(0x7000);
    let p = alloc_instance_body(&mut h, 0x7000, 64, &instance(30));
    assert!(value_of(native_of(&mut h, p)).is_empty());
    let mut s = h.take_store(p).unwrap();
    put_u64(&mut s.tail, 0, 2);
    put_u32(&mut s.tail, 16, pack_state(0, 1, true, true, false));
    s.tail[24] = b'h';
    s.tail[25] = b'i';
    h.put_store(p, s);
    match &value_of(clone_object(&mut h, p))[0].val {
        Object::Str(t) => assert_eq!(t, &vec!['h', 'i']),
        other => panic!("not a str: {other:?}"),
    }
    let mut s = h.take_store(p).unwrap();
    s.tail[24] = b'H';
    h.put_store(p, s);
    match &value_of(native_of(&mut h, p))[0].val {
        Object::Str(t) => assert_eq!(t, &vec!['h', 'i']),
        other => panic!("not a str: {other:?}"),
    }
}

#[test]
fn text_subclass_may_keep_its_data_elsewhere() {
    let mut h = heap();
    h.facts.inline_types.insert(0x7000);
    h.facts.text_kin.insert(0x7000);
    let p = alloc_instance_body(&mut h, 0x7000, 64, &instance(30));
    let mut s = h.take_store(p).unwrap();
    put_u64(&mut s.tail, 0, 2);
    put_u32(&mut s.tail, 16, pack_state(0, 2, false, false, false));
    h.put_store(p, s);
    assert!(value_of(native_of(&mut h, p)).is_empty());
    h.facts.far_texts.insert(p, vec![0xac, 0x20, 0x00, 0xd8]);
    match &value_of(native_of(&mut h, p))[0].val {
        Object::Str(t) => assert_eq!(t, &vec!['\u{20ac}', '\u{fffd}']),
        other => panic!("not a str: {other:?}"),
    }
}

#[test]
fn bytes_subclass_takes_its_bytes_from_its_body_once() {
    let mut h = heap();
    h.facts.inline_types.insert(0x7000);
    h.facts.bytes_kin.insert(0x7000);
    let p = alloc_instance_body(&mut h, 0x7000, 64, &instance(30));
    let mut s = h.take_store(p).unwrap();
    put_u64(&mut s.tail, 0, 3);
    s.tail[16] = 7;
    s.tail[18] = 9;
    h.put_store(p, s);
    for _ in 0..2 {
        match &value_of(native_of(&mut h, p))[0].val {
            Object::Bytes(b) => assert_eq!(b, &vec![7, 0, 9]),
            other => panic!("not bytes: {other:?}"),
        }
        let mut s = h.take_store(p).unwrap();
        s.tail[16] = 8;
        h.put_store(p, s);
    }
}

#[test]
fn tuple_subclass_takes_its_elements_from_its_body() {
    let mut h = heap();
    h.facts.inline_types.insert(0x7000);
    h.facts.tuple_kin.insert(0x7000);
    let p = alloc_instance_body(&mut h, 0x7000, 64, &instance(30));
    let q = into_owned(&mut h, &imm(Object::Int(5)));
    let mut s = h.take_store(p).unwrap();
    put_u64(&mut s.tail, 0, 2);
    put_u64(&mut s.tail, 8, q as u64);
    h.put_store(p, s);
    let v = value_of(native_of(&mut h, p));
    match &v[0].val {
        Object::Tuple(items) => {
            assert!(matches!(items[0].val, Object::Int(5)));
            assert!(matches!(items[1].val, Object::PyNone));
            assert_eq!(items.len(), 2);
        }
        other => panic!("not a tuple: {other:?}"),
    }
}

#[test]
fn text_under_construction_reads_as_written() {
    let mut h = heap();
    let p = PyUnicode_New(&mut h, 3, 0x7f);
    for (i, c) in ['a', 'b', 'c'].iter().enumerate() {
        assert!(PyUnicode_WriteChar(&mut h, p, i as isize, *c as u32).is_ok());
    }
    match native_of(&mut h, p).val {
        Object::Str(s) => assert_eq!(s, vec!['a', 'b', 'c']),
        other => panic!("not a str: {other:?}"),
    }
    let q = PyUnicode_New(&mut h, 3, 0x7f);
    assert_eq!(PyUnicode_CopyCharacters(&mut h, q, 0, p, 1, 2).unwrap(), 2);
    let r = resize_unicode(&mut h, q, 2);
    match native_of(&mut h, r).val {
        Object::Str(s) => assert_eq!(s, vec!['b', 'c']),
        other => panic!("not a str: {other:?}"),
    }
}

#[test]
fn text_under_construction_refuses_bad_writes() {
    let mut h = heap();
    let p = PyUnicode_New(&mut h, 2, 0x7f);
    assert_eq!(
        raised(PyUnicode_WriteChar(&mut h, p, 2, 65).unwrap_err()),
        (ExcKind::ValueError, "string index out of range".to_string())
    );
    assert_eq!(
        raised(PyUnicode_WriteChar(&mut h, p, 0, 0x100).unwrap_err()).1,
        "character does not fit in the string's storage"
    );
    assert_eq!(
        raised(PyUnicode_WriteChar(&mut h, p, -1, 65).unwrap_err()).1,
        "PyUnicode_WriteChar: invalid argument"
    );
    let i = mirror_out(&mut h, &imm(Object::Int(5)));
    assert_eq!(
        raised(PyUnicode_WriteChar(&mut h, i, 0, 65).unwrap_err()).1,
        "PyUnicode_WriteChar: target is not a writable unicode buffer"
    );
}

#[test]
fn watched_lists_are_bounded() {
    let mut h = heap();
    assert!(no_watched_lists(&h));
    for p in 1..=MACRO_WATCH_CAP + 1 {
        watch_list_for_macro_reads(&mut h, p);
        watch_list_for_macro_reads(&mut h, p);
    }
    assert_eq!(h.watched.len(), MACRO_WATCH_CAP);
    assert!(!h.watched.contains(&1));
    unwatch_list(&mut h, 2);
    assert!(!h.watched.contains(&2));
}

#[test]
fn slices_are_made_from_three_objects() {
    let mut h = heap();
    let a = mirror_out(&mut h, &imm(Object::Int(1)));
    let p = PySlice_New(&mut h, a, 0, 0, 40);
    let stop = word(&h, p, 24) as usize;
    assert_eq!(stop, 0x100);
    let start = word(&h, p, 16) as usize;
    assert!(matches!(clone_object(&mut h, start).val, Object::Int(1)));
    match native_of(&mut h, p).val {
        Object::Slice(v) => assert_eq!(v.len(), 3),
        other => panic!("not a slice: {other:?}"),
    }
}

#[test]
fn concat_and_del_releases_the_second() {
    let mut h = heap();
    let w = shared(5, Object::Bytes(b"cd".to_vec()));
    let p = mirror_out(&mut h, &w);
    Py_IncRef(&mut h, p);
    let left = Object::Bytes(b"ab".to_vec());
    let r = PyBytes_ConcatAndDel(&mut h, Some(&left), Some(&w.val), p);
    assert_eq!(r, Some(b"abcd".to_vec()));
    assert_eq!(h.get_refcnt(p), 1);
}

#[test]
fn objects_have_the_type_of_their_value() {
    let mut h = heap();
    h.facts.type_of.insert(77, 0x7777);
    assert_eq!(type_for_object(&h, &imm(Object::Int(1))), types().long_type);
    assert_eq!(type_for_object(&h, &shared(77, Object::Module)), 0x7777);
    assert_eq!(type_for_object(&h, &shared(78, Object::Module)), types().object_type);
}

#[test]
fn large_integers_have_three_digits() {
    let mut h = heap();
    let n = BigNum { sign: Sign::Minus, mag: vec![0, 0, 0, 0, 0, 0, 0, 0, 1] };
    let p = mirror_out(&mut h, &shared(2, Object::Long(n)));
    assert_eq!(word(&h, p, 16), 3 * 8 + 2);
    assert_eq!((half(&h, p, 24), half(&h, p, 28), half(&h, p, 32)), (0, 0, 16));
}
