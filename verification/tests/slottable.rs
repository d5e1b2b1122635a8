//! The table of type slots.

use weavepy_capi::slottable::{
    Py_bf_getbuffer, Py_mp_subscript, Py_nb_add, Py_sq_item, Py_tp_call, Py_tp_init, SlotTable,
    SLOT_TABLE_SIZE,
};

#[test]
fn install_and_lookup_round_trip() {
    let mut t = SlotTable::empty();
    let p = 0x1234_usize;
    t.install(Py_tp_call, p);
    assert_eq!(t.get(Py_tp_call).0, p);
    assert!(t.get(Py_tp_init).is_null());
}

#[test]
fn out_of_range_install_is_noop() {
    let mut t = SlotTable::empty();
    let p = 0x1234_usize;
    t.install(0, p);
    t.install(SLOT_TABLE_SIZE as i32, p);
    t.install(SLOT_TABLE_SIZE as i32 + 7, p);
    for i in 0..SLOT_TABLE_SIZE {
        assert!(t.slots[i].is_null());
    }
}

#[test]
fn has_protocol_flags_track_installation() {
    let mut t = SlotTable::empty();
    assert!(!t.has_buffer_protocol());
    assert!(!t.has_number_protocol());
    assert!(!t.has_sequence_protocol());
    assert!(!t.has_mapping_protocol());

    t.install(Py_bf_getbuffer, 1);
    assert!(t.has_buffer_protocol());

    let mut t2 = SlotTable::empty();
    t2.install(Py_nb_add, 1);
    assert!(t2.has_number_protocol());

    let mut t3 = SlotTable::empty();
    t3.install(Py_sq_item, 1);
    assert!(t3.has_sequence_protocol());

    let mut t4 = SlotTable::empty();
    t4.install(Py_mp_subscript, 1);
    assert!(t4.has_mapping_protocol());
}
