//! The slot table of a heap type: slot identifiers to function addresses.

use vstd::prelude::*;

verus! {

/// The address stored in a slot; zero where it is empty.
#[derive(Clone, Copy, Debug, PartialEq, Eq, Structural)]
pub struct SlotPtr(pub usize);

impl SlotPtr {
    /// Whether the slot is empty.
    pub fn is_null(self) -> (r: bool)
        ensures
            r == (self.0 == 0),
    {
        self.0 == 0
    }

    /// The address.
    pub fn as_void(self) -> (r: usize)
        ensures
            r == self.0,
    {
        self.0
    }
}

/// The number of entries in a slot table.
pub const SLOT_TABLE_SIZE: usize = 128;

/// The flag of a type that was made at run time.
pub const PY_TPFLAGS_HEAPTYPE: u64 = 512;

pub const Py_bf_getbuffer: i32 = 1;

pub const Py_bf_releasebuffer: i32 = 2;

pub const Py_mp_ass_subscript: i32 = 3;

pub const Py_mp_length: i32 = 4;

pub const Py_mp_subscript: i32 = 5;

pub const Py_nb_absolute: i32 = 6;

pub const Py_nb_add: i32 = 7;

pub const Py_nb_and: i32 = 8;

pub const Py_nb_bool: i32 = 9;

pub const Py_nb_divmod: i32 = 10;

pub const Py_nb_float: i32 = 11;

pub const Py_nb_floor_divide: i32 = 12;

pub const Py_nb_index: i32 = 13;

pub const Py_nb_inplace_add: i32 = 14;

pub const Py_nb_inplace_and: i32 = 15;

pub const Py_nb_inplace_floor_divide: i32 = 16;

pub const Py_nb_inplace_lshift: i32 = 17;

pub const Py_nb_inplace_multiply: i32 = 18;

pub const Py_nb_inplace_or: i32 = 19;

pub const Py_nb_inplace_power: i32 = 20;

pub const Py_nb_inplace_remainder: i32 = 21;

pub const Py_nb_inplace_rshift: i32 = 22;

pub const Py_nb_inplace_subtract: i32 = 23;

pub const Py_nb_inplace_true_divide: i32 = 24;

pub const Py_nb_inplace_xor: i32 = 25;

pub const Py_nb_int: i32 = 26;

pub const Py_nb_invert: i32 = 27;

pub const Py_nb_lshift: i32 = 28;

pub const Py_nb_multiply: i32 = 29;

pub const Py_nb_negative: i32 = 30;

pub const Py_nb_or: i32 = 31;

pub const Py_nb_positive: i32 = 32;

pub const Py_nb_power: i32 = 33;

pub const Py_nb_remainder: i32 = 34;

pub const Py_nb_rshift: i32 = 35;

pub const Py_nb_subtract: i32 = 36;

pub const Py_nb_true_divide: i32 = 37;

pub const Py_nb_xor: i32 = 38;

pub const Py_sq_ass_item: i32 = 39;

pub const Py_sq_concat: i32 = 40;

pub const Py_sq_contains: i32 = 41;

pub const Py_sq_inplace_concat: i32 = 42;

pub const Py_sq_inplace_repeat: i32 = 43;

pub const Py_sq_item: i32 = 44;

pub const Py_sq_length: i32 = 45;

pub const Py_sq_repeat: i32 = 46;

pub const Py_tp_alloc: i32 = 47;

pub const Py_tp_base: i32 = 48;

pub const Py_tp_bases: i32 = 49;

pub const Py_tp_call: i32 = 50;

pub const Py_tp_clear: i32 = 51;

pub const Py_tp_dealloc: i32 = 52;

pub const Py_tp_del: i32 = 53;

pub const Py_tp_descr_get: i32 = 54;

pub const Py_tp_descr_set: i32 = 55;

pub const Py_tp_doc: i32 = 56;

pub const Py_tp_getattr: i32 = 57;

pub const Py_tp_getattro: i32 = 58;

pub const Py_tp_hash: i32 = 59;

pub const Py_tp_init: i32 = 60;

pub const Py_tp_is_gc: i32 = 61;

pub const Py_tp_iter: i32 = 62;

pub const Py_tp_iternext: i32 = 63;

pub const Py_tp_methods: i32 = 64;

pub const Py_tp_new: i32 = 65;

pub const Py_tp_repr: i32 = 66;

pub const Py_tp_richcompare: i32 = 67;

pub const Py_tp_setattr: i32 = 68;

pub const Py_tp_setattro: i32 = 69;

pub const Py_tp_str: i32 = 70;

pub const Py_tp_traverse: i32 = 71;

pub const Py_tp_members: i32 = 72;

pub const Py_tp_getset: i32 = 73;

pub const Py_tp_free: i32 = 74;

pub const Py_tp_finalize: i32 = 75;

pub const Py_tp_vectorcall: i32 = 76;

pub const Py_am_await: i32 = 77;

pub const Py_am_aiter: i32 = 78;

pub const Py_am_anext: i32 = 79;

pub const Py_nb_matrix_multiply: i32 = 80;

pub const Py_nb_inplace_matrix_multiply: i32 = 81;

pub const Py_am_send: i32 = 82;

/// A slot table.
#[derive(Debug)]
pub struct SlotTable {
    pub slots: Vec<SlotPtr>,
}

/// The identifier has an entry.
pub open spec fn in_table(id: i32) -> bool {
    0 < id < SLOT_TABLE_SIZE
}

/// The identifiers of the buffer protocol.
pub open spec fn buffer_slot(id: i32) -> bool {
    Py_bf_getbuffer <= id <= Py_bf_releasebuffer
}

/// The identifiers of the mapping protocol.
pub open spec fn mapping_slot(id: i32) -> bool {
    Py_mp_ass_subscript <= id <= Py_mp_subscript
}

/// The identifiers of the number protocol.
pub open spec fn number_slot(id: i32) -> bool {
    Py_nb_absolute <= id <= Py_nb_xor || Py_nb_matrix_multiply <= id
        <= Py_nb_inplace_matrix_multiply
}

/// The identifiers of the sequence protocol.
pub open spec fn sequence_slot(id: i32) -> bool {
    Py_sq_ass_item <= id <= Py_sq_repeat
}

impl SlotTable {
    /// The table has its full size.
    pub open spec fn wf(&self) -> bool {
        self.slots@.len() == SLOT_TABLE_SIZE
    }

    /// What is stored for an identifier; empty out of range.
    pub open spec fn at(&self, id: i32) -> SlotPtr {
        if in_table(id) {
            self.slots@[id as int]
        } else {
            SlotPtr(0)
        }
    }

    /// A table with every slot empty.
    pub fn empty() -> (r: SlotTable)
        ensures
            r.wf(),
            forall|i: int| 0 <= i < SLOT_TABLE_SIZE ==> r.slots@[i] == SlotPtr(0),
    {
        let mut slots: Vec<SlotPtr> = Vec::new();
        while slots.len() < SLOT_TABLE_SIZE
            invariant
                slots@.len() <= SLOT_TABLE_SIZE,
                forall|i: int| 0 <= i < slots@.len() ==> slots@[i] == SlotPtr(0),
            decreases SLOT_TABLE_SIZE - slots@.len(),
        {
            slots.push(SlotPtr(0));
        }
        SlotTable { slots }
    }

    /// Store a function. An identifier out of range is dropped.
    pub fn install(&mut self, id: i32, pfunc: usize)
        requires
            old(self).wf(),
        ensures
            final(self).wf(),
            final(self).slots@ == (if in_table(id) {
                old(self).slots@.update(id as int, SlotPtr(pfunc))
            } else {
                old(self).slots@
            }),
    {
        if id <= 0 || id as i64 >= SLOT_TABLE_SIZE as i64 {
            return;
        }
        self.slots.set(id as usize, SlotPtr(pfunc));
    }

    /// Read a slot; empty where it is unset or out of range.
    pub fn get(&self, id: i32) -> (r: SlotPtr)
        requires
            self.wf(),
        ensures
            r == self.at(id),
    {
        if id <= 0 || id as i64 >= SLOT_TABLE_SIZE as i64 {
            return SlotPtr(0);
        }
        self.slots[id as usize]
    }

    fn any_in(&self, lo: i32, hi: i32) -> (r: bool)
        requires
            self.wf(),
            hi < i32::MAX,
        ensures
            r == exists|id: i32| lo <= id <= hi && (#[trigger] self.at(id)).0 != 0,
    {
        let mut id: i32 = lo;
        while id <= hi
            invariant
                self.wf(),
                hi < i32::MAX,
                lo <= id,
                id <= hi + 1 || id == lo,
                forall|k: i32| lo <= k < id ==> (#[trigger] self.at(k)).0 == 0,
            decreases hi + 1 - id,
        {
            if !self.get(id).is_null() {
                return true;
            }
            id = id + 1;
        }
        false
    }

    /// Whether any slot of the buffer protocol is filled.
    pub fn has_buffer_protocol(&self) -> (r: bool)
        requires
            self.wf(),
        ensures
            r == exists|id: i32| buffer_slot(id) && (#[trigger] self.at(id)).0 != 0,
    {
        self.any_in(Py_bf_getbuffer, Py_bf_releasebuffer)
    }

    /// Whether any slot of the number protocol is filled.
    pub fn has_number_protocol(&self) -> (r: bool)
        requires
            self.wf(),
        ensures
            r == exists|id: i32| number_slot(id) && (#[trigger] self.at(id)).0 != 0,
    {
        self.any_in(Py_nb_absolute, Py_nb_xor) || self.any_in(
            Py_nb_matrix_multiply,
            Py_nb_inplace_matrix_multiply,
        )
    }

    /// Whether any slot of the sequence protocol is filled.
    pub fn has_sequence_protocol(&self) -> (r: bool)
        requires
            self.wf(),
        ensures
            r == exists|id: i32| sequence_slot(id) && (#[trigger] self.at(id)).0 != 0,
    {
        self.any_in(Py_sq_ass_item, Py_sq_repeat)
    }

    /// Whether any slot of the mapping protocol is filled.
    pub fn has_mapping_protocol(&self) -> (r: bool)
        requires
            self.wf(),
        ensures
            r == exists|id: i32| mapping_slot(id) && (#[trigger] self.at(id)).0 != 0,
    {
        self.any_in(Py_mp_ass_subscript, Py_mp_subscript)
    }
}

impl Default for SlotTable {
    fn default() -> (r: SlotTable)
        ensures
            r.wf(),
            forall|i: int| 0 <= i < SLOT_TABLE_SIZE ==> r.slots@[i] == SlotPtr(0),
    {
        SlotTable::empty()
    }
}

/// Whether a type carries a slot table: only a type made at run time does.
/// `flags` are the flags of the type, or `None` for a NULL type.
pub fn slot_table_for(flags: Option<u64>) -> (r: bool)
    ensures
        r == (flags matches Some(f) && (f / PY_TPFLAGS_HEAPTYPE) % 2 == 1),
{
    match flags {
        None => false,
        Some(f) => (f / PY_TPFLAGS_HEAPTYPE) % 2 == 1,
    }
}

/// What is installed in range is what is looked up, and no other slot changes.
pub proof fn law_install_then_get(before: SlotTable, after: SlotTable, id: i32, pfunc: usize, k: i32)
    requires
        before.wf(),
        after.wf(),
        in_table(id),
        after.slots@ == before.slots@.update(id as int, SlotPtr(pfunc)),
    ensures
        after.at(id) == SlotPtr(pfunc),
        k != id ==> after.at(k) == before.at(k),
{
}

/// The slots of a protocol have the numbers that `typeslots.h` gives them: 1 and 2 for
/// buffers, 3 to 5 for mappings, 6 to 38, 80 and 81 for numbers, and 39 to 46 for
/// sequences. No slot belongs to two protocols.
pub proof fn law_protocols(id: i32)
    ensures
        buffer_slot(id) <==> id == 1 || id == 2,
        mapping_slot(id) <==> id == 3 || id == 4 || id == 5,
        number_slot(id) <==> 6 <= id <= 38 || id == 80 || id == 81,
        sequence_slot(id) <==> 39 <= id <= 46,
        !(buffer_slot(id) && (mapping_slot(id) || number_slot(id) || sequence_slot(id))),
        !(mapping_slot(id) && (number_slot(id) || sequence_slot(id))),
        !(number_slot(id) && sequence_slot(id)),
        buffer_slot(id) || mapping_slot(id) || number_slot(id) || sequence_slot(id) ==> in_table(
            id,
        ),
{
}

} // verus!
