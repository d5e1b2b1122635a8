//! What C code finds in the body of an object: each field holds, at CPython's
//! offset, what the VM object says.

use vstd::prelude::*;
use vstd::arithmetic::power2::*;
use vstd::utf8::*;
use crate::bignum;
use crate::bytes;
use crate::heap::StoreV;
use crate::layout;
use crate::layout::{
    FillEnv, BYTEARRAY_SIZE, COMPLEX_SIZE, DICT_SIZE, FLOAT_SIZE, HEAD, LIST_SIZE,
    MEMORYVIEW_SIZE, METHOD_SIZE, SET_SIZE, SLICE_SIZE,
};
use crate::mirror;
use crate::mypyc_tail;
use crate::value::{MemV, NatV, ObjV};

verus! {

/// A word reads back as it was written.
pub proof fn lemma_own_field(t: Seq<u8>, off: int, v: u64)
    requires
        HEAD <= off,
        off - HEAD + 8 <= t.len(),
    ensures
        layout::field(layout::with_field(t, off, v), off) == v as nat,
        layout::with_field(t, off, v).len() == t.len(),
{
    lemma2_to64_rest();
    bytes::lemma_word_put(t, off - HEAD, v as nat, 8);
}

/// Writing a word leaves the others alone.
pub proof fn lemma_other_field(t: Seq<u8>, off: int, v: u64, at: int)
    requires
        HEAD <= at,
        at - HEAD + 8 <= t.len(),
        at + 8 <= off || off + 8 <= at,
    ensures
        layout::field(layout::with_field(t, off, v), at) == layout::field(t, at),
{
    bytes::lemma_le_bytes(v as nat, 8);
    bytes::lemma_word_beside(t, off - HEAD, bytes::le_bytes(v as nat, 8), at - HEAD, 8);
}

/// A float's value stands at offset 16.
pub proof fn law_float_body(f: u64, env: FillEnv, kids: Seq<usize>)
    ensures
        layout::field(layout::body_tail(ObjV::Float(f), env, kids), 16) == f as nat,
{
    lemma_own_field(bytes::zeros((FLOAT_SIZE - HEAD) as nat), 16, f);
}

/// The parts of a complex number stand at offsets 16 and 24.
pub proof fn law_complex_body(re: u64, im: u64, env: FillEnv, kids: Seq<usize>)
    ensures
        layout::field(layout::body_tail(ObjV::Complex(re, im), env, kids), 16) == re as nat,
        layout::field(layout::body_tail(ObjV::Complex(re, im), env, kids), 24) == im as nat,
{
    let z = bytes::zeros((COMPLEX_SIZE - HEAD) as nat);
    lemma_own_field(z, 16, re);
    let a = layout::with_field(z, 16, re);
    lemma_own_field(a, 24, im);
    lemma_other_field(a, 24, im, 16);
}

/// An integer has a tag at offset 16, the number of digits times eight and the
/// sign, and from offset 24 on its 30-bit digits, which denote its magnitude.
pub proof fn law_integer_body(o: ObjV, env: FillEnv, kids: Seq<usize>)
    requires
        o is Int || o is Long,
        bignum::abs(layout::int_val(o)) < pow2(128),
    ensures
        ({
            let t = layout::body_tail(o, env, kids);
            let d = layout::body_digits(o);
            &&& layout::field(t, 16) == 8 * d.len() + layout::sign_field(layout::int_val(o))
            &&& bytes::units(t, 8, 4, d.len()) == bytes::nats32(d)
            &&& mypyc_tail::digits30(d) == bignum::abs(layout::int_val(o))
        }),
{
    let d = layout::body_digits(o);
    let mag = layout::body_mag(o);
    layout::law_digits_denote(mag);
    if layout::base_2_30(mag).len() == 0 {
        assert(d.drop_first() =~= Seq::<u32>::empty());
    }
    layout::lemma_digits_fit(o);
    let n = (layout::body_len(o) - HEAD) as nat;
    assert(n >= 8 + 4 * d.len());
    let z = bytes::zeros(n);
    let tag = (d.len() * 8 + layout::sign_field(layout::int_val(o))) as u64;
    lemma_own_field(z, 16, tag);
    let a = layout::with_field(z, 16, tag);
    let w = bytes::flat(bytes::nats32(d), 4);
    bytes::lemma_flat_len(bytes::nats32(d), 4);
    bytes::lemma_word_beside(a, 8, w, 0, 8);
    lemma2_to64();
    assert forall|i: int| 0 <= i < bytes::nats32(d).len() implies #[trigger] bytes::nats32(d)[i]
        < pow2(32) by {}
    bytes::lemma_units_put(a, 8, bytes::nats32(d), 4);
    assert(bignum::abs(layout::int_val(o)) % pow2(128) == bignum::abs(layout::int_val(o)))
        by (nonlinear_arith)
        requires
            bignum::abs(layout::int_val(o)) < pow2(128),
    ;
}

/// A bytes object has its length at offset 16, no hash at offset 24, and from
/// offset 32 on its bytes and a NUL.
pub proof fn law_bytes_body(b: Seq<u8>, env: FillEnv, kids: Seq<usize>)
    requires
        b.len() <= isize::MAX,
    ensures
        ({
            let t = layout::body_tail(ObjV::Bytes(b), env, kids);
            &&& layout::field(t, 16) == b.len()
            &&& layout::field(t, 24) == u64::MAX
            &&& layout::block_bytes(t) == Some(b)
            &&& t[(16 + b.len()) as int] == 0
        }),
{
    let n = (layout::body_len(ObjV::Bytes(b)) - HEAD) as nat;
    assert(n >= 17 + b.len());
    let z = bytes::zeros(n);
    lemma_own_field(z, 16, b.len() as u64);
    let a = layout::with_field(z, 16, b.len() as u64);
    lemma_own_field(a, 24, u64::MAX);
    lemma_other_field(a, 24, u64::MAX, 16);
    let c = layout::with_field(a, 24, u64::MAX);
    bytes::lemma_word_beside(c, 16, b, 0, 8);
    bytes::lemma_word_beside(c, 16, b, 8, 8);
    let t = bytes::put(c, 16, b);
    assert(t.subrange(16, (16 + b.len()) as int) =~= b);
    bytes::lemma_le_bytes(b.len() as nat, 8);
    bytes::lemma_le_bytes(u64::MAX as nat, 8);
}

/// Every code point is at most the largest one.
pub proof fn lemma_max_bounds(s: Seq<u32>, i: int)
    requires
        0 <= i < s.len(),
    ensures
        s[i] <= layout::max_cp(s),
    decreases s.len(),
{
    if i < s.len() - 1 {
        lemma_max_bounds(s.drop_last(), i);
    }
}

/// The largest of code points is at most any bound of them.
pub proof fn lemma_max_within(s: Seq<u32>, bound: u32)
    requires
        forall|i: int| 0 <= i < s.len() ==> s[i] <= bound,
    ensures
        layout::max_cp(s) <= bound,
    decreases s.len(),
{
    if s.len() > 0 {
        lemma_max_within(s.drop_last(), bound);
    }
}

/// The block of a text holds its length and its code points.
pub proof fn lemma_text_block(cps: Seq<u32>, hash: i64, n: nat)
    requires
        cps.len() <= isize::MAX,
        forall|i: int| 0 <= i < cps.len() ==> cps[i] <= 0x10_ffff,
        n == layout::text_size(cps.len(), layout::form_of(layout::max_cp(cps))) - HEAD,
    ensures
        ({
            let t = layout::text_tail(cps, layout::max_cp(cps), hash, n);
            let f = layout::form_of(layout::max_cp(cps));
            &&& layout::text_fits(t)
            &&& layout::field(t, 16) == cps.len()
            &&& layout::field(t, 24) == (hash as u64) as nat
            &&& layout::text_state(t) == layout::state_word(0, f.kind as int, true, f.ascii, false)
            &&& layout::block_text(t) == Some(layout::text_of(cps))
        }),
{
    let f = layout::form_of(layout::max_cp(cps));
    lemma_max_within(cps, 0x10_ffff);
    let w = f.width as nat;
    assert((cps.len() + 1) * w == cps.len() * w + w) by (nonlinear_arith);
    let z = bytes::zeros(n);
    lemma_own_field(z, 16, cps.len() as u64);
    let a = layout::with_field(z, 16, cps.len() as u64);
    lemma_own_field(a, 24, hash as u64);
    lemma_other_field(a, 24, hash as u64, 16);
    let b = layout::with_field(a, 24, hash as u64);
    let state = layout::state_word(0, f.kind as int, true, f.ascii, false) as u32;
    lemma2_to64();
    bytes::lemma_le_bytes(state as nat, 4);
    bytes::lemma_word_put(b, 16, state as nat, 4);
    bytes::lemma_word_beside(b, 16, bytes::le_bytes(state as nat, 4), 0, 8);
    bytes::lemma_word_beside(b, 16, bytes::le_bytes(state as nat, 4), 8, 8);
    let c = layout::with_half(b, 32, state);
    let u = bytes::nats32(cps);
    let data = bytes::flat(u, w);
    bytes::lemma_flat_len(u, w);
    bytes::lemma_word_beside(c, f.data_off - HEAD, data, 0, 8);
    bytes::lemma_word_beside(c, f.data_off - HEAD, data, 8, 8);
    bytes::lemma_word_beside(c, f.data_off - HEAD, data, 16, 4);
    let t = bytes::put(c, f.data_off - HEAD, data);
    assert(t == layout::text_tail(cps, layout::max_cp(cps), hash, n));
    assert forall|i: int| 0 <= i < u.len() implies #[trigger] u[i] < pow2(8 * w) by {
        lemma_max_bounds(cps, i);
        assert(pow2(8) == 0x100 && pow2(16) == 0x1_0000 && pow2(32) == 0x1_0000_0000);
    }
    bytes::lemma_units_put(c, f.data_off - HEAD, u, w);
    layout::law_state_word(f.kind as int, true, f.ascii, false);
    let kind = layout::state_kind(layout::text_state(t));
    assert(kind == f.kind);
    assert(layout::unit_width(kind) == w);
    let got = layout::read_cps(t, kind, layout::data_offset(t) - HEAD, layout::text_len(t));
    assert(got.len() == cps.len());
    assert forall|i: int| 0 <= i < cps.len() implies #[trigger] got[i] == cps[i] by {
        assert(bytes::units(t, f.data_off - HEAD, w, u.len())[i] == u[i]);
    }
    assert(got =~= cps);
}

/// A text's block holds its length, its hash, its state and its characters, and
/// reads back as the text.
pub proof fn law_text_body(s: Seq<char>, env: FillEnv, kids: Seq<usize>)
    requires
        s.len() <= isize::MAX,
    ensures
        ({
            let t = layout::body_tail(ObjV::Str(s), env, kids);
            let f = layout::form_of(layout::max_cp(layout::cps_of(s)));
            &&& layout::text_fits(t)
            &&& layout::field(t, 16) == s.len()
            &&& layout::field(t, 24) == (env.hash as u64) as nat
            &&& layout::text_state(t) == layout::state_word(0, f.kind as int, true, f.ascii, false)
            &&& layout::block_text(t) == Some(ObjV::Str(s))
        }),
{
    let cps = layout::cps_of(s);
    let n = (layout::body_len(ObjV::Str(s)) - HEAD) as nat;
    assert forall|i: int| 0 <= i < cps.len() implies cps[i] <= 0x10_ffff by {
        char_is_scalar(s[i]);
    }
    lemma_text_block(cps, env.hash, n);
    assert forall|i: int| 0 <= i < cps.len() implies is_scalar(#[trigger] cps[i]) by {
        char_is_scalar(s[i]);
    }
    assert forall|i: int| 0 <= i < cps.len() implies (#[trigger] cps[i]) as char == s[i] by {
        char_u32_cast(s[i], cps[i]);
    }
    assert(cps.map_values(|c: u32| c as char) =~= s);
}

/// A text with surrogates reads back from its block as well.
pub proof fn law_wide_text_body(s: Seq<u32>, env: FillEnv, kids: Seq<usize>)
    requires
        s.len() <= isize::MAX,
        forall|i: int| 0 <= i < s.len() ==> s[i] <= 0x10_ffff,
        !layout::all_scalars(s),
    ensures
        layout::text_fits(layout::body_tail(ObjV::WStr(s), env, kids)),
        layout::block_text(layout::body_tail(ObjV::WStr(s), env, kids)) == Some(ObjV::WStr(s)),
{
    lemma_text_block(s, env.hash, (layout::body_len(ObjV::WStr(s)) - HEAD) as nat);
}

/// A tuple has its length at offset 16 and from offset 24 on the objects of its
/// elements. The same objects are recorded beside it.
pub proof fn law_tuple_body(s: StoreV, items: Seq<NatV>, env: FillEnv, kids: Seq<usize>)
    requires
        kids.len() == items.len(),
        items.len() <= isize::MAX,
        s.tail == layout::body_tail(ObjV::Tuple(items), env, kids),
        s.aux == layout::body_aux(ObjV::Tuple(items), kids),
    ensures
        layout::field(s.tail, 16) == items.len(),
        mirror::tuple_ptrs_of(s) == kids,
        mirror::snapshot_of(s) == kids,
        s.aux.len() == 8 * kids.len(),
{
    let n = (layout::body_len(ObjV::Tuple(items)) - HEAD) as nat;
    let z = bytes::zeros(n);
    lemma_own_field(z, 16, items.len() as u64);
    let a = layout::with_field(z, 16, items.len() as u64);
    let w = bytes::flat(bytes::nats(kids), 8);
    bytes::lemma_flat_len(bytes::nats(kids), 8);
    bytes::lemma_word_beside(a, 8, w, 0, 8);
    bytes::lemma_slots_put(a, 8, kids);
    lemma_slots_flat(kids);
}

/// Addresses in a buffer of their own read back as written.
proof fn lemma_slots_flat(ps: Seq<usize>)
    ensures
        mirror::slot_bytes(ps).len() == 8 * ps.len(),
        bytes::slots(mirror::slot_bytes(ps), 0, ps.len()) == ps,
{
    let w = mirror::slot_bytes(ps);
    bytes::lemma_flat_len(bytes::nats(ps), 8);
    assert(bytes::put(w, 0, w) =~= w);
    bytes::lemma_slots_put(w, 0, ps);
}

/// A list has its length at offset 16, the address of its slots at offset 24 and
/// their number at offset 32. The slots hold the objects of its elements.
pub proof fn law_list_body(s: StoreV, items: Seq<NatV>, env: FillEnv, kids: Seq<usize>)
    requires
        kids.len() == items.len(),
        items.len() <= isize::MAX,
        items.len() > 0 ==> env.aux != 0,
        s.tail == layout::body_tail(ObjV::List(items), env, kids),
        s.aux == layout::body_aux(ObjV::List(items), kids),
    ensures
        layout::field(s.tail, 16) == items.len(),
        layout::field(s.tail, 24) == (if items.len() == 0 {
            0
        } else {
            env.aux as nat
        }),
        layout::field(s.tail, 32) == items.len(),
        mirror::list_ptrs_of(s) == kids,
{
    let z = bytes::zeros((LIST_SIZE - HEAD) as nat);
    let n = items.len() as u64;
    let v = if items.len() == 0 {
        0
    } else {
        env.aux as u64
    };
    lemma_own_field(z, 16, n);
    let a = layout::with_field(z, 16, n);
    lemma_own_field(a, 24, v);
    lemma_other_field(a, 24, v, 16);
    let b = layout::with_field(a, 24, v);
    lemma_own_field(b, 32, n);
    lemma_other_field(b, 32, n, 16);
    lemma_other_field(b, 32, n, 24);
    lemma_slots_flat(kids);
    if items.len() == 0 {
        assert(kids =~= Seq::<usize>::empty());
    }
}

/// A bound method has its function at offset 16 and its receiver at offset 24.
pub proof fn law_method_body(v: Seq<NatV>, env: FillEnv, kids: Seq<usize>)
    requires
        kids.len() == 2,
    ensures
        layout::field(layout::body_tail(ObjV::BoundMethod(v), env, kids), 16) == kids[0] as nat,
        layout::field(layout::body_tail(ObjV::BoundMethod(v), env, kids), 24) == kids[1] as nat,
{
    let z = bytes::zeros((METHOD_SIZE - HEAD) as nat);
    lemma_own_field(z, 16, kids[0] as u64);
    let a = layout::with_field(z, 16, kids[0] as u64);
    lemma_own_field(a, 24, kids[1] as u64);
    lemma_other_field(a, 24, kids[1] as u64, 16);
}

/// A slice has start, stop and step at offsets 16, 24 and 32.
pub proof fn law_slice_body(v: Seq<NatV>, env: FillEnv, kids: Seq<usize>)
    requires
        kids.len() == 3,
    ensures
        layout::field(layout::body_tail(ObjV::Slice(v), env, kids), 16) == kids[0] as nat,
        layout::field(layout::body_tail(ObjV::Slice(v), env, kids), 24) == kids[1] as nat,
        layout::field(layout::body_tail(ObjV::Slice(v), env, kids), 32) == kids[2] as nat,
{
    let z = bytes::zeros((SLICE_SIZE - HEAD) as nat);
    lemma_own_field(z, 16, kids[0] as u64);
    let a = layout::with_field(z, 16, kids[0] as u64);
    lemma_own_field(a, 24, kids[1] as u64);
    lemma_other_field(a, 24, kids[1] as u64, 16);
    let b = layout::with_field(a, 24, kids[1] as u64);
    lemma_own_field(b, 32, kids[2] as u64);
    lemma_other_field(b, 32, kids[2] as u64, 16);
    lemma_other_field(b, 32, kids[2] as u64, 24);
}

/// A dict has its number of entries at offset 16.
pub proof fn law_dict_body(entries: Seq<NatV>, env: FillEnv, kids: Seq<usize>)
    requires
        entries.len() / 2 <= u64::MAX,
    ensures
        layout::field(layout::body_tail(ObjV::Dict(entries), env, kids), 16) == entries.len() / 2,
{
    lemma_own_field(bytes::zeros((DICT_SIZE - HEAD) as nat), 16, (entries.len() / 2) as u64);
}

/// A set has its number of elements at offset 24, and the address of its table,
/// which lies inside it, at offset 40.
pub proof fn law_set_body(o: ObjV, n: usize, env: FillEnv, kids: Seq<usize>)
    requires
        o == ObjV::PySet(n) || o == ObjV::FrozenSet(n),
        env.at + SET_SIZE <= usize::MAX,
    ensures
        layout::field(layout::body_tail(o, env, kids), 16) == n as nat,
        layout::field(layout::body_tail(o, env, kids), 24) == n as nat,
        layout::field(layout::body_tail(o, env, kids), 40) == env.at + layout::SET_TABLE,
{
    let z = bytes::zeros((SET_SIZE - HEAD) as nat);
    let at = (env.at + layout::SET_TABLE) as u64;
    lemma_own_field(z, 16, n as u64);
    let a = layout::with_field(z, 16, n as u64);
    lemma_own_field(a, 24, n as u64);
    lemma_other_field(a, 24, n as u64, 16);
    let b = layout::with_field(a, 24, n as u64);
    lemma_other_field(b, 32, 7, 16);
    lemma_other_field(b, 32, 7, 24);
    let c = layout::with_field(b, 32, 7);
    lemma_own_field(c, 40, at);
    lemma_other_field(c, 40, at, 16);
    lemma_other_field(c, 40, at, 24);
    let d = layout::with_field(c, 40, at);
    lemma_other_field(d, 48, u64::MAX, 16);
    lemma_other_field(d, 48, u64::MAX, 24);
    lemma_other_field(d, 48, u64::MAX, 40);
}

/// A byte array has its length at offset 16, its capacity at offset 24, and the
/// address of its bytes at offsets 32 and 40.
pub proof fn law_bytearray_body(z: Seq<u8>, len: nat, buffer: usize, capacity: usize)
    requires
        z.len() == BYTEARRAY_SIZE - HEAD,
        len <= isize::MAX,
    ensures
        ({
            let t = layout::bytearray_tail(z, len, buffer, capacity);
            let data = if len == 0 {
                0
            } else {
                buffer as nat
            };
            &&& t.len() == z.len()
            &&& layout::field(t, 16) == len
            &&& layout::field(t, 24) == capacity as nat
            &&& layout::field(t, 32) == data
            &&& layout::field(t, 40) == data
        }),
{
    let data = if len == 0 {
        0
    } else {
        buffer as u64
    };
    lemma_own_field(z, 16, len as u64);
    let a = layout::with_field(z, 16, len as u64);
    lemma_own_field(a, 24, capacity as u64);
    lemma_other_field(a, 24, capacity as u64, 16);
    let b = layout::with_field(a, 24, capacity as u64);
    lemma_own_field(b, 32, data);
    lemma_other_field(b, 32, data, 16);
    lemma_other_field(b, 32, data, 24);
    let c = layout::with_field(b, 32, data);
    lemma_own_field(c, 40, data);
    lemma_other_field(c, 40, data, 16);
    lemma_other_field(c, 40, data, 24);
    lemma_other_field(c, 40, data, 32);
    let d = layout::with_field(c, 40, data);
    lemma_other_field(d, 48, 0, 16);
    lemma_other_field(d, 48, 0, 24);
    lemma_other_field(d, 48, 0, 32);
    lemma_other_field(d, 48, 0, 40);
}


/// Writing half a word leaves the words beside it alone.
proof fn lemma_beside_half(t: Seq<u8>, off: int, v: u32, at: int)
    requires
        HEAD <= off,
        HEAD <= at,
        at - HEAD + 8 <= t.len(),
        at + 8 <= off || off + 4 <= at,
    ensures
        layout::field(layout::with_half(t, off, v), at) == layout::field(t, at),
        layout::with_half(t, off, v).len() == t.len(),
{
    bytes::lemma_le_bytes(v as nat, 4);
    bytes::lemma_word_beside(t, off - HEAD, bytes::le_bytes(v as nat, 4), at - HEAD, 8);
}

/// Half a word reads back as it was written, and writing one leaves the others alone.
proof fn lemma_own_half(t: Seq<u8>, off: int, v: u32)
    requires
        HEAD <= off,
        off - HEAD + 4 <= t.len(),
    ensures
        bytes::word(layout::with_half(t, off, v), off - HEAD, 4) == v as nat,
{
    lemma2_to64();
    bytes::lemma_word_put(t, off - HEAD, v as nat, 4);
}

proof fn lemma_half_stays(t: Seq<u8>, off: int, w: Seq<u8>, at: int)
    requires
        HEAD <= off,
        HEAD <= at,
        at - HEAD + 4 <= t.len(),
        at + 4 <= off || off + w.len() <= at,
    ensures
        bytes::word(bytes::put(t, off - HEAD, w), at - HEAD, 4) == bytes::word(t, at - HEAD, 4),
{
    bytes::lemma_word_beside(t, off - HEAD, w, at - HEAD, 4);
}

/// The words of signed numbers are below the bound of a word.
proof fn lemma_signed_words(s: Seq<i64>)
    ensures
        forall|i: int| 0 <= i < s.len() ==> #[trigger] layout::nats64(s)[i] < pow2(64),
        layout::nats64(s).len() == s.len(),
{
    lemma2_to64_rest();
}

/// What lies beside a memory view: its shape, its strides, its data, its format and a
/// NUL, one after the other.
proof fn lemma_mv_parts(m: MemV)
    ensures
        ({
            let x = layout::mv_aux(m);
            let nd = m.shape.len() as int;
            let data = if m.released {
                Seq::<u8>::empty()
            } else {
                m.data
            };
            let end = 16 * nd + data.len() + m.format.len();
            &&& x.len() > end
            &&& bytes::units(x, 0, 8, m.shape.len()) == layout::nats64(m.shape)
            &&& bytes::units(x, 8 * nd, 8, m.shape.len()) == layout::nats64(layout::mv_strides(m))
            &&& x.subrange(16 * nd, 16 * nd + data.len()) == data
            &&& x.subrange(16 * nd + data.len(), end) == m.format
            &&& x[end] == 0
        }),
{
    let nd = m.shape.len() as int;
    let data = layout::mv_data(m);
    let size = layout::aux_len(ObjV::MemoryView(m));
    let end = 16 * nd + data.len() + m.format.len();
    layout::law_rounding(end + 1, 8);
    let z = bytes::zeros(size as nat);
    let sh = layout::nats64(m.shape);
    let st = layout::nats64(layout::mv_strides(m));
    lemma_signed_words(m.shape);
    lemma_signed_words(layout::mv_strides(m));
    bytes::lemma_flat_len(sh, 8);
    bytes::lemma_flat_len(st, 8);
    let a = bytes::put(z, 0, bytes::flat(sh, 8));
    bytes::lemma_units_put(z, 0, sh, 8);
    let b = bytes::put(a, 8 * nd, bytes::flat(st, 8));
    bytes::lemma_units_put(a, 8 * nd, st, 8);
    let c = bytes::put(b, 16 * nd, data);
    let x = bytes::put(c, 16 * nd + data.len(), m.format);
    assert(x == layout::mv_aux(m));
    assert forall|i: int| 0 <= i < nd implies bytes::word(x, 8 * i, 8) == sh[i] && bytes::word(
        x,
        8 * nd + 8 * i,
        8,
    ) == st[i] by {
        assert(bytes::units(a, 0, 8, sh.len())[i] == sh[i]);
        assert(bytes::units(b, 8 * nd, 8, st.len())[i] == st[i]);
        bytes::lemma_word_beside(a, 8 * nd, bytes::flat(st, 8), 8 * i, 8);
        bytes::lemma_word_beside(b, 16 * nd, data, 8 * i, 8);
        bytes::lemma_word_beside(c, 16 * nd + data.len(), m.format, 8 * i, 8);
        bytes::lemma_word_beside(b, 16 * nd, data, 8 * nd + 8 * i, 8);
        bytes::lemma_word_beside(c, 16 * nd + data.len(), m.format, 8 * nd + 8 * i, 8);
    }
    assert forall|i: int| 0 <= i < nd implies #[trigger] bytes::units(x, 0, 8, m.shape.len())[i]
        == sh[i] by {
        assert(bytes::word(x, 8 * i, 8) == sh[i]);
    }
    assert forall|i: int| 0 <= i < nd implies #[trigger] bytes::units(
        x,
        8 * nd,
        8,
        m.shape.len(),
    )[i] == st[i] by {
        assert(bytes::word(x, 8 * nd + 8 * i, 8) == st[i]);
    }
    assert(bytes::units(x, 0, 8, m.shape.len()) =~= sh);
    assert(bytes::units(x, 8 * nd, 8, m.shape.len()) =~= st);
    assert(x.subrange(16 * nd, 16 * nd + data.len()) =~= data);
    assert(x.subrange(16 * nd + data.len(), end) =~= m.format);
}

/// The fields of a memory view.
proof fn lemma_mv_fields(m: MemV, aux: usize)
    requires
        m.shape.len() <= isize::MAX,
        aux + layout::aux_len(ObjV::MemoryView(m)) <= usize::MAX,
    ensures
        ({
            let t = layout::mv_tail(m, aux);
            let nd = m.shape.len();
            &&& t.len() == MEMORYVIEW_SIZE - HEAD
            &&& layout::field(t, 16) == nd
            &&& layout::field(t, 32) == u64::MAX
            &&& layout::field(t, 56) == aux + 16 * nd
            &&& layout::field(t, 72) == m.len
            &&& layout::field(t, 80) == (if m.itemsize == 0 {
                1
            } else {
                m.itemsize as nat
            })
            &&& layout::field(t, 96) == aux + 16 * nd + layout::mv_data(m).len()
            &&& nd > 0 ==> layout::field(t, 104) == aux && layout::field(t, 112) == aux + 8 * nd
            &&& nd == 0 ==> layout::field(t, 104) == 0 && layout::field(t, 112) == 0
            &&& layout::field(t, 24) == 0
            &&& layout::field(t, 48) == 0
            &&& layout::field(t, 64) == 0
            &&& layout::field(t, 120) == 0
            &&& layout::field(t, 128) == 0
            &&& layout::field(t, 136) == 0
            &&& bytes::word(t, 40 - HEAD, 4) == layout::mv_flags(m) as nat
            &&& bytes::word(t, 88 - HEAD, 4) == (if m.readonly {
                1nat
            } else {
                0nat
            })
            &&& bytes::word(t, 92 - HEAD, 4) == (nd as u32) as nat
        }),
{
    let nd = m.shape.len() as int;
    let n = layout::mv_data(m).len();
    layout::law_rounding(16 * nd + n + m.format.len() + 1, 8);
    let z = bytes::zeros((MEMORYVIEW_SIZE - HEAD) as nat);
    lemma_zero_field(z, 104);
    lemma_zero_field(z, 112);
    lemma_zero_field(z, 24);
    lemma_zero_field(z, 48);
    lemma_zero_field(z, 64);
    lemma_zero_field(z, 120);
    lemma_zero_field(z, 128);
    lemma_zero_field(z, 136);
    let item = if m.itemsize < 1 {
        1
    } else {
        m.itemsize as u64
    };
    let ro: u32 = if m.readonly {
        1
    } else {
        0
    };
    let a = layout::with_field(z, 16, nd as u64);
    let b = layout::with_field(a, 32, u64::MAX);
    let c = layout::with_half(b, 40, layout::mv_flags(m));
    let d = layout::with_field(c, 56, (aux + 16 * nd) as u64);
    let e = layout::with_field(d, 72, m.len as u64);
    let f = layout::with_field(e, 80, item);
    let g = layout::with_half(f, 88, ro);
    let h = layout::with_half(g, 92, nd as u32);
    let i = layout::with_field(h, 96, (aux + 16 * nd + n) as u64);
    let j = layout::with_field(i, 104, aux as u64);
    let k = layout::with_field(j, 112, (aux + 8 * nd) as u64);
    let t = layout::mv_tail(m, aux);
    assert(t == if nd > 0 {
        k
    } else {
        i
    });
    lemma_own_field(z, 16, nd as u64);
    lemma_own_field(a, 32, u64::MAX);
    lemma_own_half(b, 40, layout::mv_flags(m));
    lemma_own_field(c, 56, (aux + 16 * nd) as u64);
    lemma_own_field(d, 72, m.len as u64);
    lemma_own_field(e, 80, item);
    lemma_own_half(f, 88, ro);
    lemma_own_half(g, 92, nd as u32);
    lemma_own_field(h, 96, (aux + 16 * nd + n) as u64);
    lemma_own_field(i, 104, aux as u64);
    lemma_own_field(j, 112, (aux + 8 * nd) as u64);
    let at = seq![16int, 32, 56, 72, 80, 96, 104, 112, 24, 48, 64, 120, 128, 136];
    assert forall|q: int| 0 <= q < at.len() implies ({
        let o = #[trigger] at[q];
        &&& o != 16 ==> layout::field(a, o) == layout::field(z, o)
        &&& o != 32 ==> layout::field(b, o) == layout::field(a, o)
        &&& layout::field(c, o) == layout::field(b, o)
        &&& o != 56 ==> layout::field(d, o) == layout::field(c, o)
        &&& o != 72 ==> layout::field(e, o) == layout::field(d, o)
        &&& o != 80 ==> layout::field(f, o) == layout::field(e, o)
        &&& layout::field(g, o) == layout::field(f, o)
        &&& layout::field(h, o) == layout::field(g, o)
        &&& o != 96 ==> layout::field(i, o) == layout::field(h, o)
        &&& o != 104 ==> layout::field(j, o) == layout::field(i, o)
        &&& o != 112 ==> layout::field(k, o) == layout::field(j, o)
    }) by {
        let o = at[q];
        if o != 16 {
            lemma_other_field(z, 16, nd as u64, o);
        }
        if o != 32 {
            lemma_other_field(a, 32, u64::MAX, o);
        }
        lemma_beside_half(b, 40, layout::mv_flags(m), o);
        if o != 56 {
            lemma_other_field(c, 56, (aux + 16 * nd) as u64, o);
        }
        if o != 72 {
            lemma_other_field(d, 72, m.len as u64, o);
        }
        if o != 80 {
            lemma_other_field(e, 80, item, o);
        }
        lemma_beside_half(f, 88, ro, o);
        lemma_beside_half(g, 92, nd as u32, o);
        if o != 96 {
            lemma_other_field(h, 96, (aux + 16 * nd + n) as u64, o);
        }
        if o != 104 {
            lemma_other_field(i, 104, aux as u64, o);
        }
        if o != 112 {
            lemma_other_field(j, 112, (aux + 8 * nd) as u64, o);
        }
    }
    assert(at[0] == 16 && at[1] == 32 && at[2] == 56 && at[3] == 72 && at[4] == 80 && at[5] == 96
        && at[6] == 104 && at[7] == 112);
    assert(at[8] == 24 && at[9] == 48 && at[10] == 64 && at[11] == 120 && at[12] == 128 && at[13]
        == 136);
    bytes::lemma_le_bytes((aux + 16 * nd) as u64 as nat, 8);
    bytes::lemma_le_bytes(m.len as u64 as nat, 8);
    bytes::lemma_le_bytes(item as nat, 8);
    bytes::lemma_le_bytes(ro as nat, 4);
    bytes::lemma_le_bytes(nd as u32 as nat, 4);
    bytes::lemma_le_bytes((aux + 16 * nd + n) as u64 as nat, 8);
    bytes::lemma_le_bytes(aux as u64 as nat, 8);
    bytes::lemma_le_bytes((aux + 8 * nd) as u64 as nat, 8);
    lemma_half_stays(c, 56, bytes::le_bytes((aux + 16 * nd) as u64 as nat, 8), 40);
    lemma_half_stays(d, 72, bytes::le_bytes(m.len as u64 as nat, 8), 40);
    lemma_half_stays(e, 80, bytes::le_bytes(item as nat, 8), 40);
    lemma_half_stays(f, 88, bytes::le_bytes(ro as nat, 4), 40);
    lemma_half_stays(g, 92, bytes::le_bytes(nd as u32 as nat, 4), 40);
    lemma_half_stays(h, 96, bytes::le_bytes((aux + 16 * nd + n) as u64 as nat, 8), 40);
    lemma_half_stays(i, 104, bytes::le_bytes(aux as u64 as nat, 8), 40);
    lemma_half_stays(j, 112, bytes::le_bytes((aux + 8 * nd) as u64 as nat, 8), 40);
    lemma_half_stays(g, 92, bytes::le_bytes(nd as u32 as nat, 4), 88);
    lemma_half_stays(h, 96, bytes::le_bytes((aux + 16 * nd + n) as u64 as nat, 8), 88);
    lemma_half_stays(i, 104, bytes::le_bytes(aux as u64 as nat, 8), 88);
    lemma_half_stays(j, 112, bytes::le_bytes((aux + 8 * nd) as u64 as nat, 8), 88);
    lemma_half_stays(h, 96, bytes::le_bytes((aux + 16 * nd + n) as u64 as nat, 8), 92);
    lemma_half_stays(i, 104, bytes::le_bytes(aux as u64 as nat, 8), 92);
    lemma_half_stays(j, 112, bytes::le_bytes((aux + 8 * nd) as u64 as nat, 8), 92);
}

/// A word of zero bytes is zero.
proof fn lemma_zero_field(z: Seq<u8>, off: int)
    requires
        HEAD <= off,
        off - HEAD + 8 <= z.len(),
        z == bytes::zeros(z.len()),
    ensures
        layout::field(z, off) == 0,
{
    assert(z.subrange(off - HEAD, off - HEAD + 8) =~= bytes::zeros(8));
    bytes::lemma_zero_word(8);
}

/// The bytes that a pointer leads to, in a buffer at an address.
pub open spec fn behind(x: Seq<u8>, at: usize, pointer: nat, n: nat) -> Seq<u8> {
    x.subrange(pointer - at, pointer - at + n)
}

/// The signed words that a pointer leads to, in a buffer at an address.
pub open spec fn words_behind(x: Seq<u8>, at: usize, pointer: nat, n: nat) -> Seq<i64> {
    Seq::new(n, |i: int| bytes::word(x, pointer - at + 8 * i, 8) as u64 as i64)
}

/// What C code finds through the fields of a memory view: the data behind the pointer at
/// offset 56, the format and a NUL behind the one at 96, and as many extents and strides
/// as the view has dimensions behind those at 104 and 112. The length is at offset 72,
/// the size of an item at 80, whether it is read-only at 88 and the number of dimensions
/// at 92. A view that was released shows no data. The flags at offset 40 say 16 for it,
/// and for contiguous data 1, with 2 more for at most one dimension. A size of zero is
/// shown as one, a stride that is missing as zero, and there is no hash and no owner.
pub proof fn law_memoryview_body(m: MemV, env: FillEnv, kids: Seq<usize>)
    requires
        m.shape.len() < 0x1_0000_0000,
        env.aux + layout::aux_len(ObjV::MemoryView(m)) <= usize::MAX,
    ensures
        ({
            let t = layout::body_tail(ObjV::MemoryView(m), env, kids);
            let x = layout::body_aux(ObjV::MemoryView(m), kids);
            let nd = m.shape.len();
            &&& !m.released ==> behind(x, env.aux, layout::field(t, 56), m.data.len()) == m.data
            &&& behind(x, env.aux, layout::field(t, 96), m.format.len()) == m.format
            &&& x[layout::field(t, 96) - env.aux + m.format.len()] == 0
            &&& nd > 0 ==> words_behind(x, env.aux, layout::field(t, 104), nd) == m.shape
            &&& nd > 0 && m.strides.len() == nd ==> words_behind(
                x,
                env.aux,
                layout::field(t, 112),
                nd,
            ) == m.strides
            &&& nd == 0 ==> layout::field(t, 104) == 0 && layout::field(t, 112) == 0
            &&& layout::field(t, 16) == nd
            &&& layout::field(t, 72) == m.len
            &&& m.itemsize > 0 ==> layout::field(t, 80) == m.itemsize
            &&& m.itemsize == 0 ==> layout::field(t, 80) == 1
            &&& forall|i: int|
                0 <= i < nd ==> #[trigger] words_behind(x, env.aux, layout::field(t, 112), nd)[i]
                    == (if i < m.strides.len() {
                    m.strides[i]
                } else {
                    0
                })
            &&& layout::field(t, 32) == u64::MAX
            &&& layout::field(t, 24) == 0
            &&& layout::field(t, 48) == 0
            &&& layout::field(t, 64) == 0
            &&& layout::field(t, 120) == 0
            &&& layout::field(t, 128) == 0
            &&& layout::field(t, 136) == 0
            &&& m.released ==> bytes::word(t, 40 - HEAD, 4) == 16
            &&& !m.released && m.c_contiguous && nd <= 1 ==> bytes::word(t, 40 - HEAD, 4) == 3
            &&& !m.released && m.c_contiguous && nd > 1 ==> bytes::word(t, 40 - HEAD, 4) == 1
            &&& !m.released && !m.c_contiguous ==> bytes::word(t, 40 - HEAD, 4) == 0
            &&& bytes::word(t, 88 - HEAD, 4) <= 1
            &&& (bytes::word(t, 88 - HEAD, 4) != 0) == m.readonly
            &&& bytes::word(t, 92 - HEAD, 4) == nd
            &&& (bytes::word(t, 40 - HEAD, 4) / 16 % 2 == 1) == m.released
            &&& (bytes::word(t, 40 - HEAD, 4) % 2 == 1) == (!m.released && m.c_contiguous)
        }),
{
    lemma_mv_parts(m);
    lemma_mv_fields(m, env.aux);
    let x = layout::mv_aux(m);
    let t = layout::mv_tail(m, env.aux);
    let nd = m.shape.len();
    lemma_signed_words(m.shape);
    assert forall|v: i64| #[trigger] ((v as u64) as nat) as u64 as i64 == v by {
        assert((v as u64) as i64 == v) by (bit_vector);
    }
    if nd > 0 {
        let got = words_behind(x, env.aux, layout::field(t, 104), nd);
        assert forall|i: int| 0 <= i < nd implies #[trigger] got[i] == m.shape[i] by {
            assert(bytes::units(x, 0, 8, nd)[i] == layout::nats64(m.shape)[i]);
        }
        assert(got =~= m.shape);
        let all = words_behind(x, env.aux, layout::field(t, 112), nd);
        lemma_signed_words(layout::mv_strides(m));
        assert forall|i: int| 0 <= i < nd implies #[trigger] all[i] == (if i < m.strides.len() {
            m.strides[i]
        } else {
            0
        }) by {
            assert(bytes::units(x, 8 * nd as int, 8, nd)[i] == layout::nats64(
                layout::mv_strides(m),
            )[i]);
        }
        if m.strides.len() == nd {
            assert(layout::mv_strides(m) =~= m.strides);
            let steps = words_behind(x, env.aux, layout::field(t, 112), nd);
            assert forall|i: int| 0 <= i < nd implies #[trigger] steps[i] == m.strides[i] by {
                assert(bytes::units(x, 8 * nd as int, 8, nd)[i] == layout::nats64(m.strides)[i]);
            }
            assert(steps =~= m.strides);
        }
    }
}

} // verus!
