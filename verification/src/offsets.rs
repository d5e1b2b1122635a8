//! Where C code finds what: the bytes of a body at the offsets that CPython's
//! headers give, counted from the start of the object.

use vstd::prelude::*;
use vstd::arithmetic::power2::*;
use crate::bytes;
use crate::crossing;
use crate::crossing::Place;
use crate::descriptors;
use crate::fields;
use crate::fields::{lemma_other_field, lemma_own_field};
use crate::layout;
use crate::layout::{FillEnv, HEAD};
use crate::mypyc_tail;
use crate::object::ExcFields;
use crate::value;
use crate::value::{NatV, ObjV};

verus! {

/// The number in the `n` bytes at an offset of a body, of which `t` is what
/// follows the sixteen bytes of the head.
pub open spec fn stored(t: Seq<u8>, off: int, n: int) -> nat {
    bytes::word(t, off - 16, n)
}

/// A number is stored with its low byte first.
pub proof fn law_low_byte_first(t: Seq<u8>, off: int, n: nat)
    requires
        16 <= off,
        off + n + 1 <= t.len() + 16,
    ensures
        stored(t, off, 0) == 0,
        stored(t, off, (n + 1) as int) == t[off - 16] + 256 * stored(t, off + 1, n as int),
        layout::field(t, off) == stored(t, off, 8),
{
    let s = t.subrange(off - 16, off - 16 + n + 1);
    assert(s.drop_first() =~= t.subrange(off - 15, off - 15 + n));
    assert(t.subrange(off - 16, off - 16) =~= Seq::<u8>::empty());
}

proof fn lemma_zeros(b: Seq<u8>)
    requires
        forall|i: int| 0 <= i < b.len() ==> #[trigger] b[i] == 0,
    ensures
        value::le_value(b) == 0,
    decreases b.len(),
{
    if b.len() > 0 {
        assert forall|i: int| 0 <= i < b.drop_first().len() implies #[trigger] b.drop_first()[i]
            == 0 by {
            assert(b.drop_first()[i] == b[i + 1]);
        }
        lemma_zeros(b.drop_first());
    }
}

/// The characters of a text in its block, and the zero behind them.
proof fn lemma_text_data(cps: Seq<u32>, hash: i64, n: nat, i: int)
    requires
        cps.len() <= isize::MAX,
        forall|k: int| 0 <= k < cps.len() ==> #[trigger] cps[k] <= 0x10_ffff,
        n == layout::text_size(cps.len(), layout::form_of(layout::max_cp(cps))) - HEAD,
        0 <= i <= cps.len(),
    ensures
        ({
            let t = layout::text_tail(cps, layout::max_cp(cps), hash, n);
            let f = layout::form_of(layout::max_cp(cps));
            stored(t, f.data_off + i * f.width, f.width as int) == (if i < cps.len() {
                cps[i] as nat
            } else {
                0
            })
        }),
{
    let f = layout::form_of(layout::max_cp(cps));
    fields::lemma_max_within(cps, 0x10_ffff);
    let w = f.width as nat;
    let len = cps.len();
    assert((len + 1) * w == len * w + w) by (nonlinear_arith);
    let z = bytes::zeros(n);
    let a = layout::with_field(z, 16, len as u64);
    let b = layout::with_field(a, 24, hash as u64);
    let state = layout::state_word(0, f.kind as int, true, f.ascii, false) as u32;
    let c = layout::with_half(b, 32, state);
    let u = bytes::nats32(cps);
    let data = bytes::flat(u, w);
    bytes::lemma_flat_len(u, w);
    bytes::lemma_le_bytes(len as nat, 8);
    bytes::lemma_le_bytes((hash as u64) as nat, 8);
    bytes::lemma_le_bytes(state as nat, 4);
    let off = f.data_off - HEAD;
    let t = bytes::put(c, off, data);
    assert(t == layout::text_tail(cps, layout::max_cp(cps), hash, n));
    lemma2_to64();
    assert forall|k: int| 0 <= k < u.len() implies #[trigger] u[k] < pow2(8 * w) by {
        fields::lemma_max_bounds(cps, k);
        assert(pow2(8) == 0x100 && pow2(16) == 0x1_0000 && pow2(32) == 0x1_0000_0000);
    }
    bytes::lemma_units_put(c, off, u, w);
    if i < len {
        assert(bytes::units(t, off, w, u.len())[i] == u[i]);
    } else {
        let tail = t.subrange(off + i * w, off + i * w + w);
        assert forall|k: int| 0 <= k < tail.len() implies #[trigger] tail[k] == 0 by {
            assert(tail[k] == t[off + i * w + k]);
        }
        lemma_zeros(tail);
    }
}

/// Every character is below a bound.
pub open spec fn below(s: Seq<char>, bound: int) -> bool {
    forall|i: int| 0 <= i < s.len() ==> (#[trigger] s[i] as u32) < bound
}

proof fn lemma_bound(s: Seq<char>, bound: u32)
    requires
        bound > 0,
    ensures
        below(s, bound as int) <==> layout::max_cp(layout::cps_of(s)) < bound,
{
    let cps = layout::cps_of(s);
    if below(s, bound as int) {
        assert forall|k: int| 0 <= k < cps.len() implies #[trigger] cps[k] <= (bound - 1) as u32 by {
            assert((s[k] as u32) < bound);
        }
        fields::lemma_max_within(cps, (bound - 1) as u32);
    }
    if layout::max_cp(cps) < bound {
        assert forall|i: int| 0 <= i < s.len() implies (#[trigger] s[i] as u32) < bound by {
            fields::lemma_max_bounds(cps, i);
            assert(cps[i] == s[i] as u32);
        }
    }
}

/// The narrowest form that holds a text is taken: ASCII from offset 40 on, else one,
/// two or four bytes for each character from offset 56 on. The state at offset 32
/// says which. A zero follows the last character.
pub proof fn law_text_bytes(s: Seq<char>, env: FillEnv, kids: Seq<usize>, i: int)
    requires
        s.len() <= isize::MAX,
        0 <= i <= s.len(),
    ensures
        ({
            let t = layout::body_tail(ObjV::Str(s), env, kids);
            let c = if i < s.len() {
                s[i] as nat
            } else {
                0
            };
            if below(s, 0x80) {
                stored(t, 32, 4) == 4 + 32 + 64 && stored(t, 40 + i, 1) == c
            } else if below(s, 0x100) {
                stored(t, 32, 4) == 4 + 32 && stored(t, 56 + i, 1) == c
            } else if below(s, 0x1_0000) {
                stored(t, 32, 4) == 8 + 32 && stored(t, 56 + 2 * i, 2) == c
            } else {
                stored(t, 32, 4) == 16 + 32 && stored(t, 56 + 4 * i, 4) == c
            }
        }),
{
    let cps = layout::cps_of(s);
    let n = (layout::body_len(ObjV::Str(s)) - HEAD) as nat;
    assert forall|k: int| 0 <= k < cps.len() implies #[trigger] cps[k] <= 0x10_ffff by {
        vstd::utf8::char_is_scalar(s[k]);
    }
    lemma_text_data(cps, env.hash, n, i);
    fields::law_text_body(s, env, kids);
    lemma_bound(s, 0x80);
    lemma_bound(s, 0x100);
    lemma_bound(s, 0x1_0000);
    if i < s.len() {
        assert(cps[i] == s[i] as u32);
    }
    let t = layout::body_tail(ObjV::Str(s), env, kids);
    lemma2_to64();
    crate::bignum::lemma_le_bound(t.subrange(16, 20));
}

/// The bytes of a bytes object stand from offset 32 on, with a zero behind them.
pub proof fn law_bytes_bytes(b: Seq<u8>, env: FillEnv, kids: Seq<usize>, i: int)
    requires
        b.len() <= isize::MAX,
        0 <= i < b.len(),
    ensures
        layout::body_tail(ObjV::Bytes(b), env, kids)[32 - 16 + i] == b[i],
        layout::body_tail(ObjV::Bytes(b), env, kids)[32 - 16 + b.len()] == 0,
{
    fields::law_bytes_body(b, env, kids);
    let t = layout::body_tail(ObjV::Bytes(b), env, kids);
    assert(layout::block_bytes(t)->Some_0[i] == t[16 + i]);
}

/// The element `i` of a tuple stands at offset `24 + 8 * i`.
pub proof fn law_tuple_slots(items: Seq<NatV>, env: FillEnv, kids: Seq<usize>, i: int)
    requires
        kids.len() == items.len(),
        0 <= i < kids.len(),
        items.len() <= isize::MAX,
    ensures
        stored(layout::body_tail(ObjV::Tuple(items), env, kids), 24 + 8 * i, 8) == kids[i] as nat,
        stored(layout::body_tail(ObjV::Tuple(items), env, kids), 16, 8) == items.len(),
{
    let n = (layout::body_len(ObjV::Tuple(items)) - HEAD) as nat;
    let z = bytes::zeros(n);
    lemma_own_field(z, 16, items.len() as u64);
    let a = layout::with_field(z, 16, items.len() as u64);
    let u = bytes::nats(kids);
    bytes::lemma_flat_len(u, 8);
    bytes::lemma_word_beside(a, 8, bytes::flat(u, 8), 0, 8);
    lemma2_to64_rest();
    assert forall|k: int| 0 <= k < u.len() implies #[trigger] u[k] < pow2(8 * 8) by {
        assert(u[k] == kids[k] as nat);
    }
    bytes::lemma_units_put(a, 8, u, 8);
    let t = bytes::put(a, 8, bytes::flat(u, 8));
    assert(bytes::units(t, 8, 8, u.len())[i] == u[i]);
}

/// The element `i` of a list stands `8 * i` bytes behind the start of its slots.
pub proof fn law_list_slots(items: Seq<NatV>, kids: Seq<usize>, i: int)
    requires
        kids.len() == items.len(),
        0 <= i < kids.len(),
    ensures
        bytes::word(layout::body_aux(ObjV::List(items), kids), 8 * i, 8) == kids[i] as nat,
{
    let u = bytes::nats(kids);
    let w = bytes::flat(u, 8);
    bytes::lemma_flat_len(u, 8);
    lemma2_to64_rest();
    assert forall|k: int| 0 <= k < u.len() implies #[trigger] u[k] < pow2(8 * 8) by {
        assert(u[k] == kids[k] as nat);
    }
    assert(bytes::put(w, 0, w) =~= w);
    bytes::lemma_units_put(w, 0, u, 8);
    assert(bytes::units(w, 0, 8, u.len())[i] == u[i]);
}

/// The tag and the digits of an integer's body read back as the integer.
pub proof fn law_integer_reads_back(v: i64, env: FillEnv, kids: Seq<usize>)
    ensures
        ({
            let t = layout::body_tail(ObjV::Int(v), env, kids);
            let d = layout::body_digits(ObjV::Int(v));
            &&& stored(t, 16, 8) == 8 * d.len() + (if v == 0 {
                1int
            } else if v < 0 {
                2
            } else {
                0
            })
            &&& forall|i: int|
                0 <= i < d.len() ==> #[trigger] stored(t, 24 + 4 * i, 4) == d[i] as nat
            &&& mypyc_tail::digits30(d) == (if v < 0 {
                -v
            } else {
                v as int
            })
        }),
{
    let o = ObjV::Int(v);
    let t = layout::body_tail(o, env, kids);
    let d = layout::body_digits(o);
    lemma2_to64();
    lemma2_to64_rest();
    lemma_pow2_adds(64, 64);
    assert(pow2(128) >= pow2(64)) by {
        lemma_pow2_strictly_increases(64, 128);
    }
    fields::law_integer_body(o, env, kids);
    assert forall|i: int| 0 <= i < d.len() implies #[trigger] stored(t, 24 + 4 * i, 4)
        == d[i] as nat by {
        assert(bytes::units(t, 8, 4, d.len())[i] == bytes::nats32(d)[i]);
    }
}

/// A set has its table of eight inside itself, at offset 64, and no hash yet.
pub proof fn law_set_table(o: ObjV, n: usize, env: FillEnv, kids: Seq<usize>)
    requires
        o == ObjV::PySet(n) || o == ObjV::FrozenSet(n),
        env.at + 200 <= usize::MAX,
    ensures
        ({
            let t = layout::body_tail(o, env, kids);
            &&& t.len() == 200 - 16
            &&& stored(t, 16, 8) == n
            &&& stored(t, 24, 8) == n
            &&& stored(t, 32, 8) == 7
            &&& stored(t, 40, 8) == env.at + 64
            &&& stored(t, 48, 8) == u64::MAX
        }),
{
    fields::law_set_body(o, n, env, kids);
    let z = bytes::zeros((layout::SET_SIZE - HEAD) as nat);
    let at = (env.at + layout::SET_TABLE) as u64;
    let a = layout::with_field(z, 16, n as u64);
    let b = layout::with_field(a, 24, n as u64);
    lemma_own_field(b, 32, 7);
    let c = layout::with_field(b, 32, 7);
    lemma_other_field(c, 40, at, 32);
    let d = layout::with_field(c, 40, at);
    lemma_other_field(d, 48, u64::MAX, 32);
    lemma_own_field(d, 48, u64::MAX);
}

/// A builtin function has its definition at offset 16, one of its own behind itself
/// where it is given none, and what it is bound to at offset 24.
pub proof fn law_builtin_body(env: FillEnv, kids: Seq<usize>)
    requires
        env.at + 56 <= usize::MAX,
    ensures
        ({
            let t = layout::body_tail(ObjV::Builtin, env, kids);
            &&& env.ml != 0 ==> stored(t, 16, 8) == env.ml
            &&& env.ml == 0 ==> stored(t, 16, 8) == env.at + 56
            &&& stored(t, 24, 8) == env.m_self
            &&& t.len() == 56 + 32 - 16
        }),
{
    let z = bytes::zeros((layout::body_len(ObjV::Builtin) - HEAD) as nat);
    let ml = if env.ml != 0 {
        env.ml as u64
    } else {
        (env.at + layout::CFUNCTION_SIZE) as u64
    };
    lemma_own_field(z, 16, ml);
    let a = layout::with_field(z, 16, ml);
    lemma_other_field(a, 24, env.m_self as u64, 16);
    lemma_own_field(a, 24, env.m_self as u64);
}

/// An exception has its arguments at offset 24 and its value at offset 72. Nothing
/// else in it is set.
pub proof fn law_exception_body(e: ExcFields, off: int)
    requires
        16 <= off,
        off % 8 == 0,
        off + 8 <= 80,
    ensures
        stored(crossing::box_tail(e), off, 8) == (if off == 24 {
            e.args as nat
        } else if off == 72 {
            e.value as nat
        } else {
            0
        }),
        crossing::box_tail(e).len() == 80 - 16,
{
    let z = bytes::zeros((crossing::BOX_SIZE - HEAD) as nat);
    lemma_zeros(z.subrange(off - 16, off - 16 + 8));
    lemma_own_field(z, 24, e.args as u64);
    let a = layout::with_field(z, 24, e.args as u64);
    lemma_own_field(a, 72, e.value as u64);
    if off != 24 {
        lemma_other_field(z, 24, e.args as u64, off);
    }
    if off != 72 {
        lemma_other_field(a, 72, e.value as u64, off);
    }
}

/// C code reads a text without NUL as its UTF-8 encoding and a zero. A text with a
/// NUL is read as empty, a documentation with one as none.
pub proof fn law_text_for_c(s: Seq<char>)
    ensures
        ({
            let b = vstd::utf8::encode_utf8(s);
            if b.contains(0u8) {
                descriptors::c_text(s) == seq![0u8] && descriptors::c_doc(Some(s)) is None
            } else {
                descriptors::c_text(s) == b + seq![0u8] && descriptors::c_doc(Some(s)) == Some(
                    b + seq![0u8],
                )
            }
        }),
        descriptors::c_doc(None) is None,
{
    let b = vstd::utf8::encode_utf8(s);
    assert(b.push(0u8) =~= b + seq![0u8]);
}

/// A getter has the class that it belongs to at offset 16 and its name at offset 24.
/// Its definition, which lies inside it at offset 48, is at offset 40. The
/// definition leads to the name and to the documentation, as C code reads them.
pub proof fn law_getter_body(
    place: Place,
    d_type: usize,
    d_name: usize,
    name: Seq<char>,
    doc: Option<Seq<char>>,
)
    requires
        place.at + 88 <= usize::MAX,
        place.aux + descriptors::getset_aux(name, doc).len() <= usize::MAX,
    ensures
        ({
            let t = descriptors::getset_tail(place, d_type, d_name, name, doc);
            let x = descriptors::getset_aux(name, doc);
            let label = descriptors::c_text(name);
            &&& t.len() == 88 - 16
            &&& stored(t, 16, 8) == d_type
            &&& stored(t, 24, 8) == d_name
            &&& stored(t, 40, 8) == place.at + 48
            &&& fields::behind(x, place.aux, stored(t, 48, 8), label.len()) == label
            &&& match descriptors::c_doc(doc) {
                Some(d) => fields::behind(x, place.aux, stored(t, 72, 8), d.len()) == d && stored(
                    t,
                    72,
                    8,
                ) == place.aux + label.len(),
                None => stored(t, 72, 8) == 0,
            }
        }),
{
    let z = bytes::zeros((descriptors::GETSET_SIZE - HEAD) as nat);
    let def = (place.at + descriptors::GETSET_DEF) as u64;
    let label = descriptors::c_text(name);
    let x = descriptors::getset_aux(name, doc);
    lemma_zeros(z.subrange(72 - 16, 72 - 16 + 8));
    lemma_own_field(z, 16, d_type as u64);
    lemma_other_field(z, 16, d_type as u64, 72);
    let a = layout::with_field(z, 16, d_type as u64);
    lemma_own_field(a, 24, d_name as u64);
    lemma_other_field(a, 24, d_name as u64, 16);
    lemma_other_field(a, 24, d_name as u64, 72);
    let b = layout::with_field(a, 24, d_name as u64);
    lemma_own_field(b, 40, def);
    lemma_other_field(b, 40, def, 16);
    lemma_other_field(b, 40, def, 24);
    lemma_other_field(b, 40, def, 72);
    let c = layout::with_field(b, 40, def);
    let p = place.aux as u64;
    lemma_own_field(c, 48, p);
    lemma_other_field(c, 48, p, 16);
    lemma_other_field(c, 48, p, 24);
    lemma_other_field(c, 48, p, 40);
    lemma_other_field(c, 48, p, 72);
    let d = layout::with_field(c, 48, p);
    assert(x.subrange(0, label.len() as int) =~= label);
    match descriptors::c_doc(doc) {
        Some(text) => {
            let q = (place.aux + label.len()) as u64;
            lemma_own_field(d, 72, q);
            lemma_other_field(d, 72, q, 16);
            lemma_other_field(d, 72, q, 24);
            lemma_other_field(d, 72, q, 40);
            lemma_other_field(d, 72, q, 48);
            assert(x.subrange(label.len() as int, (label.len() + text.len()) as int) =~= text);
        },
        None => {},
    }
}

/// The body of a text reads back as the text.
pub proof fn law_text_reads_back(s: Seq<char>, env: FillEnv, kids: Seq<usize>)
    requires
        s.len() <= isize::MAX,
    ensures
        layout::any_text(layout::body_tail(ObjV::Str(s), env, kids), None) == Some(s),
{
    let t = layout::body_tail(ObjV::Str(s), env, kids);
    fields::law_text_body(s, env, kids);
    let f = layout::form_of(layout::max_cp(layout::cps_of(s)));
    layout::law_state_word(f.kind as int, true, f.ascii, false);
    let kind = layout::state_kind(layout::text_state(t));
    let got = layout::read_cps(t, kind, layout::data_offset(t) - HEAD, layout::text_len(t));
    assert(layout::all_scalars(got));
    assert(got.map_values(|c: u32| c as char) == s);
    assert forall|i: int| 0 <= i < got.len() implies #[trigger] layout::lossy_char(got[i])
        == s[i] by {
        assert(got.map_values(|c: u32| c as char)[i] == got[i] as char);
    }
    assert(got.map_values(|c: u32| layout::lossy_char(c)) =~= s);
}

/// A text whose characters lie elsewhere is read from there: the character `i` is the
/// number of its width at that place.
pub proof fn law_far_text(t: Seq<u8>, d: Seq<u8>, kind: int, i: int)
    requires
        t.len() >= 24,
        kind == 1 || kind == 2 || kind == 4,
        layout::text_state(t) == 4 * kind,
        layout::field(t, 16) < 0x8000_0000_0000_0000,
        0 <= i < layout::field(t, 16),
        kind * layout::field(t, 16) <= d.len(),
    ensures
        ({
            let r = layout::any_text(t, Some(d));
            let c = bytes::word(d, kind * i, kind);
            &&& r is Some
            &&& r->Some_0.len() == layout::field(t, 16)
            &&& c < 0xd800 ==> r->Some_0[i] as u32 == c
            &&& 0xd800 <= c <= 0xdfff || c > 0x10_ffff ==> r->Some_0[i] == '\u{fffd}'
        }),
        layout::any_text(t, None) is None,
{
    let n = layout::text_len(t);
    let k = kind as u32;
    assert(layout::state_kind(layout::text_state(t)) == k);
    assert(!layout::state_compact(layout::text_state(t)));
    let got = layout::read_cps(d, k, 0, n);
    assert(i * kind == kind * i) by (nonlinear_arith);
    assert(kind * i + kind <= d.len()) by (nonlinear_arith)
        requires
            i + 1 <= n,
            kind * n <= d.len(),
            kind > 0,
    ;
    lemma2_to64();
    assert(i * kind >= 0) by (nonlinear_arith)
        requires
            i >= 0,
            kind > 0,
    ;
    let w = d.subrange(kind * i, kind * i + kind);
    crate::bignum::lemma_le_bound(w);
    assert(got[i] == bytes::word(d, kind * i, kind) as u32);
    assert(8 * w.len() == 8 || 8 * w.len() == 16 || 8 * w.len() == 32);
}

} // verus!
