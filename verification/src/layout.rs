//! The bytes of object bodies, field by field at CPython's offsets.
//!
//! Every object starts with a head of two words, the reference count and the
//! type. What follows the head is its tail, and offsets count from the head.

use vstd::prelude::*;
use vstd::arithmetic::div_mod::{lemma_fundamental_div_mod, lemma_mod_multiples_basic};
use vstd::arithmetic::power2::*;
use vstd::utf8::is_scalar;
use crate::bignum;
use crate::bignum::big_to_bytes_le;
use crate::bytes;
use crate::bytes::{get_le, get_u32, get_u64, put_le, put_slots, put_u32, put_u64, put_units, zero_block};
use crate::mypyc_tail;
use crate::utf8::char_from_u32;
use crate::value;
use crate::value::{BigNum, MemV, MemView, NatV, ObjV, Object, Sign};

verus! {

/// The size of the head.
pub const HEAD: usize = 16;

/// The size of a float.
pub const FLOAT_SIZE: usize = 24;

/// The size of a complex number.
pub const COMPLEX_SIZE: usize = 32;

/// The size of a byte array.
pub const BYTEARRAY_SIZE: usize = 56;

/// The size of the head of an ASCII text.
pub const ASCII_HEAD: usize = 40;

/// The size of the head of any other compact text.
pub const COMPACT_HEAD: usize = 56;

/// The size of a list.
pub const LIST_SIZE: usize = 40;

/// The size of a builtin function.
pub const CFUNCTION_SIZE: usize = 56;

/// The size of a method definition.
pub const METHODDEF_SIZE: usize = 32;

/// The size of a bound method.
pub const METHOD_SIZE: usize = 48;

/// The size of a dict.
pub const DICT_SIZE: usize = 48;

/// The size of a set.
pub const SET_SIZE: usize = 200;

/// Where the inline table of a set starts.
pub const SET_TABLE: usize = 64;

/// The size of a slice.
pub const SLICE_SIZE: usize = 40;

/// The size of a memory view.
pub const MEMORYVIEW_SIZE: usize = 144;

// ---------------------------------------------------------------------------
// Fields
// ---------------------------------------------------------------------------

/// The word at an offset.
pub open spec fn field(tail: Seq<u8>, off: int) -> nat {
    bytes::word(tail, off - HEAD, 8)
}

/// The tail with a word written at an offset.
pub open spec fn with_field(tail: Seq<u8>, off: int, v: u64) -> Seq<u8> {
    bytes::put(tail, off - HEAD, bytes::le_bytes(v as nat, 8))
}

/// The tail with a half word written at an offset.
pub open spec fn with_half(tail: Seq<u8>, off: int, v: u32) -> Seq<u8> {
    bytes::put(tail, off - HEAD, bytes::le_bytes(v as nat, 4))
}

/// Write a word.
pub fn set_field(tail: &mut Vec<u8>, off: usize, v: u64)
    requires
        HEAD <= off,
        off - HEAD + 8 <= old(tail)@.len(),
    ensures
        final(tail)@ == with_field(old(tail)@, off as int, v),
{
    put_u64(tail, off - HEAD, v);
}

/// Write a half word.
pub fn set_half(tail: &mut Vec<u8>, off: usize, v: u32)
    requires
        HEAD <= off,
        off - HEAD + 4 <= old(tail)@.len(),
    ensures
        final(tail)@ == with_half(old(tail)@, off as int, v),
{
    put_u32(tail, off - HEAD, v);
}

/// Read a word; zero past the end of the block.
pub fn get_field(tail: &[u8], off: usize) -> (r: u64)
    requires
        HEAD <= off,
    ensures
        off - HEAD + 8 <= tail@.len() ==> r as nat == field(tail@, off as int),
        off - HEAD + 8 > tail@.len() ==> r == 0,
{
    let at: usize = off - HEAD;
    let n: usize = tail.len();
    if n < 8 || at > n - 8 {
        return 0;
    }
    get_u64(tail, at)
}

/// Read a half word; zero past the end of the block.
pub fn get_half(tail: &[u8], off: usize) -> (r: u32)
    requires
        HEAD <= off,
    ensures
        off - HEAD + 4 <= tail@.len() ==> r as nat == bytes::word(tail@, off - HEAD, 4),
        off - HEAD + 4 > tail@.len() ==> r == 0,
{
    let at: usize = off - HEAD;
    let n: usize = tail.len();
    if n < 4 || at > n - 4 {
        return 0;
    }
    get_u32(tail, at)
}

/// A size rounded up to a multiple of an alignment.
pub open spec fn aligned(n: int, align: int) -> int {
    (n + (align - 1)) / align * align
}

/// A size rounded up to whole words.
pub open spec fn rounded(n: int) -> int {
    aligned(n, 8)
}

/// Round a size up to the least multiple of an alignment that is not below it.
pub fn round_up(n: u128, align: u128) -> (r: u128)
    requires
        align > 0,
        n + (align - 1) <= u128::MAX,
    ensures
        r == aligned(n as int, align as int),
        r % align == 0,
        n <= r,
        r - n < align,
{
    proof {
        law_rounding(n as int, align as int);
    }
    (n + (align - 1)) / align * align
}

/// Rounding up gives the least multiple of the alignment that is not below the
/// size. To round again changes nothing.
pub proof fn law_rounding(n: int, align: int)
    requires
        0 <= n,
        0 < align,
    ensures
        aligned(n, align) % align == 0,
        n <= aligned(n, align),
        aligned(n, align) - n < align,
        aligned(aligned(n, align), align) == aligned(n, align),
        aligned(n, align) <= n + (align - 1),
        forall|m: int| m >= n && #[trigger] (m % align) == 0 ==> m >= aligned(n, align),
{
    let q = (n + (align - 1)) / align;
    lemma_fundamental_div_mod(n + (align - 1), align);
    lemma_mod_multiples_basic(q, align);
    let r = q * align;
    assert(align * q == q * align) by (nonlinear_arith);
    let q2 = (r + (align - 1)) / align;
    lemma_fundamental_div_mod(r + (align - 1), align);
    assert(align * q2 == q2 * align) by (nonlinear_arith);
    assert(q2 == q) by (nonlinear_arith)
        requires
            r == q * align,
            0 < align,
            r + (align - 1) == align * q2 + (r + (align - 1)) % align,
            0 <= (r + (align - 1)) % align < align,
    ;
    assert forall|m: int| m >= n && #[trigger] (m % align) == 0 implies m >= r by {
        lemma_fundamental_div_mod(m, align);
        let k = m / align;
        assert(k >= q) by (nonlinear_arith)
            requires
                m == align * k,
                m >= n,
                n + (align - 1) == align * q + (n + (align - 1)) % align,
                (n + (align - 1)) % align <= align - 1,
                0 <= (n + (align - 1)) % align,
                0 < align,
        ;
        assert(align * k >= q * align) by (nonlinear_arith)
            requires
                k >= q,
                0 < align,
        ;
    }
}

// ---------------------------------------------------------------------------
// Integers
// ---------------------------------------------------------------------------

/// The integer of a sign and a magnitude.
pub open spec fn big_val(sign: Sign, mag: Seq<u8>) -> int {
    match sign {
        Sign::Minus => -(value::le_value(mag) as int),
        Sign::NoSign => 0,
        Sign::Plus => value::le_value(mag) as int,
    }
}

/// The integer that an object is; other objects count as zero.
pub open spec fn int_val(o: ObjV) -> int {
    match o {
        ObjV::Int(v) => v as int,
        ObjV::Bool(b) => if b {
            1
        } else {
            0
        },
        ObjV::Long(sign, mag) => big_val(sign, mag),
        _ => 0,
    }
}

/// The magnitude that a body holds: the low 128 bits.
pub open spec fn body_mag(o: ObjV) -> nat {
    bignum::abs(int_val(o)) % pow2(128)
}

/// The sign of an integer.
pub open spec fn sign_of(v: int) -> int {
    if v < 0 {
        -1
    } else if v == 0 {
        0
    } else {
        1
    }
}

/// Cutting off high digits is reduction by a power of the base.
proof fn lemma_le_take(b: Seq<u8>, k: int)
    requires
        0 <= k <= b.len(),
    ensures
        value::le_value(b) == value::le_value(b.subrange(0, k)) + pow2((8 * k) as nat)
            * value::le_value(b.subrange(k, b.len() as int)),
    decreases k,
{
    if k == 0 {
        lemma2_to64();
        assert(b.subrange(0, b.len() as int) =~= b);
        assert(b.subrange(0, 0) =~= Seq::<u8>::empty());
        let all = value::le_value(b);
        let one = pow2((8 * k) as nat);
        assert(one * all == all) by (nonlinear_arith)
            requires
                one == 1,
        ;
    } else {
        let rest = b.drop_first();
        lemma_le_take(rest, k - 1);
        assert(rest.subrange(0, k - 1) =~= b.subrange(0, k).drop_first());
        assert(rest.subrange(k - 1, rest.len() as int) =~= b.subrange(k, b.len() as int));
        lemma_pow2_adds(8, (8 * (k - 1)) as nat);
        lemma2_to64();
        let p = pow2((8 * (k - 1)) as nat);
        let hi = value::le_value(b.subrange(k, b.len() as int));
        assert((8 * k) as nat == 8 + (8 * (k - 1)) as nat);
        assert(pow2((8 * k) as nat) == 256 * p);
        assert(256 * (p * hi) == (256 * p) * hi) by (nonlinear_arith);
        assert(b.subrange(0, k)[0] == b[0]);
    }
}

/// The sign of a big integer, and the low 128 bits of its magnitude.
fn big_sign_magnitude(big: &BigNum) -> (r: (i32, u128))
    ensures
        r.0 == sign_of(big.val()),
        r.1 as nat == bignum::abs(big.val()) % pow2(128),
{
    let (sign, mag): (Sign, Vec<u8>) = big_to_bytes_le(big);
    let n: usize = if mag.len() < 16 {
        mag.len()
    } else {
        16
    };
    let mut v: u128 = 0;
    let mut k: usize = n;
    assert(mag@.subrange(n as int, n as int) =~= Seq::<u8>::empty());
    while k > 0
        invariant
            k <= n <= 16,
            n <= mag@.len(),
            v as nat == value::le_value(mag@.subrange(k as int, n as int)),
        decreases k,
    {
        proof {
            let tail = mag@.subrange(k as int, n as int);
            let longer = mag@.subrange(k - 1, n as int);
            assert(longer.drop_first() =~= tail);
            bignum::lemma_le_bound(tail);
            bignum::lemma_pow2_mono(8 * tail.len(), 120);
            assert(pow2(120) == 0x100_0000_0000_0000_0000_0000_0000_0000) by {
                lemma2_to64_rest();
                lemma_pow2_adds(60, 60);
                lemma2_to64();
            }
        }
        v = v * 256 + mag[k - 1] as u128;
        k = k - 1;
    }
    proof {
        lemma_le_take(mag@, n as int);
        let low = value::le_value(mag@.subrange(0, n as int));
        let high = value::le_value(mag@.subrange(n as int, mag@.len() as int));
        bignum::lemma_le_bound(mag@.subrange(0, n as int));
        lemma_pow2_pos(128);
        if mag@.len() <= 16 {
            assert(mag@.subrange(n as int, mag@.len() as int) =~= Seq::<u8>::empty());
            bignum::lemma_pow2_mono((8 * n) as nat, 128);
            assert(pow2((8 * n) as nat) * 0 == 0) by (nonlinear_arith);
            assert(low < pow2(128));
            assert(low % pow2(128) == low) by (nonlinear_arith)
                requires
                    low < pow2(128),
            ;
        } else {
            assert((low + pow2(128) * high) % pow2(128) == low) by (nonlinear_arith)
                requires
                    low < pow2(128),
                    pow2(128) > 0,
            ;
        }
    }
    let s: i32 = match sign {
        Sign::NoSign => 0,
        Sign::Plus => 1,
        Sign::Minus => -1,
    };
    (s, v)
}

proof fn lemma_pow2_128()
    ensures
        pow2(128) == 0x1_0000_0000_0000_0000_0000_0000_0000_0000,
{
    lemma2_to64_rest();
    lemma_pow2_adds(64, 64);
}

/// The sign of an integer object, and the low 128 bits of its magnitude.
pub fn int_sign_magnitude(obj: &Object) -> (r: (i32, u128))
    ensures
        r.0 == sign_of(int_val(obj@)),
        r.1 as nat == body_mag(obj@),
{
    proof {
        lemma_pow2_128();
    }
    match obj {
        Object::Int(v) => {
            if *v == 0 {
                (0, 0)
            } else if *v < 0 {
                (-1, (-(*v as i128)) as u128)
            } else {
                (1, *v as u128)
            }
        },
        Object::Bool(b) => {
            if *b {
                (1, 1)
            } else {
                (0, 0)
            }
        },
        Object::Long(big) => big_sign_magnitude(big),
        _ => (0, 0),
    }
}

/// The 30-bit digits of a number, least significant first; none for zero.
pub open spec fn base_2_30(n: nat) -> Seq<u32>
    decreases n,
{
    if n == 0 {
        Seq::empty()
    } else {
        seq![(n % 0x4000_0000) as u32] + base_2_30(n / 0x4000_0000)
    }
}

/// The digits denote the number.
pub proof fn law_digits_denote(n: nat)
    ensures
        mypyc_tail::digits30(base_2_30(n)) == n,
    decreases n,
{
    if n != 0 {
        law_digits_denote(n / 0x4000_0000);
        assert(base_2_30(n).drop_first() =~= base_2_30(n / 0x4000_0000));
    }
}

proof fn lemma_digit_count(n: nat, k: nat)
    requires
        n < pow2(30 * k),
    ensures
        base_2_30(n).len() <= k,
    decreases k,
{
    if n != 0 {
        lemma2_to64();
        if k == 0 {
            assert(false);
        }
        lemma_pow2_adds(30, (30 * (k - 1)) as nat);
        assert(n / 0x4000_0000 < pow2((30 * (k - 1)) as nat)) by (nonlinear_arith)
            requires
                n < 0x4000_0000 * pow2((30 * (k - 1)) as nat),
        ;
        lemma_digit_count(n / 0x4000_0000, (k - 1) as nat);
    }
}

/// The body of an integer has room for its digits, at most five.
pub proof fn lemma_digits_fit(o: ObjV)
    ensures
        1 <= body_digits(o).len() <= 5,
{
    lemma_pow2_128();
    bignum::lemma_pow2_mono(128, 150);
    lemma_pow2_pos(128);
    assert(body_mag(o) < pow2(128)) by (nonlinear_arith)
        requires
            body_mag(o) == bignum::abs(int_val(o)) % pow2(128),
            pow2(128) > 0,
    ;
    lemma_digit_count(body_mag(o), 5);
}

/// Decompose a magnitude into 30-bit digits.
pub fn to_base_2_30(mag: u128) -> (r: Vec<u32>)
    ensures
        r@ == base_2_30(mag as nat),
        r@.len() <= 5,
{
    let mut out: Vec<u32> = Vec::new();
    let mut rest: u128 = mag;
    let ghost full = base_2_30(mag as nat);
    assert(out@ + full =~= full);
    while rest > 0
        invariant
            out@ + base_2_30(rest as nat) == full,
        decreases rest,
    {
        let d: u32 = (rest % 0x4000_0000) as u32;
        let ghost before = out@;
        out.push(d);
        assert(out@ + base_2_30((rest / 0x4000_0000) as nat) =~= before + base_2_30(rest as nat));
        rest = rest / 0x4000_0000;
    }
    assert(out@ =~= full);
    proof {
        lemma_pow2_128();
        bignum::lemma_pow2_mono(128, 150);
        lemma_digit_count(mag as nat, 5);
    }
    out
}

/// The number of digits that an integer's body has.
pub fn long_digit_count(obj: &Object) -> (r: usize)
    ensures
        r == base_2_30(body_mag(obj@)).len(),
        r <= 5,
{
    let (_, mag): (i32, u128) = int_sign_magnitude(obj);
    to_base_2_30(mag).len()
}

/// The sign field of an integer's tag.
pub open spec fn sign_field(v: int) -> int {
    if v == 0 {
        1
    } else if v < 0 {
        2
    } else {
        0
    }
}

/// The digits of an integer's body: one at least.
pub open spec fn body_digits(o: ObjV) -> Seq<u32> {
    let d = base_2_30(body_mag(o));
    if d.len() == 0 {
        seq![0u32]
    } else {
        d
    }
}

/// The tail of an integer: the tag and the digits.
pub open spec fn long_tail(o: ObjV, size: nat) -> Seq<u8> {
    let tag = body_digits(o).len() * 8 + sign_field(int_val(o));
    bytes::put(
        with_field(bytes::zeros(size), 16, tag as u64),
        24 - HEAD,
        bytes::flat(bytes::nats32(body_digits(o)), 4),
    )
}

fn fill_long(obj: &Object, size: usize) -> (r: Vec<u8>)
    requires
        size >= 8 + 4 * body_digits(obj@).len(),
    ensures
        r@ == long_tail(obj@, size as nat),
{
    let (sign, mag): (i32, u128) = int_sign_magnitude(obj);
    let mut digits: Vec<u32> = to_base_2_30(mag);
    if digits.len() == 0 {
        digits.push(0);
        assert(digits@ =~= seq![0u32]);
    }
    let sf: u64 = if sign == 0 {
        1
    } else if sign < 0 {
        2
    } else {
        0
    };
    let mut b: Vec<u8> = zero_block(size);
    set_field(&mut b, 16, digits.len() as u64 * 8 + sf);
    put_units(&mut b, 24 - HEAD, &digits, 4);
    b
}

// ---------------------------------------------------------------------------
// Texts
// ---------------------------------------------------------------------------

/// How a text is stored: the width of its units, whether it is ASCII, and
/// where its data starts.
#[derive(Clone, Copy, Debug, PartialEq, Eq, Structural)]
pub struct UnicodeForm {
    pub kind: u32,
    pub ascii: bool,
    pub data_off: usize,
    pub width: usize,
}

/// The compact form for a text with this largest code point.
pub open spec fn form_of(maxchar: u32) -> UnicodeForm {
    if maxchar < 0x80 {
        UnicodeForm { kind: 1, ascii: true, data_off: ASCII_HEAD, width: 1 }
    } else if maxchar < 0x100 {
        UnicodeForm { kind: 1, ascii: false, data_off: COMPACT_HEAD, width: 1 }
    } else if maxchar < 0x1_0000 {
        UnicodeForm { kind: 2, ascii: false, data_off: COMPACT_HEAD, width: 2 }
    } else {
        UnicodeForm { kind: 4, ascii: false, data_off: COMPACT_HEAD, width: 4 }
    }
}

/// The compact form for a text with this largest code point.
pub fn unicode_form(maxchar: u32) -> (r: UnicodeForm)
    ensures
        r == form_of(maxchar),
{
    if maxchar < 0x80 {
        UnicodeForm { kind: 1, ascii: true, data_off: ASCII_HEAD, width: 1 }
    } else if maxchar < 0x100 {
        UnicodeForm { kind: 1, ascii: false, data_off: COMPACT_HEAD, width: 1 }
    } else if maxchar < 0x1_0000 {
        UnicodeForm { kind: 2, ascii: false, data_off: COMPACT_HEAD, width: 2 }
    } else {
        UnicodeForm { kind: 4, ascii: false, data_off: COMPACT_HEAD, width: 4 }
    }
}

/// The largest code point that a form holds.
pub open spec fn form_max(kind: u32, ascii: bool) -> u32 {
    if kind == 1 {
        if ascii {
            0x7f
        } else {
            0xff
        }
    } else if kind == 2 {
        0xffff
    } else {
        0x10_ffff
    }
}

/// The largest code point that a form holds.
pub fn kind_maxchar(kind: u32, ascii: bool) -> (r: u32)
    ensures
        r == form_max(kind, ascii),
{
    if kind == 1 {
        if ascii {
            0x7f
        } else {
            0xff
        }
    } else if kind == 2 {
        0xffff
    } else {
        0x10_ffff
    }
}

/// A form holds every code point up to the one that it was chosen for.
pub proof fn law_form_holds(maxchar: u32)
    requires
        maxchar <= 0x10_ffff,
    ensures
        maxchar <= form_max(form_of(maxchar).kind, form_of(maxchar).ascii),
        form_of(maxchar).width == form_of(maxchar).kind,
{
}

/// The largest of some code points, zero for none.
pub open spec fn max_cp(s: Seq<u32>) -> u32
    decreases s.len(),
{
    if s.len() == 0 {
        0
    } else {
        let m = max_cp(s.drop_last());
        if s.last() > m {
            s.last()
        } else {
            m
        }
    }
}

/// The code points of a text.
pub open spec fn cps_of(s: Seq<char>) -> Seq<u32> {
    s.map_values(|c: char| c as u32)
}

/// The code points of a text.
pub fn codepoints(s: &Vec<char>) -> (r: Vec<u32>)
    ensures
        r@ == cps_of(s@),
{
    let mut out: Vec<u32> = Vec::new();
    let mut i: usize = 0;
    while i < s.len()
        invariant
            i <= s@.len(),
            out@ == cps_of(s@.subrange(0, i as int)),
        decreases s.len() - i,
    {
        out.push(s[i] as u32);
        i = i + 1;
        assert(out@ =~= cps_of(s@.subrange(0, i as int)));
    }
    assert(s@.subrange(0, s@.len() as int) =~= s@);
    out
}

/// The largest of some code points.
pub fn max_codepoint(s: &Vec<u32>) -> (r: u32)
    ensures
        r == max_cp(s@),
{
    let mut m: u32 = 0;
    let mut i: usize = 0;
    assert(s@.subrange(0, 0) =~= Seq::<u32>::empty());
    while i < s.len()
        invariant
            i <= s@.len(),
            m == max_cp(s@.subrange(0, i as int)),
        decreases s.len() - i,
    {
        assert(s@.subrange(0, i + 1).drop_last() =~= s@.subrange(0, i as int));
        if s[i] > m {
            m = s[i];
        }
        i = i + 1;
    }
    assert(s@.subrange(0, s@.len() as int) =~= s@);
    m
}

/// The largest code point of a text.
pub fn str_maxchar(s: &Vec<char>) -> (r: u32)
    ensures
        r == max_cp(cps_of(s@)),
{
    max_codepoint(&codepoints(s))
}

/// The state word of a text: interning in two bits, the unit width in three,
/// compactness, ASCII and static allocation in one each.
pub open spec fn state_word(interned: int, kind: int, compact: bool, ascii: bool, fixed: bool) -> int {
    interned + 4 * kind + (if compact {
        32int
    } else {
        0
    }) + (if ascii {
        64int
    } else {
        0
    }) + (if fixed {
        128int
    } else {
        0
    })
}

/// The state word of a text.
pub fn pack_state(interned: u32, kind: u32, compact: bool, ascii: bool, fixed: bool) -> (r: u32)
    requires
        interned < 4,
        kind < 8,
    ensures
        r == state_word(interned as int, kind as int, compact, ascii, fixed),
{
    let c: u32 = if compact {
        32
    } else {
        0
    };
    let a: u32 = if ascii {
        64
    } else {
        0
    };
    let f: u32 = if fixed {
        128
    } else {
        0
    };
    interned + 4 * kind + c + a + f
}

/// The unit width that a state word gives.
pub open spec fn state_kind(state: u32) -> u32 {
    (state / 4) % 8
}

/// The state word says compact.
pub open spec fn state_compact(state: u32) -> bool {
    (state / 32) % 2 == 1
}

/// The state word says ASCII.
pub open spec fn state_ascii(state: u32) -> bool {
    (state / 64) % 2 == 1
}

/// A state word gives back what was packed into it.
pub proof fn law_state_word(kind: int, compact: bool, ascii: bool, fixed: bool)
    requires
        0 <= kind < 8,
    ensures
        state_kind(state_word(0, kind, compact, ascii, fixed) as u32) == kind,
        state_compact(state_word(0, kind, compact, ascii, fixed) as u32) == compact,
        state_ascii(state_word(0, kind, compact, ascii, fixed) as u32) == ascii,
{
}

/// The tail of a text: length, hash, state and the code points, with room for
/// a terminating unit of zero.
pub open spec fn text_tail(cps: Seq<u32>, maxchar: u32, hash: i64, size: nat) -> Seq<u8> {
    let f = form_of(maxchar);
    bytes::put(
        text_head(cps.len(), f, hash, size),
        f.data_off - HEAD,
        bytes::flat(bytes::nats32(cps), f.width as nat),
    )
}

/// The tail of a text whose data is all zero.
pub open spec fn text_head(len: nat, f: UnicodeForm, hash: i64, size: nat) -> Seq<u8> {
    with_half(
        with_field(with_field(bytes::zeros(size), 16, len as u64), 24, hash as u64),
        32,
        state_word(0, f.kind as int, true, f.ascii, false) as u32,
    )
}

/// The bytes that a text's block takes, head included.
pub open spec fn text_size(n: nat, f: UnicodeForm) -> int {
    rounded(f.data_off + (n + 1) * f.width)
}

pub(crate) fn fill_head(len: usize, f: UnicodeForm, hash: i64, size: usize) -> (r: Vec<u8>)
    requires
        size >= 24,
        f.kind < 8,
    ensures
        r@ == text_head(len as nat, f, hash, size as nat),
{
    let mut b: Vec<u8> = zero_block(size);
    set_field(&mut b, 16, len as u64);
    set_field(&mut b, 24, #[verifier::truncate] (hash as u64));
    let state: u32 = pack_state(0, f.kind, true, f.ascii, false);
    set_half(&mut b, 32, state);
    b
}

fn fill_str(cps: &Vec<u32>, hash: i64, size: usize) -> (r: Vec<u8>)
    requires
        size + HEAD >= form_of(max_cp(cps@)).data_off + cps@.len() * form_of(max_cp(cps@)).width,
        size >= 24,
    ensures
        r@ == text_tail(cps@, max_cp(cps@), hash, size as nat),
{
    let f: UnicodeForm = unicode_form(max_codepoint(cps));
    let mut b: Vec<u8> = fill_head(cps.len(), f, hash, size);
    put_units(&mut b, f.data_off - HEAD, cps, f.width);
    b
}

/// What a text's block says of itself.
#[derive(Clone, Copy, Debug, PartialEq, Eq, Structural)]
pub struct TextInfo {
    pub kind: u32,
    pub ascii: bool,
    pub len: usize,
    pub data_off: usize,
}

/// The length field, a negative one counting as zero.
pub open spec fn text_len(tail: Seq<u8>) -> nat {
    if field(tail, 16) < 0x8000_0000_0000_0000 {
        field(tail, 16)
    } else {
        0
    }
}

/// The state field.
pub open spec fn text_state(tail: Seq<u8>) -> u32 {
    bytes::word(tail, 32 - HEAD, 4) as u32
}

/// Where the data of a compact text starts.
pub open spec fn data_offset(tail: Seq<u8>) -> usize {
    if state_ascii(text_state(tail)) {
        ASCII_HEAD
    } else {
        COMPACT_HEAD
    }
}

/// What a text's block says of itself.
pub fn str_buffer_info(tail: &[u8]) -> (r: TextInfo)
    requires
        tail@.len() >= 24,
        text_len(tail@) <= usize::MAX,
    ensures
        r.kind == state_kind(text_state(tail@)),
        r.ascii == state_ascii(text_state(tail@)),
        r.len as nat == text_len(tail@),
        r.data_off == data_offset(tail@),
{
    let raw: u64 = get_field(tail, 16);
    let len: usize = if raw < 0x8000_0000_0000_0000 {
        raw as usize
    } else {
        0
    };
    let state: u32 = get_half(tail, 32);
    let ascii: bool = (state / 64) % 2 == 1;
    TextInfo {
        kind: (state / 4) % 8,
        ascii,
        len,
        data_off: if ascii {
            ASCII_HEAD
        } else {
            COMPACT_HEAD
        },
    }
}

/// The width of a unit: one, two or four bytes.
pub open spec fn unit_width(kind: u32) -> nat {
    if kind == 1 {
        1
    } else if kind == 2 {
        2
    } else {
        4
    }
}

pub(crate) fn width_of(kind: u32) -> (r: usize)
    ensures
        r == unit_width(kind),
{
    if kind == 1 {
        1
    } else if kind == 2 {
        2
    } else {
        4
    }
}

/// The `i`-th code point in data of this width.
pub open spec fn codepoint_at(data: Seq<u8>, kind: u32, off: int, i: int) -> u32 {
    bytes::word(data, off + i * unit_width(kind), unit_width(kind) as int) as u32
}

/// Store one code point, cut to the width.
pub fn write_codepoint(data: &mut Vec<u8>, off: usize, kind: u32, i: usize, cp: u32)
    requires
        off + (i + 1) * unit_width(kind) <= old(data)@.len(),
    ensures
        final(data)@ == bytes::put(
            old(data)@,
            off + i * unit_width(kind),
            bytes::le_bytes(cp as nat, unit_width(kind)),
        ),
{
    let size: usize = data.len();
    let w: usize = width_of(kind);
    proof {
        assert((i + 1) * w == i * w + w) by (nonlinear_arith);
        assert(0 <= i * w) by (nonlinear_arith);
    }
    put_le(data, off + i * w, cp as u64, w);
}

/// Load one code point.
pub fn read_codepoint(data: &[u8], off: usize, kind: u32, i: usize) -> (r: u32)
    requires
        off + (i + 1) * unit_width(kind) <= data@.len(),
    ensures
        r == codepoint_at(data@, kind, off as int, i as int),
{
    let size: usize = data.len();
    let w: usize = width_of(kind);
    proof {
        assert((i + 1) * w == i * w + w) by (nonlinear_arith);
        assert(0 <= i * w) by (nonlinear_arith);
    }
    let v: u64 = get_le(data, off + i * w, w);
    proof {
        bignum::lemma_le_bound(data@.subrange(off + i * w, off + i * w + w));
        bignum::lemma_pow2_mono((8 * w) as nat, 32);
        lemma2_to64();
    }
    v as u32
}

/// The first `n` code points in data of this width.
pub open spec fn read_cps(data: Seq<u8>, kind: u32, off: int, n: nat) -> Seq<u32> {
    Seq::new(n, |i: int| codepoint_at(data, kind, off, i))
}

/// Load code points.
pub fn read_codepoints(data: &[u8], off: usize, kind: u32, n: usize) -> (r: Vec<u32>)
    requires
        off + n * unit_width(kind) <= data@.len(),
    ensures
        r@ == read_cps(data@, kind, off as int, n as nat),
{
    let mut out: Vec<u32> = Vec::new();
    let mut i: usize = 0;
    while i < n
        invariant
            i <= n,
            off + n * unit_width(kind) <= data@.len(),
            out@ == read_cps(data@, kind, off as int, i as nat),
        decreases n - i,
    {
        proof {
            assert((i + 1) * unit_width(kind) <= n * unit_width(kind)) by (nonlinear_arith)
                requires
                    i < n,
            ;
        }
        out.push(read_codepoint(data, off, kind, i));
        i = i + 1;
        assert(out@ =~= read_cps(data@, kind, off as int, i as nat));
    }
    out
}

/// Every code point is a Unicode scalar value.
pub open spec fn all_scalars(cps: Seq<u32>) -> bool {
    forall|i: int| 0 <= i < cps.len() ==> is_scalar(#[trigger] cps[i])
}

/// The text of some code points: an ordinary text where each is a scalar
/// value, else a text that keeps its surrogates.
pub open spec fn text_of(cps: Seq<u32>) -> ObjV {
    if all_scalars(cps) {
        ObjV::Str(cps.map_values(|c: u32| c as char))
    } else {
        ObjV::WStr(cps)
    }
}

/// The text of some code points.
pub fn str_from_codepoints(cps: Vec<u32>) -> (r: Object)
    ensures
        r@ == text_of(cps@),
{
    let mut out: Vec<char> = Vec::new();
    let mut i: usize = 0;
    while i < cps.len()
        invariant
            i <= cps@.len(),
            all_scalars(cps@.subrange(0, i as int)),
            out@ == cps@.subrange(0, i as int).map_values(|c: u32| c as char),
        decreases cps.len() - i,
    {
        match char_from_u32(cps[i]) {
            None => {
                return Object::WStr(cps);
            },
            Some(c) => {
                out.push(c);
                assert(out@ =~= cps@.subrange(0, i + 1).map_values(|c: u32| c as char));
                assert forall|k: int| 0 <= k < i + 1 implies is_scalar(
                    #[trigger] cps@.subrange(0, i + 1)[k],
                ) by {
                    if k < i {
                        assert(is_scalar(cps@.subrange(0, i as int)[k]));
                    }
                }
            },
        }
        i = i + 1;
    }
    assert(cps@.subrange(0, cps@.len() as int) =~= cps@);
    Object::Str(out)
}

/// The text block's data lies within it.
pub open spec fn text_fits(tail: Seq<u8>) -> bool {
    &&& tail.len() >= 24
    &&& text_len(tail) <= usize::MAX
    &&& data_offset(tail) + text_len(tail) * unit_width(state_kind(text_state(tail))) <= tail.len()
        + HEAD
}

/// The text that a block holds; `None` where the state word gives no width.
pub open spec fn block_text(tail: Seq<u8>) -> Option<ObjV> {
    let kind = state_kind(text_state(tail));
    if kind == 0 {
        None
    } else {
        Some(text_of(read_cps(tail, kind, data_offset(tail) - HEAD, text_len(tail))))
    }
}

/// The text that a block holds.
pub fn read_str(tail: &[u8]) -> (r: Option<Object>)
    requires
        text_fits(tail@),
    ensures
        match r {
            Some(o) => block_text(tail@) == Some(o@),
            None => block_text(tail@) is None,
        },
{
    let info: TextInfo = str_buffer_info(tail);
    if info.kind == 0 {
        return None;
    }
    Some(str_from_codepoints(read_codepoints(tail, info.data_off - HEAD, info.kind, info.len)))
}

/// A code point as a character, the replacement character where it is none.
pub open spec fn lossy_char(cp: u32) -> char {
    if is_scalar(cp) {
        cp as char
    } else {
        '\u{fffd}'
    }
}

/// The data of a text that is not compact.
pub open spec fn far_data(far: Option<&[u8]>) -> Option<Seq<u8>> {
    match far {
        Some(d) => Some(d@),
        None => None,
    }
}

/// The text that a block of any form holds, each bad code point replaced. `far`
/// is the data of a text that is not compact. There is no text where the length
/// is negative, where the state word gives no width, and where there is no data.
pub open spec fn any_text(tail: Seq<u8>, far: Option<Seq<u8>>) -> Option<Seq<char>> {
    let kind = state_kind(text_state(tail));
    let n = text_len(tail);
    if field(tail, 16) >= 0x8000_0000_0000_0000 || kind == 0 {
        None
    } else if state_compact(text_state(tail)) {
        Some(
            read_cps(tail, kind, data_offset(tail) - HEAD, n).map_values(|c: u32| lossy_char(c)),
        )
    } else {
        match far {
            None => None,
            Some(d) => Some(read_cps(d, kind, 0, n).map_values(|c: u32| lossy_char(c))),
        }
    }
}

/// The text that a block of any form holds.
pub fn read_unicode_value(tail: &[u8], far: Option<&[u8]>) -> (r: Option<Vec<char>>)
    requires
        tail@.len() >= 24,
        text_len(tail@) <= usize::MAX,
        state_compact(text_state(tail@)) ==> text_fits(tail@),
        far matches Some(d) ==> text_len(tail@) * unit_width(state_kind(text_state(tail@)))
            <= d@.len(),
    ensures
        match r {
            Some(s) => any_text(tail@, far_data(far)) == Some(s@),
            None => any_text(tail@, far_data(far)) is None,
        },
{
    let raw: u64 = get_field(tail, 16);
    if raw >= 0x8000_0000_0000_0000 {
        return None;
    }
    let info: TextInfo = str_buffer_info(tail);
    if info.kind == 0 {
        return None;
    }
    let state: u32 = get_half(tail, 32);
    let compact: bool = (state / 32) % 2 == 1;
    let cps: Vec<u32> = if compact {
        read_codepoints(tail, info.data_off - HEAD, info.kind, info.len)
    } else {
        match far {
            None => {
                return None;
            },
            Some(d) => read_codepoints(d, 0, info.kind, info.len),
        }
    };
    let mut out: Vec<char> = Vec::new();
    let mut i: usize = 0;
    while i < cps.len()
        invariant
            i <= cps@.len(),
            out@ == cps@.subrange(0, i as int).map_values(|c: u32| lossy_char(c)),
        decreases cps.len() - i,
    {
        let c: char = match char_from_u32(cps[i]) {
            Some(c) => c,
            None => '\u{fffd}',
        };
        out.push(c);
        i = i + 1;
        assert(out@ =~= cps@.subrange(0, i as int).map_values(|c: u32| lossy_char(c)));
    }
    assert(cps@.subrange(0, cps@.len() as int) =~= cps@);
    Some(out)
}

/// The bytes that a bytes block holds; `None` where its size is negative.
pub open spec fn block_bytes(tail: Seq<u8>) -> Option<Seq<u8>> {
    if field(tail, 16) >= 0x8000_0000_0000_0000 {
        None
    } else {
        Some(tail.subrange(16, (16 + field(tail, 16)) as int))
    }
}

/// The bytes that a bytes block holds.
pub fn read_bytes_value(tail: &[u8]) -> (r: Option<Vec<u8>>)
    requires
        tail@.len() >= 8,
        field(tail@, 16) < 0x8000_0000_0000_0000 ==> 16 + field(tail@, 16) <= tail@.len(),
    ensures
        match r {
            Some(v) => block_bytes(tail@) == Some(v@),
            None => block_bytes(tail@) is None,
        },
{
    let raw: u64 = get_field(tail, 16);
    if raw >= 0x8000_0000_0000_0000 {
        return None;
    }
    let size: usize = tail.len();
    let n: usize = raw as usize;
    let mut out: Vec<u8> = Vec::new();
    let mut i: usize = 0;
    while i < n
        invariant
            i <= n,
            16 + n <= size == tail@.len(),
            out@ == tail@.subrange(16, 16 + i),
        decreases n - i,
    {
        out.push(tail[16 + i]);
        i = i + 1;
        assert(out@ =~= tail@.subrange(16, 16 + i));
    }
    Some(out)
}

// ---------------------------------------------------------------------------
// Body plans
// ---------------------------------------------------------------------------

/// The kinds of body.
#[derive(Clone, Copy, Debug, PartialEq, Eq, Structural)]
pub enum BodyKind {
    Float,
    Long,
    Complex,
    Bytes,
    ByteArray,
    Str,
    Tuple,
    List,
    CFunction,
    Method,
    Dict,
    PySet,
    Slice,
    MemoryView,
    Generic,
}

/// What kind of body an object gets, its size with the head, and the size of
/// the buffer beside it.
#[derive(Clone, Copy, Debug, PartialEq, Eq, Structural)]
pub struct BodyPlan {
    pub kind: BodyKind,
    pub body_size: usize,
    pub aux_size: usize,
}

/// The kind of body for an object.
pub open spec fn kind_of(o: ObjV) -> BodyKind {
    match o {
        ObjV::Float(_) => BodyKind::Float,
        ObjV::Complex(_, _) => BodyKind::Complex,
        ObjV::Int(_) | ObjV::Long(_, _) => BodyKind::Long,
        ObjV::Bytes(_) => BodyKind::Bytes,
        ObjV::ByteArray(_) => BodyKind::ByteArray,
        ObjV::Str(_) | ObjV::WStr(_) => BodyKind::Str,
        ObjV::Tuple(_) => BodyKind::Tuple,
        ObjV::List(_) => BodyKind::List,
        ObjV::Builtin => BodyKind::CFunction,
        ObjV::BoundMethod(_) => BodyKind::Method,
        ObjV::Dict(_) => BodyKind::Dict,
        ObjV::PySet(_) | ObjV::FrozenSet(_) => BodyKind::PySet,
        ObjV::Slice(_) => BodyKind::Slice,
        ObjV::MemoryView(_) => BodyKind::MemoryView,
        _ => BodyKind::Generic,
    }
}

/// The size of the body of an object, head included.
pub open spec fn body_len(o: ObjV) -> int {
    match o {
        ObjV::Float(_) => FLOAT_SIZE as int,
        ObjV::Complex(_, _) => COMPLEX_SIZE as int,
        ObjV::Int(_) | ObjV::Long(_, _) => rounded((24 + 4 * body_digits(o).len()) as int),
        ObjV::Bytes(b) => rounded((33 + b.len()) as int),
        ObjV::ByteArray(_) => BYTEARRAY_SIZE as int,
        ObjV::Str(s) => text_size(s.len(), form_of(max_cp(cps_of(s)))),
        ObjV::WStr(s) => text_size(s.len(), form_of(max_cp(s))),
        ObjV::Tuple(t) => (24 + 8 * t.len()) as int,
        ObjV::List(_) => LIST_SIZE as int,
        ObjV::Builtin => (CFUNCTION_SIZE + METHODDEF_SIZE) as int,
        ObjV::BoundMethod(_) => METHOD_SIZE as int,
        ObjV::Dict(_) => DICT_SIZE as int,
        ObjV::PySet(_) | ObjV::FrozenSet(_) => SET_SIZE as int,
        ObjV::Slice(_) => SLICE_SIZE as int,
        ObjV::MemoryView(_) => MEMORYVIEW_SIZE as int,
        _ => HEAD as int,
    }
}

/// The objects inside an object that its body points to.
pub open spec fn kids_of(o: ObjV) -> Seq<NatV> {
    match o {
        ObjV::Tuple(v) => v,
        ObjV::List(v) => v,
        ObjV::Slice(v) => v,
        ObjV::BoundMethod(v) => v,
        _ => Seq::empty(),
    }
}

/// The data that a memory view shows; none once it is released.
pub open spec fn mv_data(m: MemV) -> Seq<u8> {
    if m.released {
        Seq::empty()
    } else {
        m.data
    }
}

/// The size of the buffer beside a body.
pub open spec fn aux_len(o: ObjV) -> int {
    match o {
        ObjV::Tuple(v) => (8 * v.len()) as int,
        ObjV::List(v) => (8 * v.len()) as int,
        ObjV::MemoryView(m) => {
            let n = rounded((16 * m.shape.len() + mv_data(m).len() + m.format.len() + 1) as int);
            if n < 8 {
                8
            } else {
                n
            }
        },
        _ => 0,
    }
}

pub(crate) fn text_plan(n: usize, maxchar: u32) -> (r: u128)
    ensures
        r == text_size(n as nat, form_of(maxchar)),
{
    let f: UnicodeForm = unicode_form(maxchar);
    proof {
        assert((n + 1) * f.width <= (u64::MAX + 1) * 4) by (nonlinear_arith)
            requires
                n <= u64::MAX,
                f.width <= 4,
        ;
    }
    round_up(f.data_off as u128 + (n as u128 + 1) * f.width as u128, 8)
}

fn aux_plan(obj: &Object) -> (r: u128)
    ensures
        r == aux_len(obj@),
{
    match obj {
        Object::Tuple(v) => {
            proof {
                value::lemma_seq_deep(v@);
            }
            8 * v.len() as u128
        },
        Object::List(v) => {
            proof {
                value::lemma_seq_deep(v@);
            }
            8 * v.len() as u128
        },
        Object::MemoryView(m) => {
            let d: usize = if m.released {
                0
            } else {
                m.data.len()
            };
            let raw: u128 = 16 * m.shape.len() as u128 + d as u128 + m.format.len() as u128 + 1;
            let n: u128 = (raw + 7) / 8 * 8;
            if n < 8 {
                8
            } else {
                n
            }
        },
        _ => 0,
    }
}

impl BodyPlan {
    /// The plan for an object; `None` where its body or the buffer beside it
    /// would be too large for a block.
    pub fn for_object(obj: &Object) -> (r: Option<BodyPlan>)
        ensures
            match r {
                Some(p) => p.kind == kind_of(obj@) && p.body_size == body_len(obj@) && p.aux_size
                    == aux_len(obj@),
                None => body_len(obj@) > isize::MAX || aux_len(obj@) > isize::MAX,
            },
            r is Some ==> body_len(obj@) <= isize::MAX && aux_len(obj@) <= isize::MAX,
    {
        let (kind, size): (BodyKind, u128) = match obj {
            Object::Float(_) => (BodyKind::Float, FLOAT_SIZE as u128),
            Object::Complex(_, _) => (BodyKind::Complex, COMPLEX_SIZE as u128),
            Object::Int(_) | Object::Long(_) => {
                let n: usize = long_digit_count(obj);
                let digits: usize = if n == 0 {
                    1
                } else {
                    n
                };
                (BodyKind::Long, round_up(24 + 4 * digits as u128, 8))
            },
            Object::Bytes(b) => (BodyKind::Bytes, round_up(33 + b.len() as u128, 8)),
            Object::ByteArray(_) => (BodyKind::ByteArray, BYTEARRAY_SIZE as u128),
            Object::Str(s) => {
                let m: u32 = str_maxchar(s);
                (BodyKind::Str, text_plan(s.len(), m))
            },
            Object::WStr(s) => {
                let m: u32 = max_codepoint(s);
                (BodyKind::Str, text_plan(s.len(), m))
            },
            Object::Tuple(t) => {
                proof {
                    value::lemma_seq_deep(t@);
                }
                (BodyKind::Tuple, 24 + 8 * t.len() as u128)
            },
            Object::List(_) => (BodyKind::List, LIST_SIZE as u128),
            Object::Builtin => (BodyKind::CFunction, (CFUNCTION_SIZE + METHODDEF_SIZE) as u128),
            Object::BoundMethod(_) => (BodyKind::Method, METHOD_SIZE as u128),
            Object::Dict(_) => (BodyKind::Dict, DICT_SIZE as u128),
            Object::PySet(_) | Object::FrozenSet(_) => (BodyKind::PySet, SET_SIZE as u128),
            Object::Slice(_) => (BodyKind::Slice, SLICE_SIZE as u128),
            Object::MemoryView(_) => (BodyKind::MemoryView, MEMORYVIEW_SIZE as u128),
            _ => (BodyKind::Generic, HEAD as u128),
        };
        let aux: u128 = aux_plan(obj);
        if size > isize::MAX as u128 || aux > isize::MAX as u128 {
            return None;
        }
        Some(BodyPlan { kind, body_size: size as usize, aux_size: aux as usize })
    }
}

// ---------------------------------------------------------------------------
// Filling bodies
// ---------------------------------------------------------------------------

/// What a body needs to know besides its object.
#[derive(Clone, Copy, Debug, PartialEq, Eq, Structural)]
pub struct FillEnv {
    /// The address of the object.
    pub at: usize,
    /// The address of the buffer beside it.
    pub aux: usize,
    /// The hash of a text.
    pub hash: i64,
    /// The address and the capacity of a byte array's data.
    pub buffer: usize,
    pub capacity: usize,
    /// The method definition of a builtin, or zero, and its receiver.
    pub ml: usize,
    pub m_self: usize,
}

/// The words of signed numbers.
pub open spec fn nats64(s: Seq<i64>) -> Seq<nat> {
    s.map_values(|x: i64| (x as u64) as nat)
}

/// The strides of a memory view, one for each dimension.
pub open spec fn mv_strides(m: MemV) -> Seq<i64> {
    Seq::new(
        m.shape.len(),
        |i: int|
            if i < m.strides.len() {
                m.strides[i]
            } else {
                0
            },
    )
}

/// The buffer beside a memory view: shape, strides, data and format.
pub open spec fn mv_aux(m: MemV) -> Seq<u8> {
    let nd = m.shape.len() as int;
    let z = bytes::zeros(aux_len(ObjV::MemoryView(m)) as nat);
    let a = bytes::put(z, 0, bytes::flat(nats64(m.shape), 8));
    let b = bytes::put(a, 8 * nd, bytes::flat(nats64(mv_strides(m)), 8));
    let c = bytes::put(b, 16 * nd, mv_data(m));
    bytes::put(c, 16 * nd + mv_data(m).len(), m.format)
}

/// The flags of a memory view.
pub open spec fn mv_flags(m: MemV) -> u32 {
    if m.released {
        16
    } else if m.c_contiguous {
        if m.shape.len() <= 1 {
            3
        } else {
            1
        }
    } else {
        0
    }
}

/// The tail of a memory view, its pointers into the buffer at `aux`.
pub open spec fn mv_tail(m: MemV, aux: usize) -> Seq<u8> {
    let nd = m.shape.len() as int;
    let z = bytes::zeros((MEMORYVIEW_SIZE - HEAD) as nat);
    let a = with_field(z, 16, nd as u64);
    let b = with_field(a, 32, u64::MAX);
    let c = with_half(b, 40, mv_flags(m));
    let d = with_field(c, 56, (aux + 16 * nd) as u64);
    let e = with_field(d, 72, m.len as u64);
    let f = with_field(
        e,
        80,
        if m.itemsize < 1 {
            1
        } else {
            m.itemsize as u64
        },
    );
    let g = with_half(
        f,
        88,
        if m.readonly {
            1
        } else {
            0
        },
    );
    let h = with_half(g, 92, nd as u32);
    let i = with_field(h, 96, (aux + 16 * nd + mv_data(m).len()) as u64);
    if nd > 0 {
        with_field(with_field(i, 104, aux as u64), 112, (aux + 8 * nd) as u64)
    } else {
        i
    }
}

/// The tail of an object's body.
pub open spec fn body_tail(o: ObjV, env: FillEnv, kids: Seq<usize>) -> Seq<u8> {
    let size = (body_len(o) - HEAD) as nat;
    let z = bytes::zeros(size);
    match o {
        ObjV::Float(f) => with_field(z, 16, f),
        ObjV::Complex(re, im) => with_field(with_field(z, 16, re), 24, im),
        ObjV::Int(_) | ObjV::Long(_, _) => long_tail(o, size),
        ObjV::Bytes(b) => bytes::put(
            with_field(with_field(z, 16, b.len() as u64), 24, u64::MAX),
            32 - HEAD,
            b,
        ),
        ObjV::ByteArray(b) => bytearray_tail(z, b.len(), env.buffer, env.capacity),
        ObjV::Str(s) => text_tail(cps_of(s), max_cp(cps_of(s)), env.hash, size),
        ObjV::WStr(s) => text_tail(s, max_cp(s), env.hash, size),
        ObjV::Tuple(t) => bytes::put(
            with_field(z, 16, t.len() as u64),
            24 - HEAD,
            bytes::flat(bytes::nats(kids), 8),
        ),
        ObjV::List(t) => with_field(
            with_field(
                with_field(z, 16, t.len() as u64),
                24,
                if t.len() == 0 {
                    0
                } else {
                    env.aux as u64
                },
            ),
            32,
            t.len() as u64,
        ),
        ObjV::Builtin => with_field(
            with_field(
                z,
                16,
                if env.ml != 0 {
                    env.ml as u64
                } else {
                    (env.at + CFUNCTION_SIZE) as u64
                },
            ),
            24,
            env.m_self as u64,
        ),
        ObjV::BoundMethod(_) => with_field(with_field(z, 16, kids[0] as u64), 24, kids[1] as u64),
        ObjV::Dict(v) => with_field(z, 16, (v.len() / 2) as u64),
        ObjV::PySet(n) | ObjV::FrozenSet(n) => set_tail(z, n, env.at),
        ObjV::Slice(_) => with_field(
            with_field(with_field(z, 16, kids[0] as u64), 24, kids[1] as u64),
            32,
            kids[2] as u64,
        ),
        ObjV::MemoryView(m) => mv_tail(m, env.aux),
        _ => z,
    }
}

/// The tail of a byte array of this length over the data at `buffer`; an
/// empty one has no data.
pub open spec fn bytearray_tail(z: Seq<u8>, len: nat, buffer: usize, capacity: usize) -> Seq<u8> {
    let data = if len == 0 {
        0
    } else {
        buffer as u64
    };
    with_field(
        with_field(
            with_field(with_field(with_field(z, 16, len as u64), 24, capacity as u64), 32, data),
            40,
            data,
        ),
        48,
        0,
    )
}

/// The tail of a set of this size: an empty inline table, no hash.
pub open spec fn set_tail(z: Seq<u8>, n: usize, at: usize) -> Seq<u8> {
    with_field(
        with_field(
            with_field(with_field(with_field(z, 16, n as u64), 24, n as u64), 32, 7),
            40,
            (at + SET_TABLE) as u64,
        ),
        48,
        u64::MAX,
    )
}

/// The buffer beside an object's body.
pub open spec fn body_aux(o: ObjV, kids: Seq<usize>) -> Seq<u8> {
    match o {
        ObjV::Tuple(_) => bytes::flat(bytes::nats(kids), 8),
        ObjV::List(_) => bytes::flat(bytes::nats(kids), 8),
        ObjV::MemoryView(m) => mv_aux(m),
        _ => Seq::empty(),
    }
}

/// Write the fields of a byte array.
pub fn write_bytearray_fields(tail: &mut Vec<u8>, len: usize, buffer: usize, capacity: usize)
    requires
        old(tail)@.len() == BYTEARRAY_SIZE - HEAD,
    ensures
        final(tail)@ == bytearray_tail(old(tail)@, len as nat, buffer, capacity),
{
    let data: u64 = if len == 0 {
        0
    } else {
        buffer as u64
    };
    set_field(tail, 16, len as u64);
    set_field(tail, 24, capacity as u64);
    set_field(tail, 32, data);
    set_field(tail, 40, data);
    set_field(tail, 48, 0);
}

fn put_bytes(b: &mut Vec<u8>, off: usize, s: &Vec<u8>)
    requires
        off + s@.len() <= old(b)@.len(),
    ensures
        final(b)@ == bytes::put(old(b)@, off as int, s@),
{
    let size: usize = b.len();
    let mut i: usize = 0;
    assert(b@ =~= bytes::put(old(b)@, off as int, s@.subrange(0, 0)));
    while i < s.len()
        invariant
            i <= s@.len(),
            off + s@.len() <= size == b@.len(),
            b@ == bytes::put(old(b)@, off as int, s@.subrange(0, i as int)),
            old(b)@.len() == size,
        decreases s.len() - i,
    {
        b.set(off + i, s[i]);
        i = i + 1;
        assert(b@ =~= bytes::put(old(b)@, off as int, s@.subrange(0, i as int)));
    }
    assert(s@.subrange(0, s@.len() as int) =~= s@);
}

fn put_signed(b: &mut Vec<u8>, off: usize, s: &Vec<i64>)
    requires
        off + s@.len() * 8 <= old(b)@.len(),
    ensures
        final(b)@ == bytes::put(old(b)@, off as int, bytes::flat(nats64(s@), 8)),
{
    let size: usize = b.len();
    let mut i: usize = 0;
    let mut at: usize = off;
    assert(b@ =~= bytes::put(old(b)@, off as int, bytes::flat(nats64(s@.subrange(0, 0)), 8)));
    while i < s.len()
        invariant
            i <= s@.len(),
            off + s@.len() * 8 <= size,
            size == b@.len(),
            size == old(b)@.len(),
            at == off + i * 8,
            b@ == bytes::put(
                old(b)@,
                off as int,
                bytes::flat(nats64(s@.subrange(0, i as int)), 8),
            ),
        decreases s.len() - i,
    {
        let v: u64 = #[verifier::truncate] (s[i] as u64);
        proof {
            let done = nats64(s@.subrange(0, i as int));
            bytes::lemma_flat_len(done, 8);
            bytes::lemma_le_bytes(v as nat, 8);
            bytes::lemma_put_append(
                old(b)@,
                off as int,
                bytes::flat(done, 8),
                bytes::le_bytes(v as nat, 8),
            );
            bytes::lemma_flat_push(done, v as nat, 8);
            assert(nats64(s@.subrange(0, i + 1)) =~= done.push(v as nat));
        }
        put_u64(b, at, v);
        at = at + 8;
        i = i + 1;
    }
    assert(s@.subrange(0, s@.len() as int) =~= s@);
}

fn strides_of(m: &MemView) -> (r: Vec<i64>)
    ensures
        r@ == mv_strides(value::mem_view(*m)),
{
    let mut out: Vec<i64> = Vec::new();
    let mut i: usize = 0;
    while i < m.shape.len()
        invariant
            i <= m.shape@.len(),
            out@ == mv_strides(value::mem_view(*m)).subrange(0, i as int),
        decreases m.shape.len() - i,
    {
        out.push(
            if i < m.strides.len() {
                m.strides[i]
            } else {
                0
            },
        );
        i = i + 1;
        assert(out@ =~= mv_strides(value::mem_view(*m)).subrange(0, i as int));
    }
    assert(out@ =~= mv_strides(value::mem_view(*m)));
    out
}

fn fill_memoryview(m: &MemView, aux: usize, aux_size: usize) -> (r: (Vec<u8>, Vec<u8>))
    requires
        aux_size == aux_len(ObjV::MemoryView(value::mem_view(*m))),
        aux + aux_size <= usize::MAX,
    ensures
        r.0@ == mv_tail(value::mem_view(*m), aux),
        r.1@ == mv_aux(value::mem_view(*m)),
{
    let ghost v = value::mem_view(*m);
    let nd: usize = m.shape.len();
    let n_data: usize = if m.released {
        0
    } else {
        m.data.len()
    };
    assert(16 * nd + n_data + v.format.len() + 1 <= aux_size);
    let mut x: Vec<u8> = zero_block(aux_size);
    put_signed(&mut x, 0, &m.shape);
    put_signed(&mut x, 8 * nd, &strides_of(m));
    if m.released {
        assert(x@ =~= bytes::put(x@, 16 * nd, Seq::<u8>::empty()));
    } else {
        put_bytes(&mut x, 16 * nd, &m.data);
    }
    put_bytes(&mut x, 16 * nd + n_data, &m.format);
    let flags: u32 = if m.released {
        16
    } else if m.c_contiguous {
        if nd <= 1 {
            3
        } else {
            1
        }
    } else {
        0
    };
    let mut b: Vec<u8> = zero_block(MEMORYVIEW_SIZE - HEAD);
    set_field(&mut b, 16, nd as u64);
    set_field(&mut b, 32, u64::MAX);
    set_half(&mut b, 40, flags);
    set_field(&mut b, 56, (aux + 16 * nd) as u64);
    set_field(&mut b, 72, m.len as u64);
    set_field(
        &mut b,
        80,
        if m.itemsize < 1 {
            1
        } else {
            m.itemsize as u64
        },
    );
    set_half(
        &mut b,
        88,
        if m.readonly {
            1
        } else {
            0
        },
    );
    set_half(&mut b, 92, #[verifier::truncate] (nd as u32));
    set_field(&mut b, 96, (aux + 16 * nd + n_data) as u64);
    if nd > 0 {
        set_field(&mut b, 104, aux as u64);
        set_field(&mut b, 112, (aux + 8 * nd) as u64);
    }
    (b, x)
}

/// Fill the body of an object and the buffer beside it. `kids` are the
/// addresses of the objects inside it, in order.
pub fn fill_body(obj: &Object, plan: &BodyPlan, env: &FillEnv, kids: &Vec<usize>) -> (r: (
    Vec<u8>,
    Vec<u8>,
))
    requires
        plan.body_size == body_len(obj@),
        plan.aux_size == aux_len(obj@),
        env.at + SET_SIZE <= usize::MAX,
        env.aux + plan.aux_size <= usize::MAX,
        kids@.len() == kids_of(obj@).len(),
        obj@ is BoundMethod ==> kids@.len() == 2,
        obj@ is Slice ==> kids@.len() == 3,
    ensures
        r.0@ == body_tail(obj@, *env, kids@),
        r.0@.len() == body_len(obj@) - HEAD,
        r.1@ == body_aux(obj@, kids@),
        r.1@.len() == aux_len(obj@),
{
    let size: usize = plan.body_size - HEAD;
    let mut b: Vec<u8> = Vec::new();
    let mut x: Vec<u8> = Vec::new();
    match obj {
        Object::Float(f) => {
            b = zero_block(size);
            set_field(&mut b, 16, *f);
        },
        Object::Complex(re, im) => {
            b = zero_block(size);
            set_field(&mut b, 16, *re);
            set_field(&mut b, 24, *im);
        },
        Object::Int(_) | Object::Long(_) => {
            b = fill_long(obj, size);
        },
        Object::Bytes(s) => {
            b = zero_block(size);
            set_field(&mut b, 16, s.len() as u64);
            set_field(&mut b, 24, u64::MAX);
            put_bytes(&mut b, 32 - HEAD, s);
        },
        Object::ByteArray(s) => {
            b = zero_block(size);
            write_bytearray_fields(&mut b, s.len(), env.buffer, env.capacity);
        },
        Object::Str(s) => {
            let cps: Vec<u32> = codepoints(s);
            proof {
                let w = form_of(max_cp(cps@)).width;
                assert((cps@.len() + 1) * w == cps@.len() * w + w) by (nonlinear_arith);
                assert(cps@.len() * w >= 0) by (nonlinear_arith);
            }
            b = fill_str(&cps, env.hash, size);
        },
        Object::WStr(cps) => {
            proof {
                let w = form_of(max_cp(cps@)).width;
                assert((cps@.len() + 1) * w == cps@.len() * w + w) by (nonlinear_arith);
                assert(cps@.len() * w >= 0) by (nonlinear_arith);
            }
            b = fill_str(cps, env.hash, size);
        },
        Object::Tuple(t) => {
            proof {
                value::lemma_seq_deep(t@);
                bytes::lemma_flat_len(bytes::nats(kids@), 8);
            }
            b = zero_block(size);
            set_field(&mut b, 16, t.len() as u64);
            put_slots(&mut b, 24 - HEAD, kids);
            x = zero_block(plan.aux_size);
            put_slots(&mut x, 0, kids);
            assert(x@ =~= bytes::flat(bytes::nats(kids@), 8));
        },
        Object::List(t) => {
            proof {
                value::lemma_seq_deep(t@);
                bytes::lemma_flat_len(bytes::nats(kids@), 8);
            }
            b = zero_block(size);
            set_field(&mut b, 16, t.len() as u64);
            set_field(
                &mut b,
                24,
                if t.len() == 0 {
                    0
                } else {
                    env.aux as u64
                },
            );
            set_field(&mut b, 32, t.len() as u64);
            x = zero_block(plan.aux_size);
            put_slots(&mut x, 0, kids);
            assert(x@ =~= bytes::flat(bytes::nats(kids@), 8));
        },
        Object::Builtin => {
            b = zero_block(size);
            set_field(
                &mut b,
                16,
                if env.ml != 0 {
                    env.ml as u64
                } else {
                    (env.at + CFUNCTION_SIZE) as u64
                },
            );
            set_field(&mut b, 24, env.m_self as u64);
        },
        Object::BoundMethod(_) => {
            b = zero_block(size);
            set_field(&mut b, 16, kids[0] as u64);
            set_field(&mut b, 24, kids[1] as u64);
        },
        Object::Dict(v) => {
            proof {
                value::lemma_seq_deep(v@);
            }
            b = zero_block(size);
            set_field(&mut b, 16, (v.len() / 2) as u64);
        },
        Object::PySet(n) | Object::FrozenSet(n) => {
            b = zero_block(size);
            set_field(&mut b, 16, *n as u64);
            set_field(&mut b, 24, *n as u64);
            set_field(&mut b, 32, 7);
            set_field(&mut b, 40, (env.at + SET_TABLE) as u64);
            set_field(&mut b, 48, u64::MAX);
        },
        Object::Slice(_) => {
            b = zero_block(size);
            set_field(&mut b, 16, kids[0] as u64);
            set_field(&mut b, 24, kids[1] as u64);
            set_field(&mut b, 32, kids[2] as u64);
        },
        Object::MemoryView(m) => {
            let (t, a): (Vec<u8>, Vec<u8>) = fill_memoryview(m, env.aux, plan.aux_size);
            b = t;
            x = a;
        },
        _ => {
            b = zero_block(size);
        },
    }
    (b, x)
}

} // verus!
