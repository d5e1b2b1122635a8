//! `PyLong_*`: constructing, parsing and reading Python integers.
//!
//! Where an argument is neither int nor bool, its `__index__` is consulted;
//! `index` is what that call returned, `None` where it failed with an
//! exception of its own.

use vstd::prelude::*;
use vstd::arithmetic::power2::*;
use crate::bignum;
use crate::bignum::{
    big_add,
    big_from,
    big_from_bytes_le,
    big_from_signed_bytes_le,
    big_neg,
    big_parse_bytes,
    big_rem,
    big_shl,
    big_to_bytes_le,
    big_to_i64,
    big_to_signed_bytes_le,
    big_to_u64,
    int_from_bigint,
};
use crate::errors;
use crate::errors::{raise, raise_str, ExcKind, Failure};
use crate::strings;
use crate::text;
use crate::text::{push_all, push_dec, push_str};
use crate::utf8::decode;
use crate::value;
use crate::value::{BigNum, Object, Sign};

verus! {

/// What `__index__` returned, as a builtin integer.
pub fn index_to_builtin_int(index: Option<&Object>) -> (r: Result<&Object, Failure>)
    ensures
        match index {
            None => errors::silent(r),
            Some(o) => if bignum::is_int(*o) {
                r is Ok && *r->Ok_0 == *o
            } else {
                errors::raises(
                    r,
                    ExcKind::TypeError,
                    "__index__ returned non-int (the object cannot be interpreted as an integer)"@,
                )
            },
        },
{
    match index {
        None => Err(Failure::Silent),
        Some(o) => match o {
            Object::Int(_) | Object::Long(_) | Object::Bool(_) => Ok(o),
            _ => Err(
                raise_str(
                    ExcKind::TypeError,
                    "__index__ returned non-int (the object cannot be interpreted as an integer)",
                ),
            ),
        },
    }
}

// ---------------------------------------------------------------------------
// Construction.
// ---------------------------------------------------------------------------

/// A Python int from a C `long`.
pub fn PyLong_FromLong(v: i64) -> (r: Object)
    ensures
        bignum::normal_int(r, v as int),
{
    Object::Int(v)
}

/// A Python int from a C `long long`.
pub fn PyLong_FromLongLong(v: i64) -> (r: Object)
    ensures
        bignum::normal_int(r, v as int),
{
    Object::Int(v)
}

/// A Python int from a C `unsigned long`.
pub fn PyLong_FromUnsignedLong(v: u64) -> (r: Object)
    ensures
        bignum::normal_int(r, v as int),
{
    if v <= i64::MAX as u64 {
        Object::Int(v as i64)
    } else {
        Object::Long(big_from(v as i128))
    }
}

/// A Python int from a C `unsigned long long`.
pub fn PyLong_FromUnsignedLongLong(v: u64) -> (r: Object)
    ensures
        bignum::normal_int(r, v as int),
{
    PyLong_FromUnsignedLong(v)
}

/// A Python int from a `Py_ssize_t`.
pub fn PyLong_FromSsize_t(v: isize) -> (r: Object)
    ensures
        bignum::normal_int(r, v as int),
{
    Object::Int(v as i64)
}

/// A Python int from a `size_t`.
pub fn PyLong_FromSize_t(v: usize) -> (r: Object)
    ensures
        bignum::normal_int(r, v as int),
{
    PyLong_FromUnsignedLong(v as u64)
}

/// The bits of an address, read as a signed 64-bit integer.
pub fn PyLong_FromVoidPtr(p: usize) -> (r: Object)
    ensures
        r is Int,
        r->Int_0 == p as i64,
{
    Object::Int(#[verifier::truncate] (p as i64))
}

/// Bits per digit and bytes per digit.
pub fn PyLong_GetInfo() -> (r: (i64, i64))
    ensures
        r == (30i64, 4i64),
{
    (30, 4)
}

// ---------------------------------------------------------------------------
// Doubles, by their bit patterns.
// ---------------------------------------------------------------------------

/// The biased exponent of a double.
pub open spec fn float_exp(bits: u64) -> int {
    (bits / 0x10_0000_0000_0000) as int % 2048
}

/// The fraction field of a double.
pub open spec fn float_man(bits: u64) -> int {
    bits as int % 0x10_0000_0000_0000
}

/// The sign bit of a double.
pub open spec fn float_neg(bits: u64) -> bool {
    bits >= 0x8000_0000_0000_0000
}

/// The double is not a number.
pub open spec fn float_nan(bits: u64) -> bool {
    float_exp(bits) == 2047 && float_man(bits) != 0
}

/// The double is infinite.
pub open spec fn float_inf(bits: u64) -> bool {
    float_exp(bits) == 2047 && float_man(bits) == 0
}

/// The magnitude of a finite double, truncated to a whole number.
pub open spec fn float_mag(bits: u64) -> int {
    let e = float_exp(bits);
    let m = 0x10_0000_0000_0000 + float_man(bits);
    if e < 1023 {
        0
    } else if e < 1075 {
        m / (pow2((1075 - e) as nat) as int)
    } else {
        m * pow2((e - 1075) as nat)
    }
}

/// A finite double truncated towards zero.
pub open spec fn float_int(bits: u64) -> int {
    if float_neg(bits) {
        -float_mag(bits)
    } else {
        float_mag(bits)
    }
}

/// A Python int from a double: truncation towards zero, exact at any size.
pub fn float_to_int_object(bits: u64) -> (r: Result<Object, Failure>)
    ensures
        float_nan(bits) ==> errors::raises(
            r,
            ExcKind::ValueError,
            "cannot convert float NaN to integer"@,
        ),
        float_inf(bits) ==> errors::raises(
            r,
            ExcKind::OverflowError,
            "cannot convert float infinity to integer"@,
        ),
        !float_nan(bits) && !float_inf(bits) ==> r is Ok && bignum::normal_int(
            r->Ok_0,
            float_int(bits),
        ),
{
    let e: u64 = bits / 0x10_0000_0000_0000 % 2048;
    let man: u64 = bits % 0x10_0000_0000_0000;
    let neg: bool = bits >= 0x8000_0000_0000_0000;
    if e == 2047 {
        if man != 0 {
            return Err(raise_str(ExcKind::ValueError, "cannot convert float NaN to integer"));
        }
        return Err(raise_str(ExcKind::OverflowError, "cannot convert float infinity to integer"));
    }
    let m: u64 = 0x10_0000_0000_0000 + man;
    if e < 1023 {
        return Ok(Object::Int(0));
    }
    if e < 1075 {
        let shift: u64 = 1075 - e;
        proof {
            vstd::bits::lemma_u64_shr_is_div(m, shift);
            lemma_pow2_pos(shift as nat);
            let p = pow2(shift as nat) as int;
            assert(0 <= m as int / p <= m as int) by (nonlinear_arith)
                requires
                    p >= 1,
                    m >= 0,
            ;
        }
        let q: u64 = m >> shift;
        return Ok(
            Object::Int(
                if neg {
                    -(q as i64)
                } else {
                    q as i64
                },
            ),
        );
    }
    let big: BigNum = big_shl(&big_from(m as i128), (e - 1075) as u32);
    if neg {
        Ok(int_from_bigint(big_neg(&big)))
    } else {
        Ok(int_from_bigint(big))
    }
}

/// A Python int from a double.
pub fn PyLong_FromDouble(bits: u64) -> (r: Result<Object, Failure>)
    ensures
        float_nan(bits) ==> errors::raises(
            r,
            ExcKind::ValueError,
            "cannot convert float NaN to integer"@,
        ),
        float_inf(bits) ==> errors::raises(
            r,
            ExcKind::OverflowError,
            "cannot convert float infinity to integer"@,
        ),
        !float_nan(bits) && !float_inf(bits) ==> r is Ok && bignum::normal_int(
            r->Ok_0,
            float_int(bits),
        ),
{
    float_to_int_object(bits)
}

/// An integer brought into the 64-bit range.
pub open spec fn clamp_i64(v: int) -> i64 {
    if v < i64::MIN {
        i64::MIN
    } else if v > i64::MAX {
        i64::MAX
    } else {
        v as i64
    }
}

/// A double truncated and brought into the 64-bit range; zero for a NaN.
pub open spec fn float_trunc(bits: u64) -> i64 {
    if float_nan(bits) {
        0
    } else if float_inf(bits) {
        if float_neg(bits) {
            i64::MIN
        } else {
            i64::MAX
        }
    } else {
        clamp_i64(float_int(bits))
    }
}

fn trunc_to_i64(bits: u64) -> (r: i64)
    ensures
        r == float_trunc(bits),
{
    match float_to_int_object(bits) {
        Ok(Object::Int(v)) => v,
        Ok(Object::Long(b)) => match b.sign {
            Sign::Minus => i64::MIN,
            _ => i64::MAX,
        },
        Ok(_) => 0,
        Err(_) => {
            if bits % 0x10_0000_0000_0000 != 0 {
                0
            } else if bits >= 0x8000_0000_0000_0000 {
                i64::MIN
            } else {
                i64::MAX
            }
        },
    }
}

// ---------------------------------------------------------------------------
// Parsing.
// ---------------------------------------------------------------------------

/// ASCII whitespace: space, tab, line feed, form feed, carriage return.
pub open spec fn ascii_space(c: u8) -> bool {
    c == 32 || c == 9 || c == 10 || c == 12 || c == 13
}

fn is_ascii_space(c: u8) -> (r: bool)
    ensures
        r == ascii_space(c),
{
    c == 32 || c == 9 || c == 10 || c == 12 || c == 13
}

/// True if ASCII byte `c` is a valid digit in `radix`.
pub fn digit_in_radix(c: u8, radix: u32) -> (r: bool)
    ensures
        r == (bignum::digit_value(c) < 36 && bignum::digit_value(c) < radix),
{
    let v: u32 = if c >= 48 && c <= 57 {
        (c - 48) as u32
    } else if c >= 97 && c <= 122 {
        (c - 97) as u32 + 10
    } else if c >= 65 && c <= 90 {
        (c - 65) as u32 + 10
    } else {
        return false;
    };
    v < radix
}

/// `c` is a digit of the radix.
pub open spec fn is_digit(c: u8, radix: int) -> bool {
    bignum::digit_value(c) < 36 && bignum::digit_value(c) < radix
}

/// The first index at or after `i` that is not whitespace.
pub open spec fn past_space(b: Seq<u8>, i: int) -> int
    decreases b.len() - i,
{
    if i < 0 || i >= b.len() || !ascii_space(b[i]) {
        i
    } else {
        past_space(b, i + 1)
    }
}

/// Where the digits go on after a digit that ends before `i`: over further
/// digits, and over single underscores that have a digit behind them.
pub open spec fn past_digits(b: Seq<u8>, i: int, radix: int) -> int
    decreases b.len() - i,
{
    if i < 0 || i >= b.len() {
        i
    } else if is_digit(b[i], radix) {
        past_digits(b, i + 1, radix)
    } else if b[i] == 95 && i + 1 < b.len() && is_digit(b[i + 1], radix) {
        past_digits(b, i + 2, radix)
    } else {
        i
    }
}

/// The end of the run of digits and separators that starts at `i`; `i` itself
/// where there is no digit.
pub open spec fn run_end(b: Seq<u8>, i: int, radix: int) -> int {
    if 0 <= i < b.len() && is_digit(b[i], radix) {
        past_digits(b, i + 1, radix)
    } else {
        i
    }
}

/// The digits among some bytes, without the underscores.
pub open spec fn bare(s: Seq<u8>) -> Seq<u8>
    decreases s.len(),
{
    if s.len() == 0 {
        s
    } else if s.last() == 95 {
        bare(s.drop_last())
    } else {
        bare(s.drop_last()).push(s.last())
    }
}

/// A zero followed by one of two letters stands at `i`.
pub open spec fn has_prefix(b: Seq<u8>, i: int, lo: u8, hi: u8) -> bool {
    0 <= i && i + 1 < b.len() && b[i] == 48 && (b[i + 1] == lo || b[i + 1] == hi)
}

/// Where the sign, if there is one, ends.
pub open spec fn past_sign(b: Seq<u8>) -> int {
    let i = past_space(b, 0);
    if i < b.len() && (b[i] == 43 || b[i] == 45) {
        i + 1
    } else {
        i
    }
}

/// There is a minus sign.
pub open spec fn has_minus(b: Seq<u8>) -> bool {
    let i = past_space(b, 0);
    i < b.len() && b[i] == 45
}

/// The radix that a base argument and the text select.
pub open spec fn radix_of(b: Seq<u8>, base: i32) -> int {
    let i = past_sign(b);
    if base != 0 {
        base as int
    } else if has_prefix(b, i, 120, 88) {
        16
    } else if has_prefix(b, i, 111, 79) {
        8
    } else if has_prefix(b, i, 98, 66) {
        2
    } else {
        10
    }
}

/// Where the digits start: behind the prefix of the radix, if it is there.
pub open spec fn digits_start(b: Seq<u8>, base: i32) -> int {
    let i = past_sign(b);
    if (base == 0 || base == 16) && has_prefix(b, i, 120, 88) {
        i + 2
    } else if (base == 0 || base == 8) && has_prefix(b, i, 111, 79) {
        i + 2
    } else if (base == 0 || base == 2) && has_prefix(b, i, 98, 66) {
        i + 2
    } else {
        i
    }
}

/// With base 0 and no prefix, a leading zero admits only zeros.
pub open spec fn zeros_only(b: Seq<u8>, base: i32) -> bool {
    let i = past_sign(b);
    base == 0 && digits_start(b, base) == i && i < b.len() && b[i] == 48
}

/// What [`PyLong_FromString`] reads from a text.
pub struct Literal {
    /// The digits, without separators.
    pub digits: Seq<u8>,
    pub radix: int,
    pub negative: bool,
    /// Where the literal ends.
    pub end: int,
}

/// The integer literal at the start of a text.
pub open spec fn literal(b: Seq<u8>, base: i32) -> Literal {
    let radix = radix_of(b, base);
    let start = digits_start(b, base);
    let end = run_end(b, start, radix);
    Literal { digits: bare(b.subrange(start, end)), radix, negative: has_minus(b), end }
}

/// The text starts with a well-formed integer literal, and nothing but
/// whitespace is behind it unless `partial` is set.
pub open spec fn literal_ok(b: Seq<u8>, base: i32, partial: bool) -> bool {
    let l = literal(b, base);
    &&& l.digits.len() > 0
    &&& zeros_only(b, base) ==> forall|i: int| 0 <= i < l.digits.len() ==> l.digits[i] == 48
    &&& partial || past_space(b, l.end) == b.len()
}

/// The integer that a literal denotes.
pub open spec fn literal_value(l: Literal) -> int {
    if l.negative {
        -bignum::digits_value(l.digits, l.radix)
    } else {
        bignum::digits_value(l.digits, l.radix)
    }
}

/// The text without whitespace at either end.
pub open spec fn trimmed(s: Seq<char>) -> Seq<char> {
    strings::trim_end(s.subrange(strings::ws_from(s, 0, false), s.len() as int))
}

/// A text that is not valid UTF-8 counts as empty.
pub open spec fn utf8_or_empty(b: Seq<u8>) -> Seq<u8> {
    if vstd::utf8::valid_utf8(b) {
        b
    } else {
        Seq::empty()
    }
}

/// The message for a text that is no literal.
pub open spec fn invalid_literal(b: Seq<u8>, base: i32) -> Seq<char> {
    "invalid literal for int() with base "@ + text::dec(
        if base == 0 {
            10
        } else {
            base as int
        },
    ) + ": '"@ + trimmed(strings::decoded(b)) + "'"@
}

fn scan_space(b: &[u8], from: usize) -> (r: usize)
    requires
        from <= b@.len(),
    ensures
        r == past_space(b@, from as int),
        from <= r <= b@.len(),
{
    let mut i: usize = from;
    while i < b.len() && is_ascii_space(b[i])
        invariant
            from <= i <= b@.len(),
            past_space(b@, from as int) == past_space(b@, i as int),
        decreases b.len() - i,
    {
        i = i + 1;
    }
    i
}

fn prefixed(b: &[u8], i: usize, lo: u8, hi: u8) -> (r: bool)
    requires
        i <= b@.len(),
    ensures
        r == has_prefix(b@, i as int, lo, hi),
{
    b.len() - i >= 2 && b[i] == 48 && (b[i + 1] == lo || b[i + 1] == hi)
}

proof fn lemma_bare_push(s: Seq<u8>, c: u8)
    ensures
        bare(s.push(c)) == (if c == 95 {
            bare(s)
        } else {
            bare(s).push(c)
        }),
{
    assert(s.push(c).drop_last() =~= s);
}

/// Scan a run of digits and separators: the digits and where the run ends.
fn scan_digits(b: &[u8], start: usize, radix: u32) -> (r: (Vec<u8>, usize))
    requires
        start <= b@.len(),
        2 <= radix <= 36,
    ensures
        r.1 == run_end(b@, start as int, radix as int),
        start <= r.1 <= b@.len(),
        r.0@ == bare(b@.subrange(start as int, r.1 as int)),
        forall|k: int| 0 <= k < r.0@.len() ==> is_digit(#[trigger] r.0@[k], radix as int),
{
    let mut digits: Vec<u8> = Vec::new();
    let mut i: usize = start;
    assert(b@.subrange(start as int, start as int) =~= Seq::<u8>::empty());
    if i >= b.len() || !digit_in_radix(b[i], radix) {
        return (digits, i);
    }
    digits.push(b[i]);
    i = i + 1;
    proof {
        lemma_bare_push(b@.subrange(start as int, start as int), b@[start as int]);
        assert(b@.subrange(start as int, start + 1) =~= b@.subrange(
            start as int,
            start as int,
        ).push(b@[start as int]));
    }
    while i < b.len()
        invariant
            start < i <= b@.len(),
            2 <= radix <= 36,
            run_end(b@, start as int, radix as int) == past_digits(b@, i as int, radix as int),
            digits@ == bare(b@.subrange(start as int, i as int)),
            forall|k: int| 0 <= k < digits@.len() ==> is_digit(#[trigger] digits@[k], radix as int),
        decreases b.len() - i,
    {
        let c: u8 = b[i];
        if digit_in_radix(c, radix) {
            proof {
                lemma_bare_push(b@.subrange(start as int, i as int), c);
                assert(b@.subrange(start as int, i + 1) =~= b@.subrange(
                    start as int,
                    i as int,
                ).push(c));
            }
            digits.push(c);
            i = i + 1;
        } else if c == 95 && b.len() - i >= 2 && digit_in_radix(b[i + 1], radix) {
            let d: u8 = b[i + 1];
            proof {
                lemma_bare_push(b@.subrange(start as int, i as int), c);
                assert(b@.subrange(start as int, i + 1) =~= b@.subrange(
                    start as int,
                    i as int,
                ).push(c));
                lemma_bare_push(b@.subrange(start as int, i + 1), d);
                assert(b@.subrange(start as int, i + 2) =~= b@.subrange(
                    start as int,
                    i + 1,
                ).push(d));
            }
            digits.push(d);
            i = i + 2;
        } else {
            return (digits, i);
        }
    }
    (digits, i)
}

fn all_zeros(d: &Vec<u8>) -> (r: bool)
    ensures
        r == (forall|i: int| 0 <= i < d@.len() ==> d@[i] == 48),
{
    let mut i: usize = 0;
    while i < d.len()
        invariant
            i <= d@.len(),
            forall|k: int| 0 <= k < i ==> d@[k] == 48,
        decreases d.len() - i,
    {
        if d[i] != 48 {
            return false;
        }
        i = i + 1;
    }
    true
}

fn literal_failure(chars: &Vec<char>, base: i32) -> (r: Failure)
    ensures
        r@ == errors::FailureView::Raised(
            ExcKind::ValueError,
            "invalid literal for int() with base "@ + text::dec(
                if base == 0 {
                    10
                } else {
                    base as int
                },
            ) + ": '"@ + trimmed(chars@) + "'"@,
        ),
{
    let mut m: Vec<char> = text::text("invalid literal for int() with base ");
    push_dec(
        &mut m,
        if base == 0 {
            10
        } else {
            base as i128
        },
    );
    push_str(&mut m, ": '");
    let a: usize = strings::skip_ws(chars, 0, false);
    let tail: Vec<char> = text::slice_of(chars.as_slice(), a, chars.len());
    let t: Vec<char> = strings::trim_end_of(tail.as_slice());
    push_all(&mut m, t.as_slice());
    push_str(&mut m, "'");
    raise(ExcKind::ValueError, m)
}

/// Parse an integer from a C string (given without its NUL). Returns the value
/// and the index of the first character that was not consumed. With `partial`
/// anything may follow the literal; without it only whitespace may.
pub fn PyLong_FromString(s: Option<&[u8]>, partial: bool, base: i32) -> (r: Result<
    (Object, usize),
    Failure,
>)
    ensures
        match s {
            None => errors::raises(
                r,
                ExcKind::ValueError,
                "PyLong_FromString: NULL pointer"@,
            ),
            Some(raw) => if base != 0 && !(2 <= base <= 36) {
                errors::raises(
                    r,
                    ExcKind::ValueError,
                    "int() base must be >= 2 and <= 36, or 0"@,
                )
            } else {
                let b = utf8_or_empty(raw@);
                if literal_ok(b, base, partial) {
                    r is Ok && bignum::normal_int(r->Ok_0.0, literal_value(literal(b, base)))
                        && r->Ok_0.1 == literal(b, base).end
                } else {
                    errors::raises(r, ExcKind::ValueError, invalid_literal(raw@, base))
                }
            },
        },
{
    let raw = match s {
        None => {
            return Err(raise_str(ExcKind::ValueError, "PyLong_FromString: NULL pointer"));
        },
        Some(raw) => raw,
    };
    if base != 0 && !(2 <= base && base <= 36) {
        return Err(raise_str(ExcKind::ValueError, "int() base must be >= 2 and <= 36, or 0"));
    }
    match decode(raw) {
        Some(chars) => parse_literal(raw, &chars, partial, base),
        None => {
            let none: Vec<u8> = Vec::new();
            let no_chars: Vec<char> = Vec::new();
            assert(none@ =~= Seq::<u8>::empty());
            assert(no_chars@ =~= Seq::<char>::empty());
            parse_literal(none.as_slice(), &no_chars, partial, base)
        },
    }
}

fn parse_literal(b: &[u8], chars: &Vec<char>, partial: bool, base: i32) -> (r: Result<
    (Object, usize),
    Failure,
>)
    requires
        base == 0 || 2 <= base <= 36,
    ensures
        if literal_ok(b@, base, partial) {
            r is Ok && bignum::normal_int(r->Ok_0.0, literal_value(literal(b@, base)))
                && r->Ok_0.1 == literal(b@, base).end
        } else {
            errors::raises(
                r,
                ExcKind::ValueError,
                "invalid literal for int() with base "@ + text::dec(
                    if base == 0 {
                        10
                    } else {
                        base as int
                    },
                ) + ": '"@ + trimmed(chars@) + "'"@,
            )
        },
{
    let mut i: usize = scan_space(b, 0);
    let mut negative: bool = false;
    if i < b.len() && (b[i] == 43 || b[i] == 45) {
        negative = b[i] == 45;
        i = i + 1;
    }
    assert(i == past_sign(b@));
    let mut radix: u32 = base as u32;
    let mut only_zeros: bool = false;
    if (base == 0 || base == 16) && prefixed(b, i, 120, 88) {
        radix = 16;
        i = i + 2;
    } else if (base == 0 || base == 8) && prefixed(b, i, 111, 79) {
        radix = 8;
        i = i + 2;
    } else if (base == 0 || base == 2) && prefixed(b, i, 98, 66) {
        radix = 2;
        i = i + 2;
    } else if base == 0 {
        radix = 10;
        if i < b.len() && b[i] == 48 {
            only_zeros = true;
        }
    }
    assert(i == digits_start(b@, base));
    assert(radix == radix_of(b@, base));
    assert(only_zeros == zeros_only(b@, base));
    let scanned = scan_digits(b, i, radix);
    let digits: Vec<u8> = scanned.0;
    let consumed: usize = scanned.1;
    if digits.len() == 0 {
        return Err(literal_failure(chars, base));
    }
    if only_zeros && !all_zeros(&digits) {
        return Err(literal_failure(chars, base));
    }
    let j: usize = scan_space(b, consumed);
    if !partial && j != b.len() {
        return Err(literal_failure(chars, base));
    }
    assert(digits@ == literal(b@, base).digits);
    match big_parse_bytes(digits.as_slice(), radix) {
        Some(big) => {
            if negative {
                Ok((int_from_bigint(big_neg(&big)), consumed))
            } else {
                Ok((int_from_bigint(big), consumed))
            }
        },
        None => Err(literal_failure(chars, base)),
    }
}

// ---------------------------------------------------------------------------
// Reading.
// ---------------------------------------------------------------------------

/// A builtin int or bool as a signed 64-bit integer.
fn to_long(o: &Object) -> (r: Option<i64>)
    requires
        bignum::is_int(*o),
    ensures
        r == (if i64::MIN <= bignum::int_of(*o) <= i64::MAX {
            Some(bignum::int_of(*o) as i64)
        } else {
            None
        }),
{
    match o {
        Object::Int(i) => Some(*i),
        Object::Bool(b) => Some(
            if *b {
                1
            } else {
                0
            },
        ),
        Object::Long(big) => big_to_i64(big),
        _ => None,
    }
}

/// A C `long` from a builtin integer.
pub open spec fn long_or_overflow(r: Result<i64, Failure>, v: int) -> bool {
    if i64::MIN <= v <= i64::MAX {
        r is Ok && r->Ok_0 == v
    } else {
        errors::raises(r, ExcKind::OverflowError, "Python int too large to convert to C long"@)
    }
}

/// The object to read an integer from: itself, or what its `__index__` gave.
pub open spec fn int_source(o: Object, index: Option<&Object>) -> Option<Object> {
    if bignum::is_int(o) {
        Some(o)
    } else if index is Some && bignum::is_int(*index->0) {
        Some(*index->0)
    } else {
        None
    }
}

/// `__index__` failed, or gave something that is no int.
pub open spec fn index_failure<T>(r: Result<T, Failure>, index: Option<&Object>) -> bool {
    match index {
        None => errors::silent(r),
        Some(_) => errors::raises(
            r,
            ExcKind::TypeError,
            "__index__ returned non-int (the object cannot be interpreted as an integer)"@,
        ),
    }
}

/// A Python integer as a C `long`. A float is truncated.
pub fn PyLong_AsLong(o: Option<&Object>, index: Option<&Object>) -> (r: Result<i64, Failure>)
    ensures
        match o {
            None => errors::raises(r, ExcKind::TypeError, "PyLong_AsLong: NULL"@),
            Some(Object::Float(bits)) => r is Ok && r->Ok_0 == float_trunc(*bits),
            Some(x) => match int_source(*x, index) {
                Some(i) => long_or_overflow(r, bignum::int_of(i)),
                None => index_failure(r, index),
            },
        },
{
    let x = match o {
        None => {
            return Err(raise_str(ExcKind::TypeError, "PyLong_AsLong: NULL"));
        },
        Some(x) => x,
    };
    let i = match x {
        Object::Int(_) | Object::Bool(_) | Object::Long(_) => x,
        Object::Float(bits) => {
            return Ok(trunc_to_i64(*bits));
        },
        _ => match index_to_builtin_int(index) {
            Ok(i) => i,
            Err(e) => {
                return Err(e);
            },
        },
    };
    match to_long(i) {
        Some(v) => Ok(v),
        None => Err(
            raise_str(ExcKind::OverflowError, "Python int too large to convert to C long"),
        ),
    }
}

/// A Python integer as a C `long long`.
pub fn PyLong_AsLongLong(o: Option<&Object>, index: Option<&Object>) -> (r: Result<i64, Failure>)
    ensures
        match o {
            None => errors::raises(r, ExcKind::TypeError, "PyLong_AsLong: NULL"@),
            Some(Object::Float(bits)) => r is Ok && r->Ok_0 == float_trunc(*bits),
            Some(x) => match int_source(*x, index) {
                Some(i) => long_or_overflow(r, bignum::int_of(i)),
                None => index_failure(r, index),
            },
        },
{
    PyLong_AsLong(o, index)
}

/// A Python integer as a `Py_ssize_t`.
pub fn PyLong_AsSsize_t(o: Option<&Object>, index: Option<&Object>) -> (r: Result<isize, Failure>)
    ensures
        match o {
            None => errors::raises(r, ExcKind::TypeError, "PyLong_AsLong: NULL"@),
            Some(Object::Float(bits)) => r is Ok && r->Ok_0 == float_trunc(*bits) as isize,
            Some(x) => match int_source(*x, index) {
                Some(i) => if i64::MIN <= bignum::int_of(i) <= i64::MAX {
                    r is Ok && r->Ok_0 == (bignum::int_of(i) as i64) as isize
                } else {
                    errors::raises(
                        r,
                        ExcKind::OverflowError,
                        "Python int too large to convert to C long"@,
                    )
                },
                None => index_failure(r, index),
            },
        },
{
    match PyLong_AsLong(o, index) {
        Ok(v) => Ok(#[verifier::truncate] (v as isize)),
        Err(e) => Err(e),
    }
}

/// A Python integer as an address: the bits of its 64-bit value.
pub fn PyLong_AsVoidPtr(o: Option<&Object>, index: Option<&Object>) -> (r: Result<usize, Failure>)
    ensures
        match o {
            None => errors::raises(r, ExcKind::TypeError, "PyLong_AsLong: NULL"@),
            Some(Object::Float(bits)) => r is Ok && r->Ok_0 == float_trunc(*bits) as usize,
            Some(x) => match int_source(*x, index) {
                Some(i) => if i64::MIN <= bignum::int_of(i) <= i64::MAX {
                    r is Ok && r->Ok_0 == (bignum::int_of(i) as i64) as usize
                } else {
                    errors::raises(
                        r,
                        ExcKind::OverflowError,
                        "Python int too large to convert to C long"@,
                    )
                },
                None => index_failure(r, index),
            },
        },
{
    match PyLong_AsLongLong(o, index) {
        Ok(v) => Ok(#[verifier::truncate] (v as usize)),
        Err(e) => Err(e),
    }
}

/// A C `unsigned long` from a builtin integer.
pub open spec fn ulong_or_overflow(r: Result<u64, Failure>, v: int) -> bool {
    if v < 0 {
        errors::raises(r, ExcKind::OverflowError, "can't convert negative value to unsigned int"@)
    } else if v <= u64::MAX {
        r is Ok && r->Ok_0 == v
    } else {
        errors::raises(
            r,
            ExcKind::OverflowError,
            "Python int too large to convert to C unsigned long"@,
        )
    }
}

/// A Python integer as a C `unsigned long`: the full unsigned 64-bit range.
pub fn PyLong_AsUnsignedLong(o: Option<&Object>, index: Option<&Object>) -> (r: Result<
    u64,
    Failure,
>)
    requires
        o matches Some(Object::Long(b)) ==> b.wf(),
        index matches Some(Object::Long(b)) ==> b.wf(),
    ensures
        match o {
            None => errors::raises(r, ExcKind::TypeError, "PyLong_AsUnsignedLong: NULL"@),
            Some(x) => match int_source(*x, index) {
                Some(i) => ulong_or_overflow(r, bignum::int_of(i)),
                None => index_failure(r, index),
            },
        },
{
    let x = match o {
        None => {
            return Err(raise_str(ExcKind::TypeError, "PyLong_AsUnsignedLong: NULL"));
        },
        Some(x) => x,
    };
    let i = match x {
        Object::Int(_) | Object::Bool(_) | Object::Long(_) => x,
        _ => match index_to_builtin_int(index) {
            Ok(i) => i,
            Err(e) => {
                return Err(e);
            },
        },
    };
    match i {
        Object::Bool(b) => Ok(
            if *b {
                1
            } else {
                0
            },
        ),
        Object::Long(big) => match big_to_u64(big) {
            Some(v) => Ok(v),
            None => match big.sign {
                Sign::Minus => Err(
                    raise_str(
                        ExcKind::OverflowError,
                        "can't convert negative value to unsigned int",
                    ),
                ),
                _ => Err(
                    raise_str(
                        ExcKind::OverflowError,
                        "Python int too large to convert to C unsigned long",
                    ),
                ),
            },
        },
        Object::Int(v) => if *v < 0 {
            Err(
                raise_str(ExcKind::OverflowError, "can't convert negative value to unsigned int"),
            )
        } else {
            Ok(*v as u64)
        },
        _ => Ok(0),
    }
}

/// A Python integer as a C `unsigned long long`.
pub fn PyLong_AsUnsignedLongLong(o: Option<&Object>, index: Option<&Object>) -> (r: Result<
    u64,
    Failure,
>)
    requires
        o matches Some(Object::Long(b)) ==> b.wf(),
        index matches Some(Object::Long(b)) ==> b.wf(),
    ensures
        match o {
            None => errors::raises(r, ExcKind::TypeError, "PyLong_AsUnsignedLong: NULL"@),
            Some(x) => match int_source(*x, index) {
                Some(i) => ulong_or_overflow(r, bignum::int_of(i)),
                None => index_failure(r, index),
            },
        },
{
    PyLong_AsUnsignedLong(o, index)
}

/// A Python integer modulo 2^64.
pub fn PyLong_AsUnsignedLongMask(o: Option<&Object>) -> (r: Result<u64, Failure>)
    ensures
        match o {
            None => errors::raises(r, ExcKind::TypeError, "PyLong_AsUnsignedLongMask: NULL"@),
            Some(x) => if bignum::is_int(*x) {
                r is Ok && r->Ok_0 == bignum::int_of(*x) % 0x1_0000_0000_0000_0000
            } else {
                errors::raises(r, ExcKind::TypeError, "an integer is required"@)
            },
        },
{
    match o {
        None => Err(raise_str(ExcKind::TypeError, "PyLong_AsUnsignedLongMask: NULL")),
        Some(Object::Int(i)) => {
            let v: i64 = *i;
            if v >= 0 {
                Ok(v as u64)
            } else {
                Ok(u64::MAX - ((-(v + 1)) as u64))
            }
        },
        Some(Object::Bool(b)) => Ok(
            if *b {
                1
            } else {
                0
            },
        ),
        Some(Object::Long(big)) => {
            let m: BigNum = big_shl(&big_from(1), 64);
            proof {
                lemma2_to64();
            }
            assert(m.val() == 0x1_0000_0000_0000_0000);
            let low: BigNum = big_rem(&big_add(&big_rem(big, &m), &m), &m);
            assert(low.val() == big.val() % 0x1_0000_0000_0000_0000);
            match big_to_u64(&low) {
                Some(v) => Ok(v),
                None => Ok(0),
            }
        },
        _ => Err(raise_str(ExcKind::TypeError, "an integer is required")),
    }
}

/// A Python integer modulo 2^64.
pub fn PyLong_AsUnsignedLongLongMask(o: Option<&Object>) -> (r: Result<u64, Failure>)
    ensures
        match o {
            None => errors::raises(r, ExcKind::TypeError, "PyLong_AsUnsignedLongMask: NULL"@),
            Some(x) => if bignum::is_int(*x) {
                r is Ok && r->Ok_0 == bignum::int_of(*x) % 0x1_0000_0000_0000_0000
            } else {
                errors::raises(r, ExcKind::TypeError, "an integer is required"@)
            },
        },
{
    PyLong_AsUnsignedLongMask(o)
}

/// A C `long` from a builtin integer with an overflow flag: -1, 0 or 1.
pub open spec fn long_and_flag(p: (i64, i32), v: int) -> bool {
    if i64::MIN <= v <= i64::MAX {
        p == (v as i64, 0i32)
    } else if v < 0 {
        p == (-1i64, -1i32)
    } else {
        p == (-1i64, 1i32)
    }
}

/// A Python integer as a C `long`, with a flag in place of an exception where
/// it does not fit.
pub fn PyLong_AsLongAndOverflow(o: Option<&Object>, index: Option<&Object>) -> (r: Result<
    (i64, i32),
    Failure,
>)
    requires
        o matches Some(Object::Long(b)) ==> b.wf(),
        index matches Some(Object::Long(b)) ==> b.wf(),
    ensures
        match o {
            None => errors::raises(r, ExcKind::TypeError, "PyLong_AsLongAndOverflow: NULL"@),
            Some(Object::Float(_)) => errors::raises(
                r,
                ExcKind::TypeError,
                "an integer is required"@,
            ),
            Some(x) => match int_source(*x, index) {
                Some(i) => r is Ok && long_and_flag(r->Ok_0, bignum::int_of(i)),
                None => index_failure(r, index),
            },
        },
{
    let x = match o {
        None => {
            return Err(raise_str(ExcKind::TypeError, "PyLong_AsLongAndOverflow: NULL"));
        },
        Some(x) => x,
    };
    let i = match x {
        Object::Int(_) | Object::Bool(_) | Object::Long(_) => x,
        Object::Float(_) => {
            return Err(raise_str(ExcKind::TypeError, "an integer is required"));
        },
        _ => match index_to_builtin_int(index) {
            Ok(i) => i,
            Err(e) => {
                return Err(e);
            },
        },
    };
    match to_long(i) {
        Some(v) => Ok((v, 0)),
        None => match i {
            Object::Long(big) => match big.sign {
                Sign::Minus => Ok((-1, -1)),
                _ => Ok((-1, 1)),
            },
            _ => Ok((-1, 1)),
        },
    }
}

/// A Python integer as a C `long long`, with an overflow flag.
pub fn PyLong_AsLongLongAndOverflow(o: Option<&Object>, index: Option<&Object>) -> (r: Result<
    (i64, i32),
    Failure,
>)
    requires
        o matches Some(Object::Long(b)) ==> b.wf(),
        index matches Some(Object::Long(b)) ==> b.wf(),
    ensures
        match o {
            None => errors::raises(r, ExcKind::TypeError, "PyLong_AsLongAndOverflow: NULL"@),
            Some(Object::Float(_)) => errors::raises(
                r,
                ExcKind::TypeError,
                "an integer is required"@,
            ),
            Some(x) => match int_source(*x, index) {
                Some(i) => r is Ok && long_and_flag(r->Ok_0, bignum::int_of(i)),
                None => index_failure(r, index),
            },
        },
{
    PyLong_AsLongAndOverflow(o, index)
}

// ---------------------------------------------------------------------------
// Byte arrays.
// ---------------------------------------------------------------------------

/// The bytes in little-endian order.
pub open spec fn in_order(b: Seq<u8>, little: bool) -> Seq<u8> {
    if little {
        b
    } else {
        b.reverse()
    }
}

/// The integer that a byte array denotes.
pub open spec fn byte_array_value(b: Seq<u8>, little: bool, signed: bool) -> int {
    if signed {
        bignum::signed_le(in_order(b, little))
    } else {
        value::le_value(in_order(b, little)) as int
    }
}

/// The integer has a form of `n` bytes. A negative integer has its two's complement,
/// in an unsigned form too.
pub open spec fn byte_array_fits(v: int, n: nat, signed: bool) -> bool {
    if signed || v < 0 {
        bignum::fits_signed(v, n)
    } else {
        n > 0 && v < pow2(8 * n)
    }
}

/// What a byte array of the integer denotes: the integer itself, or for a negative
/// integer in an unsigned form its two's complement.
pub open spec fn byte_array_holds(v: int, n: nat, signed: bool) -> int {
    if signed || v >= 0 {
        v
    } else {
        v + pow2(8 * n)
    }
}

fn reversed(b: Vec<u8>) -> (r: Vec<u8>)
    ensures
        r@ == b@.reverse(),
{
    let mut out: Vec<u8> = Vec::new();
    let mut i: usize = b.len();
    while i > 0
        invariant
            i <= b@.len(),
            out@.len() == b@.len() - i,
            forall|k: int| 0 <= k < out@.len() ==> out@[k] == b@[b@.len() - 1 - k],
        decreases i,
    {
        i = i - 1;
        out.push(b[i]);
    }
    assert(out@ =~= b@.reverse());
    out
}

/// Extend with a byte of zeros or ones without changing what the bytes denote.
fn extend_to(b: Vec<u8>, n: usize, ones: bool) -> (r: Vec<u8>)
    requires
        b@.len() <= n,
        b@.len() > 0,
        ones ==> b@.last() >= 128,
    ensures
        r@.len() == n,
        !ones ==> value::le_value(r@) == value::le_value(b@),
        ones ==> bignum::signed_le(r@) == bignum::signed_le(b@),
        !ones && b@.last() < 128 ==> bignum::signed_le(r@) == bignum::signed_le(b@),
{
    let mut out: Vec<u8> = b;
    while out.len() < n
        invariant
            b@.len() <= out@.len() <= n,
            b@.len() > 0,
            ones ==> out@.last() >= 128,
            ones ==> bignum::signed_le(out@) == bignum::signed_le(b@),
            !ones ==> value::le_value(out@) == value::le_value(b@),
            !ones && b@.last() < 128 ==> out@.last() < 128,
        decreases n - out.len(),
    {
        let x: u8 = if ones {
            255
        } else {
            0
        };
        proof {
            bignum::lemma_le_push(out@, x);
            lemma2_to64();
            lemma_pow2_adds(8, 8 * out@.len());
            assert(8 + 8 * out@.len() == 8 * out@.push(x).len());
            let p = pow2(8 * out@.len()) as int;
            assert(x * p == if ones { 255 * p } else { 0 });
            assert(out@.push(x).last() == x);
        }
        out.push(x);
    }
    out
}

/// The two's-complement form of an integer in `n` bytes. `bytes_null` says whether the destination is NULL.
pub fn _PyLong_AsByteArray(
    o: Option<&Object>,
    index: Option<&Object>,
    bytes_null: bool,
    n: usize,
    little_endian: i32,
    is_signed: i32,
) -> (r: Result<Vec<u8>, Failure>)
    ensures
        if o is None || bytes_null {
            errors::raises(r, ExcKind::TypeError, "_PyLong_AsByteArray: NULL"@)
        } else {
            match int_source(*o->0, index) {
                None => index_failure(r, index),
                Some(i) => {
                    let v = bignum::int_of(i);
                    if byte_array_fits(v, n as nat, is_signed != 0) {
                        r is Ok && r->Ok_0@.len() == n && byte_array_value(
                            r->Ok_0@,
                            little_endian != 0,
                            is_signed != 0,
                        ) == byte_array_holds(v, n as nat, is_signed != 0)
                    } else {
                        errors::raises(r, ExcKind::OverflowError, "int too big to convert"@)
                    }
                },
            }
        },
{
    let x = match o {
        None => {
            return Err(raise_str(ExcKind::TypeError, "_PyLong_AsByteArray: NULL"));
        },
        Some(x) => x,
    };
    if bytes_null {
        return Err(raise_str(ExcKind::TypeError, "_PyLong_AsByteArray: NULL"));
    }
    let i = match x {
        Object::Int(_) | Object::Bool(_) | Object::Long(_) => x,
        _ => match index_to_builtin_int(index) {
            Ok(i) => i,
            Err(e) => {
                return Err(e);
            },
        },
    };
    let ghost v = bignum::int_of(*i);
    let big: BigNum = match i {
        Object::Long(b) => BigNum { sign: b.sign, mag: copy_bytes(&b.mag) },
        Object::Int(k) => big_from(*k as i128),
        Object::Bool(k) => big_from(
            if *k {
                1
            } else {
                0
            },
        ),
        _ => big_from(0),
    };
    assert(big.val() == v);
    let signed: bool = is_signed != 0 || is_negative(&big);
    let buf: Vec<u8> = le_form(&big, signed);
    if buf.len() > n {
        proof {
            lemma_too_long(buf@, v, n as nat, signed);
        }
        return Err(raise_str(ExcKind::OverflowError, "int too big to convert"));
    }
    let ones: bool = signed && buf[buf.len() - 1] >= 128;
    proof {
        if signed {
            bignum::lemma_fits_mono(v, buf@.len(), n as nat);
        } else {
            bignum::lemma_le_bound(buf@);
            bignum::lemma_pow2_mono(8 * buf@.len(), 8 * (n as nat));
        }
    }
    let out: Vec<u8> = extend_to(buf, n, ones);
    assert(v < 0 ==> value::le_value(out@) == v + pow2(8 * (n as nat)));
    if little_endian == 0 {
        let back: Vec<u8> = reversed(out);
        assert(back@.reverse() =~= out@);
        Ok(back)
    } else {
        Ok(out)
    }
}

fn copy_bytes(b: &Vec<u8>) -> (r: Vec<u8>)
    ensures
        r@ == b@,
{
    let mut out: Vec<u8> = Vec::new();
    strings::push_bytes(&mut out, b.as_slice());
    assert(out@ =~= b@);
    out
}

fn is_negative(big: &BigNum) -> (r: bool)
    ensures
        r == (big.val() < 0),
{
    matches!(big.sign, Sign::Minus) && !all_zero(&big.mag)
}

fn all_zero(b: &Vec<u8>) -> (r: bool)
    ensures
        r == (value::le_value(b@) == 0),
{
    let mut i: usize = b.len();
    assert(b@.subrange(i as int, b@.len() as int) =~= Seq::<u8>::empty());
    while i > 0
        invariant
            i <= b@.len(),
            value::le_value(b@.subrange(i as int, b@.len() as int)) == 0,
        decreases i,
    {
        let ghost rest = b@.subrange(i as int, b@.len() as int);
        i = i - 1;
        let ghost now = b@.subrange(i as int, b@.len() as int);
        assert(now.drop_first() =~= rest);
        if b[i] != 0 {
            proof {
                lemma_nonzero(b@, i as int);
            }
            return false;
        }
    }
    assert(b@.subrange(0, b@.len() as int) =~= b@);
    true
}

proof fn lemma_nonzero(b: Seq<u8>, i: int)
    requires
        0 <= i < b.len(),
        b[i] != 0,
    ensures
        value::le_value(b) > 0,
    decreases b.len(),
{
    if i > 0 {
        assert(b.drop_first()[i - 1] == b[i]);
        lemma_nonzero(b.drop_first(), i - 1);
    }
}

/// The shortest little-endian form of an integer.
fn le_form(big: &BigNum, signed: bool) -> (r: Vec<u8>)
    ensures
        shortest(r@, big.val(), signed),
{
    if signed {
        big_to_signed_bytes_le(big)
    } else {
        big_to_bytes_le(big).1
    }
}

/// `b` is the shortest little-endian form of `v`, one byte at least.
spec fn shortest(b: Seq<u8>, v: int, signed: bool) -> bool {
    &&& b.len() >= 1
    &&& if signed {
        &&& bignum::signed_le(b) == v
        &&& bignum::fits_signed(v, b.len())
        &&& b.len() > 1 ==> !bignum::fits_signed(v, (b.len() - 1) as nat)
    } else {
        &&& value::le_value(b) == bignum::abs(v)
        &&& b.len() > 1 ==> b.last() != 0
    }
}

proof fn lemma_too_long(b: Seq<u8>, v: int, n: nat, signed: bool)
    requires
        shortest(b, v, signed),
        signed || v >= 0,
        b.len() > n,
    ensures
        !byte_array_fits(v, n, signed),
{
    if n > 0 {
        if signed {
            if bignum::fits_signed(v, n) {
                bignum::lemma_fits_mono(v, n, (b.len() - 1) as nat);
            }
        } else {
            bignum::lemma_le_last(b);
            bignum::lemma_pow2_mono(8 * n, 8 * (b.len() - 1) as nat);
            let p = pow2(8 * (b.len() - 1) as nat) as int;
            let l = b.last() as int;
            assert(l * p >= p) by (nonlinear_arith)
                requires
                    l >= 1,
                    p >= 0,
            ;
        }
    }
}

/// A Python integer from a byte array.
pub fn _PyLong_FromByteArray(bytes: Option<&[u8]>, little_endian: i32, is_signed: i32) -> (r:
    Result<Object, Failure>)
    ensures
        match bytes {
            None => errors::raises(r, ExcKind::TypeError, "_PyLong_FromByteArray: NULL"@),
            Some(b) => r is Ok && bignum::normal_int(
                r->Ok_0,
                byte_array_value(b@, little_endian != 0, is_signed != 0),
            ),
        },
{
    match bytes {
        None => Err(raise_str(ExcKind::TypeError, "_PyLong_FromByteArray: NULL")),
        Some(b) => {
            let mut v: Vec<u8> = Vec::new();
            strings::push_bytes(&mut v, b);
            assert(v@ =~= b@);
            if little_endian == 0 {
                v = reversed(v);
            }
            let big: BigNum = if is_signed != 0 {
                big_from_signed_bytes_le(v.as_slice())
            } else {
                big_from_bytes_le(v.as_slice())
            };
            Ok(int_from_bigint(big))
        },
    }
}

/// Reading back the byte array of an integer gives the integer. (Unsigned forms keep
/// no sign, so there the integer must not be negative.)
pub proof fn law_byte_array_round_trip(v: int, b: Seq<u8>, n: nat, little: bool, signed: bool)
    requires
        signed || v >= 0,
        b.len() == n,
        byte_array_value(b, little, signed) == byte_array_holds(v, n, signed),
    ensures
        byte_array_value(b, little, signed) == v,
{
}

proof fn lemma_le_injective(a: Seq<u8>, b: Seq<u8>)
    requires
        a.len() == b.len(),
        value::le_value(a) == value::le_value(b),
    ensures
        a == b,
    decreases a.len(),
{
    if a.len() > 0 {
        assert(a[0] == b[0]);
        lemma_le_injective(a.drop_first(), b.drop_first());
        assert(a =~= seq![a[0]] + a.drop_first());
        assert(b =~= seq![b[0]] + b.drop_first());
    } else {
        assert(a =~= b);
    }
}

/// An integer has one byte array of a given length, order and signedness.
pub proof fn law_byte_array_unique(a: Seq<u8>, b: Seq<u8>, little: bool, signed: bool)
    requires
        a.len() == b.len(),
        byte_array_value(a, little, signed) == byte_array_value(b, little, signed),
    ensures
        a == b,
{
    let x = in_order(a, little);
    let y = in_order(b, little);
    bignum::lemma_le_bound(x);
    bignum::lemma_le_bound(y);
    if signed && a.len() > 0 {
        bignum::lemma_le_last(x);
        bignum::lemma_le_last(y);
        lemma_high_byte(x);
        lemma_high_byte(y);
    }
    lemma_le_injective(x, y);
    assert(a.reverse().reverse() =~= a);
    assert(b.reverse().reverse() =~= b);
}

/// The sign bit tells which half of the range the bytes denote.
proof fn lemma_high_byte(x: Seq<u8>)
    requires
        x.len() > 0,
    ensures
        (x.last() >= 128) == (2 * value::le_value(x) >= pow2(8 * x.len())),
{
    bignum::lemma_le_push(x.drop_last(), x.last());
    assert(x.drop_last().push(x.last()) =~= x);
    bignum::lemma_le_bound(x.drop_last());
    lemma2_to64();
    lemma_pow2_adds(8, 8 * x.drop_last().len());
    assert(8 + 8 * x.drop_last().len() == 8 * x.len());
    let p = pow2(8 * x.drop_last().len()) as int;
    let l = x.last() as int;
    if l >= 128 {
        assert(l * p >= 128 * p) by (nonlinear_arith)
            requires
                l >= 128,
                p >= 0,
        ;
    } else {
        assert(l * p <= 127 * p) by (nonlinear_arith)
            requires
                l <= 127,
                p >= 0,
        ;
    }
}

} // verus!
