//! Arbitrary-precision integers: the calls into `num-bigint`, each from plain
//! values to plain values, and the facts about byte strings as numbers.

use vstd::prelude::*;
use vstd::arithmetic::power2::*;
use crate::value;
use crate::value::{BigNum, Object, Sign};

verus! {

/// The number of bits needed to write `n`; zero needs none.
pub open spec fn bit_len(n: nat) -> nat
    decreases n,
{
    if n == 0 {
        0
    } else {
        1 + bit_len(n / 2)
    }
}

/// The absolute value.
pub open spec fn abs(x: int) -> nat {
    if x < 0 {
        (-x) as nat
    } else {
        x as nat
    }
}

/// The two's-complement reading of little-endian bytes.
pub open spec fn signed_le(b: Seq<u8>) -> int {
    if b.len() > 0 && b.last() >= 128 {
        value::le_value(b) - pow2(8 * b.len())
    } else {
        value::le_value(b) as int
    }
}

/// `x` is representable in `n` bytes of two's complement.
pub open spec fn fits_signed(x: int, n: nat) -> bool {
    n > 0 && -(pow2((8 * n - 1) as nat) as int) <= x < pow2((8 * n - 1) as nat)
}

/// The value of an ASCII digit or letter as a digit.
pub open spec fn digit_value(c: u8) -> int {
    if 48 <= c <= 57 {
        c - 48
    } else if 97 <= c <= 122 {
        c - 87
    } else if 65 <= c <= 90 {
        c - 55
    } else {
        255
    }
}

/// The number that ASCII digits denote in a radix, most significant first.
pub open spec fn digits_value(s: Seq<u8>, radix: int) -> int
    decreases s.len(),
{
    if s.len() == 0 {
        0
    } else {
        digits_value(s.drop_last(), radix) * radix + digit_value(s.last())
    }
}

/// `num_bigint::BigInt::parse_bytes`. Claimed: a non-empty run of ASCII digits
/// of the radix parses to the number that it denotes, with a consistent sign.
/// What other input gives is left unsaid.
#[verifier::external_body]
pub(crate) fn big_parse_bytes(buf: &[u8], radix: u32) -> (r: Option<BigNum>)
    requires
        2 <= radix <= 36,
    ensures
        buf@.len() > 0 && (forall|i: int|
            0 <= i < buf@.len() ==> digit_value(#[trigger] buf@[i]) < radix) ==> r is Some
            && r->0.wf() && r->0.val() == digits_value(buf@, radix as int),
{
    num_bigint::BigInt::parse_bytes(buf, radix).map(
        |b|
            {
                let (s, mag) = b.to_bytes_le();
                let sign = match s {
                    num_bigint::Sign::Minus => Sign::Minus,
                    num_bigint::Sign::NoSign => Sign::NoSign,
                    num_bigint::Sign::Plus => Sign::Plus,
                };
                BigNum { sign, mag }
            },
    )
}

/// `num_traits::ToPrimitive::to_i64` on a `num_bigint::BigInt`. Claimed: the
/// value itself where it is in range, and nothing where it is not.
#[verifier::external_body]
pub(crate) fn big_to_i64(b: &BigNum) -> (r: Option<i64>)
    ensures
        r == (if i64::MIN <= b.val() <= i64::MAX {
            Some(b.val() as i64)
        } else {
            None
        }),
{
    let s = match b.sign {
        Sign::Minus => num_bigint::Sign::Minus,
        Sign::NoSign => num_bigint::Sign::NoSign,
        Sign::Plus => num_bigint::Sign::Plus,
    };
    num_traits::ToPrimitive::to_i64(&num_bigint::BigInt::from_bytes_le(s, &b.mag))
}

/// `num_traits::ToPrimitive::to_u64` on a `num_bigint::BigInt`. Claimed: the
/// value itself where it is in range, and nothing where it is not.
#[verifier::external_body]
pub(crate) fn big_to_u64(b: &BigNum) -> (r: Option<u64>)
    ensures
        r == (if 0 <= b.val() <= u64::MAX {
            Some(b.val() as u64)
        } else {
            None
        }),
{
    let s = match b.sign {
        Sign::Minus => num_bigint::Sign::Minus,
        Sign::NoSign => num_bigint::Sign::NoSign,
        Sign::Plus => num_bigint::Sign::Plus,
    };
    num_traits::ToPrimitive::to_u64(&num_bigint::BigInt::from_bytes_le(s, &b.mag))
}

/// `num_traits::ToPrimitive::to_isize` on a `num_bigint::BigInt`. Claimed: the
/// value itself where it is in range, and nothing where it is not.
#[verifier::external_body]
pub(crate) fn big_to_isize(b: &BigNum) -> (r: Option<isize>)
    ensures
        r == (if isize::MIN <= b.val() <= isize::MAX {
            Some(b.val() as isize)
        } else {
            None
        }),
{
    let s = match b.sign {
        Sign::Minus => num_bigint::Sign::Minus,
        Sign::NoSign => num_bigint::Sign::NoSign,
        Sign::Plus => num_bigint::Sign::Plus,
    };
    num_traits::ToPrimitive::to_isize(&num_bigint::BigInt::from_bytes_le(s, &b.mag))
}

/// `num_bigint::BigInt::bits`. Claimed: the fewest bits that express the
/// magnitude.
#[verifier::external_body]
pub(crate) fn big_bits(b: &BigNum) -> (r: u64)
    ensures
        r == bit_len(abs(b.val())),
{
    let s = match b.sign {
        Sign::Minus => num_bigint::Sign::Minus,
        Sign::NoSign => num_bigint::Sign::NoSign,
        Sign::Plus => num_bigint::Sign::Plus,
    };
    num_bigint::BigInt::from_bytes_le(s, &b.mag).bits()
}

/// `num_bigint::BigInt::to_bytes_le`. Claimed: the sign of the value, and its
/// magnitude in little-endian bytes with no zero byte at the end, except that
/// zero is the single byte zero.
#[verifier::external_body]
pub(crate) fn big_to_bytes_le(b: &BigNum) -> (r: (Sign, Vec<u8>))
    ensures
        (r.0 is Minus) == (b.val() < 0),
        (r.0 is Plus) == (b.val() > 0),
        value::le_value(r.1@) == abs(b.val()),
        r.1@.len() >= 1,
        r.1@.len() > 1 ==> r.1@.last() != 0,
{
    let s = match b.sign {
        Sign::Minus => num_bigint::Sign::Minus,
        Sign::NoSign => num_bigint::Sign::NoSign,
        Sign::Plus => num_bigint::Sign::Plus,
    };
    let (t, mag) = num_bigint::BigInt::from_bytes_le(s, &b.mag).to_bytes_le();
    match t {
        num_bigint::Sign::Minus => (Sign::Minus, mag),
        num_bigint::Sign::NoSign => (Sign::NoSign, mag),
        num_bigint::Sign::Plus => (Sign::Plus, mag),
    }
}

/// `num_bigint::BigInt::to_signed_bytes_le`. Claimed: the two's-complement
/// form of the value in little-endian bytes, in the fewest bytes that hold it,
/// one at least.
#[verifier::external_body]
pub(crate) fn big_to_signed_bytes_le(b: &BigNum) -> (r: Vec<u8>)
    ensures
        signed_le(r@) == b.val(),
        fits_signed(b.val(), r@.len()),
        r@.len() > 1 ==> !fits_signed(b.val(), (r@.len() - 1) as nat),
{
    let s = match b.sign {
        Sign::Minus => num_bigint::Sign::Minus,
        Sign::NoSign => num_bigint::Sign::NoSign,
        Sign::Plus => num_bigint::Sign::Plus,
    };
    num_bigint::BigInt::from_bytes_le(s, &b.mag).to_signed_bytes_le()
}

/// `num_bigint::BigInt::from_signed_bytes_le`. Claimed: the integer that the
/// bytes denote in two's complement, with a consistent sign.
#[verifier::external_body]
pub(crate) fn big_from_signed_bytes_le(bytes: &[u8]) -> (r: BigNum)
    ensures
        r.wf(),
        r.val() == signed_le(bytes@),
{
    let (s, mag) = num_bigint::BigInt::from_signed_bytes_le(bytes).to_bytes_le();
    let sign = match s {
        num_bigint::Sign::Minus => Sign::Minus,
        num_bigint::Sign::NoSign => Sign::NoSign,
        num_bigint::Sign::Plus => Sign::Plus,
    };
    BigNum { sign, mag }
}

/// `num_bigint::BigInt::from_bytes_le` with a plus sign. Claimed: the natural
/// number that the bytes denote, with a consistent sign.
#[verifier::external_body]
pub(crate) fn big_from_bytes_le(bytes: &[u8]) -> (r: BigNum)
    ensures
        r.wf(),
        r.val() == value::le_value(bytes@),
{
    let (s, mag) = num_bigint::BigInt::from_bytes_le(num_bigint::Sign::Plus, bytes).to_bytes_le();
    let sign = match s {
        num_bigint::Sign::Minus => Sign::Minus,
        num_bigint::Sign::NoSign => Sign::NoSign,
        num_bigint::Sign::Plus => Sign::Plus,
    };
    BigNum { sign, mag }
}

/// `num_bigint::BigInt::from` on an `i128`. Claimed: the same integer, with a
/// consistent sign.
#[verifier::external_body]
pub(crate) fn big_from(v: i128) -> (r: BigNum)
    ensures
        r.wf(),
        r.val() == v,
{
    let (s, mag) = num_bigint::BigInt::from(v).to_bytes_le();
    let sign = match s {
        num_bigint::Sign::Minus => Sign::Minus,
        num_bigint::Sign::NoSign => Sign::NoSign,
        num_bigint::Sign::Plus => Sign::Plus,
    };
    BigNum { sign, mag }
}

/// Negation of a `num_bigint::BigInt`. Claimed: the integer's negative, with a
/// consistent sign.
#[verifier::external_body]
pub(crate) fn big_neg(b: &BigNum) -> (r: BigNum)
    ensures
        r.wf(),
        r.val() == -b.val(),
{
    let s = match b.sign {
        Sign::Minus => num_bigint::Sign::Minus,
        Sign::NoSign => num_bigint::Sign::NoSign,
        Sign::Plus => num_bigint::Sign::Plus,
    };
    let (t, mag) = (-num_bigint::BigInt::from_bytes_le(s, &b.mag)).to_bytes_le();
    match t {
        num_bigint::Sign::Minus => BigNum { sign: Sign::Minus, mag },
        num_bigint::Sign::NoSign => BigNum { sign: Sign::NoSign, mag },
        num_bigint::Sign::Plus => BigNum { sign: Sign::Plus, mag },
    }
}

/// Left shift of a `num_bigint::BigInt`. Claimed: multiplication by the power
/// of two, with a consistent sign.
#[verifier::external_body]
pub(crate) fn big_shl(b: &BigNum, n: u32) -> (r: BigNum)
    ensures
        r.wf(),
        r.val() == b.val() * pow2(n as nat),
{
    let s = match b.sign {
        Sign::Minus => num_bigint::Sign::Minus,
        Sign::NoSign => num_bigint::Sign::NoSign,
        Sign::Plus => num_bigint::Sign::Plus,
    };
    let (t, mag) = (num_bigint::BigInt::from_bytes_le(s, &b.mag) << n).to_bytes_le();
    match t {
        num_bigint::Sign::Minus => BigNum { sign: Sign::Minus, mag },
        num_bigint::Sign::NoSign => BigNum { sign: Sign::NoSign, mag },
        num_bigint::Sign::Plus => BigNum { sign: Sign::Plus, mag },
    }
}

/// Bitwise or of a non-negative `num_bigint::BigInt` whose low 30 bits are
/// clear with a number below 2^30. Claimed: no bit is set in both, so the
/// result is the sum, with a consistent sign.
#[verifier::external_body]
pub(crate) fn big_or_low30(b: &BigNum, d: u32) -> (r: BigNum)
    requires
        b.val() >= 0,
        b.val() % 0x4000_0000 == 0,
        d < 0x4000_0000,
    ensures
        r.wf(),
        r.val() == b.val() + d,
{
    let s = match b.sign {
        Sign::Minus => num_bigint::Sign::Minus,
        Sign::NoSign => num_bigint::Sign::NoSign,
        Sign::Plus => num_bigint::Sign::Plus,
    };
    let big = num_bigint::BigInt::from_bytes_le(s, &b.mag) | num_bigint::BigInt::from(d);
    let (t, mag) = big.to_bytes_le();
    match t {
        num_bigint::Sign::Minus => BigNum { sign: Sign::Minus, mag },
        num_bigint::Sign::NoSign => BigNum { sign: Sign::NoSign, mag },
        num_bigint::Sign::Plus => BigNum { sign: Sign::Plus, mag },
    }
}

/// The remainder that goes with division truncated towards zero: it has the
/// sign of the dividend.
pub open spec fn trunc_rem(a: int, m: int) -> int {
    if a >= 0 {
        a % m
    } else {
        -((-a) % m)
    }
}

/// Remainder of `num_bigint::BigInt` by a positive one. Claimed: the remainder
/// of truncated division, with a consistent sign.
#[verifier::external_body]
pub(crate) fn big_rem(a: &BigNum, m: &BigNum) -> (r: BigNum)
    requires
        m.val() > 0,
    ensures
        r.wf(),
        r.val() == trunc_rem(a.val(), m.val()),
{
    let s = match a.sign {
        Sign::Minus => num_bigint::Sign::Minus,
        Sign::NoSign => num_bigint::Sign::NoSign,
        Sign::Plus => num_bigint::Sign::Plus,
    };
    let n = num_bigint::BigInt::from_bytes_le(num_bigint::Sign::Plus, &m.mag);
    let (t, mag) = (num_bigint::BigInt::from_bytes_le(s, &a.mag) % n).to_bytes_le();
    match t {
        num_bigint::Sign::Minus => BigNum { sign: Sign::Minus, mag },
        num_bigint::Sign::NoSign => BigNum { sign: Sign::NoSign, mag },
        num_bigint::Sign::Plus => BigNum { sign: Sign::Plus, mag },
    }
}

/// Addition of a positive `num_bigint::BigInt`. Claimed: the sum, with a
/// consistent sign.
#[verifier::external_body]
pub(crate) fn big_add(a: &BigNum, m: &BigNum) -> (r: BigNum)
    requires
        m.val() > 0,
    ensures
        r.wf(),
        r.val() == a.val() + m.val(),
{
    let s = match a.sign {
        Sign::Minus => num_bigint::Sign::Minus,
        Sign::NoSign => num_bigint::Sign::NoSign,
        Sign::Plus => num_bigint::Sign::Plus,
    };
    let n = num_bigint::BigInt::from_bytes_le(num_bigint::Sign::Plus, &m.mag);
    let (t, mag) = (num_bigint::BigInt::from_bytes_le(s, &a.mag) + n).to_bytes_le();
    match t {
        num_bigint::Sign::Minus => BigNum { sign: Sign::Minus, mag },
        num_bigint::Sign::NoSign => BigNum { sign: Sign::NoSign, mag },
        num_bigint::Sign::Plus => BigNum { sign: Sign::Plus, mag },
    }
}

/// The integer that a Python `int` or `bool` denotes.
pub open spec fn int_of(o: Object) -> int {
    match o {
        Object::Int(i) => i as int,
        Object::Bool(b) => if b {
            1
        } else {
            0
        },
        Object::Long(b) => b.val(),
        _ => 0,
    }
}

/// The object is a Python `int` or `bool`.
pub open spec fn is_int(o: Object) -> bool {
    o is Int || o is Bool || o is Long
}

/// The form in which an integer is kept: small where it fits 64 bits.
pub open spec fn normal_int(o: Object, v: int) -> bool {
    if i64::MIN <= v <= i64::MAX {
        o is Int && o->Int_0 == v
    } else {
        o is Long && o->Long_0.wf() && o->Long_0.val() == v
    }
}

/// A Python `int` from a big integer, in normal form.
pub fn int_from_bigint(b: BigNum) -> (r: Object)
    requires
        b.wf(),
    ensures
        normal_int(r, b.val()),
{
    match big_to_i64(&b) {
        Some(v) => Object::Int(v),
        None => Object::Long(b),
    }
}

// ---------------------------------------------------------------------------
// Bytes as numbers.
// ---------------------------------------------------------------------------

/// One more byte at the most significant end.
pub proof fn lemma_le_push(b: Seq<u8>, x: u8)
    ensures
        value::le_value(b.push(x)) == value::le_value(b) + x * pow2(8 * b.len()),
    decreases b.len(),
{
    if b.len() == 0 {
        lemma2_to64();
        assert(b.push(x).drop_first() =~= Seq::<u8>::empty());
        assert(value::le_value(b.push(x).drop_first()) == 0);
        assert(pow2(8 * b.len()) == 1);
    } else {
        assert(b.push(x).drop_first() =~= b.drop_first().push(x));
        lemma_le_push(b.drop_first(), x);
        lemma2_to64();
        lemma_pow2_adds(8, 8 * b.drop_first().len());
        assert(8 + 8 * b.drop_first().len() == 8 * b.len());
        let p = pow2(8 * b.drop_first().len()) as int;
        assert(256 * (x * p) == x * (256 * p)) by (nonlinear_arith);
    }
}

/// `n` bytes denote a number below 2^(8n).
pub proof fn lemma_le_bound(b: Seq<u8>)
    ensures
        value::le_value(b) < pow2(8 * b.len()),
    decreases b.len(),
{
    lemma2_to64();
    if b.len() > 0 {
        lemma_le_bound(b.drop_first());
        lemma_pow2_adds(8, 8 * b.drop_first().len());
        assert(8 + 8 * b.drop_first().len() == 8 * b.len());
    }
}

/// A non-zero last byte makes the number large.
pub proof fn lemma_le_last(b: Seq<u8>)
    requires
        b.len() > 0,
    ensures
        value::le_value(b) >= b.last() * pow2(8 * (b.len() - 1) as nat),
{
    lemma_le_push(b.drop_last(), b.last());
    assert(b.drop_last().push(b.last()) =~= b);
}

/// Powers of two grow.
pub proof fn lemma_pow2_mono(a: nat, b: nat)
    requires
        a <= b,
    ensures
        pow2(a) <= pow2(b),
{
    if a < b {
        lemma_pow2_strictly_increases(a, b);
    }
}

/// What fits some bytes fits more.
pub proof fn lemma_fits_mono(x: int, a: nat, b: nat)
    requires
        fits_signed(x, a),
        a <= b,
    ensures
        fits_signed(x, b),
{
    lemma_pow2_mono((8 * a - 1) as nat, (8 * b - 1) as nat);
}

} // verus!
