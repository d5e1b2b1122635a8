//! Numbers as text and as bit patterns: what a numeral, a decimal rendering, a
//! double and a row of bytes denote.

use vstd::prelude::*;
use vstd::arithmetic::power2::pow2;
use vstd::arithmetic::power2::{lemma_pow2_adds, lemma_pow2_pos, lemma_pow2_unfold};
use crate::bignum;
use crate::bytes;
use crate::errors::Failure;
use crate::floats;
use crate::floats::{Attr, FloatProtocol, Real};
use crate::numbers;
use crate::strings;
use crate::text;
use crate::value::Object;

verus! {

/// Only spaces, tabs, line feeds, form feeds and carriage returns.
pub open spec fn spaces(s: Seq<u8>) -> bool {
    forall|i: int|
        0 <= i < s.len() ==> #[trigger] s[i] == 32 || s[i] == 9 || s[i] == 10 || s[i] == 12
            || s[i] == 13
}

/// The value of one digit, `0` to `9` and then the letters in either case.
pub open spec fn worth(c: u8, v: int) -> bool {
    ||| v == c - 48 && 48 <= c <= 57
    ||| v == c - 65 + 10 && 65 <= c <= 90
    ||| v == c - 97 + 10 && 97 <= c <= 122
}

/// A digit of the radix.
pub open spec fn digit_of(c: u8, radix: int) -> bool {
    exists|v: int| 0 <= v < radix && #[trigger] worth(c, v)
}

/// At least one digit, and each of them of the radix.
pub open spec fn numeral(s: Seq<u8>, radix: int) -> bool {
    &&& s.len() > 0
    &&& forall|i: int| 0 <= i < s.len() ==> digit_of(#[trigger] s[i], radix)
}

/// A sign: nothing, `+` or `-`.
pub open spec fn sign(s: Seq<u8>) -> bool {
    s == Seq::<u8>::empty() || s == seq![43u8] || s == seq![45u8]
}

/// What a magnitude comes to under a sign.
pub open spec fn signed(s: Seq<u8>, mag: int) -> int {
    if s == seq![45u8] {
        -mag
    } else {
        mag
    }
}

/// The letter that stands for a radix behind a zero.
pub open spec fn radix_letter(c: u8, radix: int) -> bool {
    ||| radix == 16 && (c == 120 || c == 88)
    ||| radix == 8 && (c == 111 || c == 79)
    ||| radix == 2 && (c == 98 || c == 66)
}

/// A digit counts for its worth, and every digit in front of it counts the radix
/// times as much as it would alone.
pub proof fn law_positional(s: Seq<u8>, c: u8, v: int, radix: int)
    requires
        worth(c, v),
    ensures
        bignum::digits_value(Seq::empty(), radix) == 0,
        bignum::digits_value(s.push(c), radix) == bignum::digits_value(s, radix) * radix + v,
{
    assert(s.push(c).drop_last() =~= s);
}

proof fn lemma_numeral(s: Seq<u8>, radix: int)
    requires
        numeral(s, radix),
        radix <= 36,
    ensures
        forall|i: int| 0 <= i < s.len() ==> numbers::is_digit(#[trigger] s[i], radix),
{
    assert forall|i: int| 0 <= i < s.len() implies numbers::is_digit(#[trigger] s[i], radix) by {
        let v = choose|v: int| 0 <= v < radix && #[trigger] worth(s[i], v);
        assert(worth(s[i], v));
    }
}

proof fn lemma_past_space(b: Seq<u8>, i: int, j: int)
    requires
        0 <= i <= j <= b.len(),
        forall|k: int| i <= k < j ==> numbers::ascii_space(#[trigger] b[k]),
        j == b.len() || !numbers::ascii_space(b[j]),
    ensures
        numbers::past_space(b, i) == j,
    decreases j - i,
{
    if i < j {
        lemma_past_space(b, i + 1, j);
    }
}

proof fn lemma_past_digits(b: Seq<u8>, i: int, j: int, radix: int)
    requires
        0 <= i <= j <= b.len(),
        radix <= 36,
        forall|k: int| i <= k < j ==> numbers::is_digit(#[trigger] b[k], radix),
    ensures
        numbers::past_digits(b, i, radix) == numbers::past_digits(b, j, radix),
    decreases j - i,
{
    if i < j {
        lemma_past_digits(b, i + 1, j, radix);
    }
}

proof fn lemma_bare(s: Seq<u8>)
    requires
        forall|i: int| 0 <= i < s.len() ==> #[trigger] s[i] != 95,
    ensures
        numbers::bare(s) == s,
    decreases s.len(),
{
    if s.len() > 0 {
        assert forall|i: int| 0 <= i < s.drop_last().len() implies #[trigger] s.drop_last()[i]
            != 95 by {
            assert(s.drop_last()[i] == s[i]);
        }
        lemma_bare(s.drop_last());
        assert(s.drop_last().push(s.last()) =~= s);
    }
}

proof fn lemma_bare_joined(s: Seq<u8>, t: Seq<u8>)
    requires
        forall|i: int| 0 <= i < s.len() ==> #[trigger] s[i] != 95,
        forall|i: int| 0 <= i < t.len() ==> #[trigger] t[i] != 95,
    ensures
        numbers::bare(s + seq![95u8] + t) == s + t,
    decreases t.len(),
{
    let u = s + seq![95u8] + t;
    if t.len() == 0 {
        assert(u.drop_last() =~= s);
        assert(u.last() == 95);
        lemma_bare(s);
        assert(s + t =~= s);
    } else {
        assert forall|i: int| 0 <= i < t.drop_last().len() implies #[trigger] t.drop_last()[i]
            != 95 by {
            assert(t.drop_last()[i] == t[i]);
        }
        lemma_bare_joined(s, t.drop_last());
        assert(u.drop_last() =~= s + seq![95u8] + t.drop_last());
        assert(u.last() == t.last());
        assert(t.last() == t[t.len() - 1]);
        assert((s + t.drop_last()).push(t.last()) =~= s + t);
    }
}

/// Where the spaces and the sign in front of a text end.
proof fn lemma_front(b: Seq<u8>, front: Seq<u8>, sg: Seq<u8>, rest: Seq<u8>)
    requires
        spaces(front),
        sign(sg),
        b == front + sg + rest,
        rest.len() > 0,
        !numbers::ascii_space(rest[0]),
        rest[0] != 43,
        rest[0] != 45,
    ensures
        numbers::past_sign(b) == front.len() + sg.len(),
        numbers::has_minus(b) == (sg == seq![45u8]),
        b[(front.len() + sg.len()) as int] == rest[0],
{
    let n = front.len() as int;
    assert forall|k: int| 0 <= k < n implies numbers::ascii_space(#[trigger] b[k]) by {
        assert(b[k] == front[k]);
    }
    assert(b[(n + sg.len()) as int] == rest[0]);
    if sg.len() > 0 {
        assert(b[n] == sg[0]);
    }
    lemma_past_space(b, 0, n);
    assert(seq![43u8][0] == 43);
    assert(seq![45u8][0] == 45);
    assert(seq![43u8] != seq![45u8]) by {
        assert(seq![43u8][0] != seq![45u8][0]);
    }
}

/// A run of digits between a start and some spaces is the whole numeral.
proof fn lemma_run(b: Seq<u8>, start: int, d: Seq<u8>, back: Seq<u8>, radix: int)
    requires
        0 <= start,
        b.len() == start + d.len() + back.len(),
        b.subrange(start, b.len() as int) == d + back,
        2 <= radix <= 36,
        numeral(d, radix),
        spaces(back),
    ensures
        numbers::run_end(b, start, radix) == start + d.len(),
        numbers::bare(b.subrange(start, start + d.len())) == d,
        numbers::past_space(b, start + d.len()) == b.len(),
{
    let e = start + d.len();
    let tail = b.subrange(start, b.len() as int);
    lemma_numeral(d, radix);
    assert forall|k: int| start <= k < e implies numbers::is_digit(#[trigger] b[k], radix) by {
        assert(tail[k - start] == b[k]);
        assert(d[k - start] == b[k]);
    }
    assert forall|k: int| e <= k < b.len() implies numbers::ascii_space(#[trigger] b[k]) by {
        assert(tail[k - start] == b[k]);
        assert(back[k - e] == b[k]);
    }
    lemma_past_digits(b, start + 1, e, radix);
    assert(numbers::past_digits(b, e, radix) == e) by {
        if e < b.len() {
            assert(numbers::ascii_space(b[e]));
        }
    }
    assert(b.subrange(start, e) =~= d) by {
        assert forall|k: int| 0 <= k < d.len() implies b.subrange(start, e)[k] == d[k] by {
            assert(tail[k] == b[start + k]);
        }
    }
    assert forall|k: int| 0 <= k < d.len() implies #[trigger] d[k] != 95 by {
        assert(numbers::is_digit(d[k], radix));
    }
    lemma_bare(d);
    lemma_past_space(b, e, b.len() as int);
}

/// Digits of a base, with an optional sign in front and spaces around, are a
/// numeral of that base. It denotes what its digits denote, under its sign, and
/// ends where its digits end.
pub proof fn law_numeral(front: Seq<u8>, sg: Seq<u8>, d: Seq<u8>, back: Seq<u8>, base: i32)
    requires
        2 <= base <= 36,
        spaces(front),
        sign(sg),
        numeral(d, base as int),
        spaces(back),
    ensures
        ({
            let b = front + sg + d + back;
            let l = numbers::literal(b, base);
            &&& numbers::literal_ok(b, base, false)
            &&& numbers::literal_ok(b, base, true)
            &&& numbers::literal_value(l) == signed(sg, bignum::digits_value(d, base as int))
            &&& l.end == front.len() + sg.len() + d.len()
        }),
{
    let b = front + sg + d + back;
    let rest = d + back;
    assert(b =~= front + sg + rest);
    lemma_numeral(d, base as int);
    assert(rest[0] == d[0]);
    assert(numbers::is_digit(d[0], base as int));
    lemma_front(b, front, sg, rest);
    let i = (front.len() + sg.len()) as int;
    assert(b.subrange(i, b.len() as int) =~= rest);
    if i + 1 < b.len() {
        assert(b[i + 1] == rest[1]);
        if d.len() > 1 {
            assert(rest[1] == d[1]);
            assert(numbers::is_digit(d[1], base as int));
        } else {
            assert(rest[1] == back[0]);
        }
    }
    assert(numbers::digits_start(b, base) == i);
    lemma_run(b, i, d, back, base as int);
}

/// Without a base, digits that do not start with a zero are decimal.
pub proof fn law_decimal_without_a_base(front: Seq<u8>, sg: Seq<u8>, d: Seq<u8>, back: Seq<u8>)
    requires
        spaces(front),
        sign(sg),
        numeral(d, 10),
        d[0] != 48,
        spaces(back),
    ensures
        ({
            let b = front + sg + d + back;
            let l = numbers::literal(b, 0);
            &&& numbers::literal_ok(b, 0, false)
            &&& numbers::literal_value(l) == signed(sg, bignum::digits_value(d, 10))
            &&& l.end == front.len() + sg.len() + d.len()
        }),
{
    let b = front + sg + d + back;
    let rest = d + back;
    assert(b =~= front + sg + rest);
    lemma_numeral(d, 10);
    assert(rest[0] == d[0]);
    assert(numbers::is_digit(d[0], 10));
    lemma_front(b, front, sg, rest);
    let i = (front.len() + sg.len()) as int;
    assert(b.subrange(i, b.len() as int) =~= rest);
    assert(numbers::digits_start(b, 0) == i);
    lemma_run(b, i, d, back, 10);
}

/// A zero and a radix letter in front of the digits name the radix: `0x` is
/// sixteen, `0o` eight and `0b` two. The same numeral is read with that base and
/// without one.
pub proof fn law_prefix_names_the_radix(
    front: Seq<u8>,
    sg: Seq<u8>,
    letter: u8,
    d: Seq<u8>,
    back: Seq<u8>,
    radix: i32,
    base: i32,
)
    requires
        radix_letter(letter, radix as int),
        base == 0 || base == radix,
        spaces(front),
        sign(sg),
        numeral(d, radix as int),
        spaces(back),
    ensures
        ({
            let b = front + sg + seq![48u8, letter] + d + back;
            let l = numbers::literal(b, base);
            &&& numbers::literal_ok(b, base, false)
            &&& numbers::literal_value(l) == signed(sg, bignum::digits_value(d, radix as int))
            &&& l.end == front.len() + sg.len() + 2 + d.len()
        }),
{
    let b = front + sg + seq![48u8, letter] + d + back;
    let rest = seq![48u8, letter] + d + back;
    assert(b =~= front + sg + rest);
    assert(rest[0] == 48);
    assert(rest[1] == letter);
    lemma_front(b, front, sg, rest);
    let i = (front.len() + sg.len()) as int;
    assert(b[i + 1] == rest[1]);
    assert(b.subrange(i + 2, b.len() as int) =~= d + back);
    assert(numbers::digits_start(b, base) == i + 2);
    assert(numbers::radix_of(b, base) == radix);
    lemma_run(b, i + 2, d, back, radix as int);
}

/// One underscore between two digits is passed over: the number is that of the
/// digits without it.
pub proof fn law_underscore_between_digits(c: Seq<u8>, d: Seq<u8>, base: i32)
    requires
        2 <= base <= 36,
        numeral(c, base as int),
        numeral(d, base as int),
        c[0] != 48,
    ensures
        ({
            let b = c + seq![95u8] + d;
            &&& numbers::literal_ok(b, base, false)
            &&& numbers::literal_value(numbers::literal(b, base)) == bignum::digits_value(
                c + d,
                base as int,
            )
        }),
{
    let b = c + seq![95u8] + d;
    let r = base as int;
    lemma_numeral(c, r);
    lemma_numeral(d, r);
    assert(b[0] == c[0]);
    assert(numbers::is_digit(c[0], r));
    assert(numbers::is_digit(d[0], r));
    lemma_past_space(b, 0, 0);
    assert(numbers::past_sign(b) == 0);
    let n = c.len() as int;
    assert forall|k: int| 0 <= k < n implies numbers::is_digit(#[trigger] b[k], r) by {
        assert(b[k] == c[k]);
    }
    assert forall|k: int| n + 1 <= k < b.len() implies numbers::is_digit(#[trigger] b[k], r) by {
        assert(b[k] == d[k - n - 1]);
    }
    lemma_past_digits(b, 1, n, r);
    assert(b[n] == 95);
    assert(b[n + 1] == d[0]);
    lemma_past_digits(b, n + 2, b.len() as int, r);
    assert(numbers::run_end(b, 0, r) == b.len());
    assert(b.subrange(0, b.len() as int) =~= b);
    assert forall|k: int| 0 <= k < c.len() implies #[trigger] c[k] != 95 by {
        assert(numbers::is_digit(c[k], r));
    }
    assert forall|k: int| 0 <= k < d.len() implies #[trigger] d[k] != 95 by {
        assert(numbers::is_digit(d[k], r));
    }
    lemma_bare_joined(c, d);
    lemma_past_space(b, b.len() as int, b.len() as int);
}

/// A text is no numeral where no digit follows the spaces and the sign, and none
/// where anything but spaces follows the digits.
pub proof fn law_no_numeral(front: Seq<u8>, sg: Seq<u8>, d: Seq<u8>, rest: Seq<u8>, base: i32)
    requires
        2 <= base <= 36,
        spaces(front),
        sign(sg),
        forall|i: int| 0 <= i < d.len() ==> numbers::is_digit(#[trigger] d[i], base as int),
        d.len() > 0 ==> d[0] != 48,
        rest.len() > 0,
        !numbers::is_digit(rest[0], base as int),
        rest[0] != 43,
        rest[0] != 45,
        rest[0] != 95,
        !numbers::ascii_space(rest[0]),
    ensures
        !numbers::literal_ok(front + sg + d + rest, base, false),
        numbers::literal_ok(front + sg + d + rest, base, true) == (d.len() > 0),
{
    let b = front + sg + d + rest;
    let r = base as int;
    let all = d + rest;
    assert(b =~= front + sg + all);
    let i = (front.len() + sg.len()) as int;
    let e = i + d.len();
    assert(b[e] == rest[0]);
    if d.len() > 0 {
        assert(all[0] == d[0]);
        assert(numbers::is_digit(d[0], r));
    } else {
        assert(all[0] == rest[0]);
    }
    lemma_front(b, front, sg, all);
    if d.len() == 0 {
        assert(b[i] == rest[0]);
        if rest[0] == 48 {
            assert(worth(48, 0));
            assert(numbers::is_digit(48, r));
        }
    }
    assert(numbers::digits_start(b, base) == i);
    assert forall|k: int| i <= k < e implies numbers::is_digit(#[trigger] b[k], r) by {
        assert(b[k] == d[k - i]);
    }
    if d.len() > 0 {
        assert(b[i] == d[0]);
        lemma_past_digits(b, i + 1, e, r);
    }
    assert(numbers::run_end(b, i, r) == e);
    assert(b.subrange(i, e) =~= d);
    assert forall|k: int| 0 <= k < d.len() implies #[trigger] d[k] != 95 by {
        assert(numbers::is_digit(d[k], r));
    }
    lemma_bare(d);
    lemma_past_space(b, e, e);
}

/// A text as bytes, one for each character.
pub open spec fn narrow(s: Seq<char>) -> Seq<u8> {
    Seq::new(s.len(), |i: int| s[i] as u8)
}

proof fn lemma_digit_char(d: int)
    requires
        0 <= d < 10,
    ensures
        worth(text::digit_char(d) as u8, d),
{
    let c = text::digit_char(d);
    assert(c as u8 == 48 + d);
}

/// The decimal rendering of a number reads back as that number: its digits are
/// decimal, denote the magnitude and start with a zero only for zero itself.
pub proof fn law_rendered_number(n: nat)
    ensures
        numeral(narrow(text::dec_nat(n)), 10),
        bignum::digits_value(narrow(text::dec_nat(n)), 10) == n,
        n > 0 ==> text::dec_nat(n)[0] as u8 != 48,
    decreases n,
{
    let s = text::dec_nat(n);
    let d = (n % 10) as int;
    assert(0 <= d < 10);
    lemma_digit_char(d);
    let c = text::digit_char(d) as u8;
    if n < 10 {
        assert(narrow(s) =~= seq![c]);
        assert(Seq::<u8>::empty().push(c) =~= narrow(s));
        law_positional(Seq::empty(), c, d, 10);
        assert forall|i: int| 0 <= i < narrow(s).len() implies digit_of(
            #[trigger] narrow(s)[i],
            10,
        ) by {
            assert(worth(narrow(s)[i], d));
        }
    } else {
        law_rendered_number(n / 10);
        let t = narrow(text::dec_nat(n / 10));
        assert(narrow(s) =~= t.push(c));
        law_positional(t, c, d, 10);
        assert forall|i: int| 0 <= i < narrow(s).len() implies digit_of(
            #[trigger] narrow(s)[i],
            10,
        ) by {
            if i < t.len() {
                assert(narrow(s)[i] == t[i]);
                assert(digit_of(t[i], 10));
            } else {
                assert(worth(narrow(s)[i], d));
            }
        }
        assert(s[0] == text::dec_nat(n / 10)[0]);
    }
}

/// A negative number is rendered as a minus sign and its magnitude, any other as
/// its magnitude alone.
pub proof fn law_rendered_sign(n: nat)
    ensures
        text::dec(n as int) == text::dec_nat(n),
        n > 0 ==> text::dec(-n) == seq!['-'] + text::dec_nat(n),
{
}

/// The bits that a number needs: one fewer is too few.
pub proof fn law_bit_length(n: nat)
    requires
        n > 0,
    ensures
        bignum::bit_len(n) > 0,
        pow2((bignum::bit_len(n) - 1) as nat) <= n < pow2(bignum::bit_len(n)),
    decreases n,
{
    reveal(pow2);
    let k = bignum::bit_len(n);
    if n == 1 {
        assert(bignum::bit_len(0) == 0);
        assert(bignum::bit_len(1) == 1 + bignum::bit_len(0));
        lemma_pow2_unfold(1);
        vstd::arithmetic::power2::lemma2_to64();
    } else {
        law_bit_length(n / 2);
        lemma_pow2_unfold(k);
        lemma_pow2_unfold((k - 1) as nat);
    }
}

/// The bit pattern of a double with a sign, a biased exponent and a fraction.
pub open spec fn double(negative: bool, e: int, fraction: int) -> int {
    (if negative {
        0x8000_0000_0000_0000int
    } else {
        0int
    }) + e * 0x10_0000_0000_0000 + fraction
}

proof fn lemma_double(negative: bool, e: int, fraction: int)
    requires
        0 <= e < 2048,
        0 <= fraction < 0x10_0000_0000_0000,
    ensures
        0 <= double(negative, e, fraction) <= u64::MAX,
        numbers::float_exp(double(negative, e, fraction) as u64) == e,
        numbers::float_man(double(negative, e, fraction) as u64) == fraction,
        numbers::float_neg(double(negative, e, fraction) as u64) == negative,
{
}

/// A finite double of exponent `e` is `m * 2^(e - 1075)`. Its integer is that
/// number cut off towards zero.
pub proof fn law_double_is_cut_towards_zero(negative: bool, e: int, fraction: int)
    requires
        0 < e < 2047,
        0 <= fraction < 0x10_0000_0000_0000,
    ensures
        ({
            let bits = double(negative, e, fraction) as u64;
            let m = 0x10_0000_0000_0000 + fraction;
            let v = numbers::float_int(bits);
            let mag = if negative {
                -v
            } else {
                v
            };
            &&& e >= 1075 ==> mag == m * pow2((e - 1075) as nat)
            &&& e < 1075 ==> 0 <= mag && mag * pow2((1075 - e) as nat) <= m < (mag + 1) * pow2(
                (1075 - e) as nat,
            )
        }),
{
    lemma_double(negative, e, fraction);
    let bits = double(negative, e, fraction) as u64;
    let m = 0x10_0000_0000_0000 + fraction;
    if e < 1075 {
        let p = pow2((1075 - e) as nat) as int;
        lemma_pow2_pos((1075 - e) as nat);
        if e < 1023 {
            lemma_pow2_adds(53, (1022 - e) as nat);
            lemma_pow2_pos((1022 - e) as nat);
            vstd::arithmetic::power2::lemma2_to64();
            vstd::arithmetic::power2::lemma2_to64_rest();
            let q = pow2((1022 - e) as nat) as int;
            assert(pow2(53) == 0x20_0000_0000_0000);
            assert(p == pow2(53) * q);
            assert(0x20_0000_0000_0000int * q >= 0x20_0000_0000_0000int) by (nonlinear_arith)
                requires
                    q >= 1,
            ;
            let mag = numbers::float_mag(bits);
            assert(mag * p == 0 && (mag + 1) * p == p) by (nonlinear_arith)
                requires
                    mag == 0,
            ;
        } else {
            vstd::arithmetic::div_mod::lemma_fundamental_div_mod(m, p);
            vstd::arithmetic::div_mod::lemma_mod_bound(m, p);
            vstd::arithmetic::div_mod::lemma_div_pos_is_pos(m, p);
            let mag = m / p;
            assert(numbers::float_mag(bits) == mag);
            assert(mag * p == p * mag) by (nonlinear_arith);
            assert((mag + 1) * p == p * mag + p) by (nonlinear_arith);
        }
    } else {
        assert(numbers::float_mag(bits) == m * pow2((e - 1075) as nat));
    }
}

/// A double below the least normal number has the integer zero; a double that is
/// no number is cut to zero, an infinity to the end of the range on its side.
pub proof fn law_double_at_the_edges(negative: bool, fraction: int)
    requires
        0 <= fraction < 0x10_0000_0000_0000,
    ensures
        numbers::float_int(double(negative, 0, fraction) as u64) == 0,
        fraction > 0 ==> numbers::float_trunc(double(negative, 2047, fraction) as u64) == 0,
        numbers::float_trunc(double(false, 2047, 0) as u64) == i64::MAX,
        numbers::float_trunc(double(true, 2047, 0) as u64) == i64::MIN,
{
    lemma_double(negative, 0, fraction);
    lemma_double(negative, 2047, fraction);
    lemma_double(false, 2047, 0);
    lemma_double(true, 2047, 0);
}

/// A finite double is cut to its integer where a machine word holds that, and to
/// the nearest end of the range where none does.
pub proof fn law_double_in_range(bits: u64)
    requires
        numbers::float_exp(bits) < 2047,
    ensures
        i64::MIN <= numbers::float_int(bits) <= i64::MAX ==> numbers::float_trunc(bits)
            == numbers::float_int(bits),
        numbers::float_int(bits) > i64::MAX ==> numbers::float_trunc(bits) == i64::MAX,
        numbers::float_int(bits) < i64::MIN ==> numbers::float_trunc(bits) == i64::MIN,
{
}

/// The number of a row of bytes: the least significant byte counts for itself
/// and the rest 256 times as much. It is the first byte of a little-endian row
/// and the last one of a big-endian row.
pub proof fn law_byte_order(c: u8, b: Seq<u8>)
    ensures
        numbers::byte_array_value(Seq::empty(), true, false) == 0,
        numbers::byte_array_value(seq![c] + b, true, false) == c + 256
            * numbers::byte_array_value(b, true, false),
        numbers::byte_array_value(b.push(c), false, false) == c + 256
            * numbers::byte_array_value(b, false, false),
{
    let s = seq![c] + b;
    assert(s.drop_first() =~= b);
    assert(s[0] == c);
    assert(b.push(c).reverse() =~= seq![c] + b.reverse());
    let t = seq![c] + b.reverse();
    assert(t.drop_first() =~= b.reverse());
    assert(t[0] == c);
}

/// A signed row of bytes denotes its unsigned number, less one more than a row
/// of its length can hold where the most significant bit is set.
pub proof fn law_signed_bytes(b: Seq<u8>, little: bool)
    requires
        b.len() > 0,
    ensures
        ({
            let top = if little {
                b[b.len() - 1]
            } else {
                b[0]
            };
            numbers::byte_array_value(b, little, true) == numbers::byte_array_value(
                b,
                little,
                false,
            ) - (if top >= 128 {
                pow2(8 * b.len()) as int
            } else {
                0
            })
        }),
{
    assert(b.reverse().last() == b[0]);
}

/// A bit pattern is packed with its low byte first in little-endian order and
/// last in big-endian order.
pub proof fn law_packed_order(bits: nat, n: nat)
    ensures
        floats::packed(bits, n + 1, true) == seq![(bits % 256) as u8] + floats::packed(
            bits / 256,
            n,
            true,
        ),
        floats::packed(bits, n + 1, false) == floats::packed(bits / 256, n, false).push(
            (bits % 256) as u8,
        ),
{
    let a = bytes::le_bytes(bits, n + 1);
    let b = bytes::le_bytes(bits / 256, n);
    let c = (bits % 256) as u8;
    assert(a =~= seq![c] + b);
    assert(a.reverse() =~= b.reverse().push(c));
}

/// A value in the range of a C integer is converted to itself, and no other value
/// is converted.
pub proof fn law_conversion_is_exact(
    r: Result<i64, Failure>,
    u: Result<u64, Failure>,
    p: (i64, i32),
    v: int,
)
    requires
        numbers::long_or_overflow(r, v),
        numbers::ulong_or_overflow(u, v),
        numbers::long_and_flag(p, v),
    ensures
        r is Ok <==> -0x8000_0000_0000_0000 <= v < 0x8000_0000_0000_0000,
        r matches Ok(x) ==> x == v,
        u is Ok <==> 0 <= v < 0x1_0000_0000_0000_0000,
        u matches Ok(x) ==> x == v,
        p.1 == 0 <==> r is Ok,
        p.1 == 0 ==> p.0 == v,
        p.1 != 0 ==> p.0 == -1 && p.1 == (if v < 0 {
            -1int
        } else {
            1
        }),
{
}

/// An integer object that holds a value is read as that value. A value that fits a
/// machine word is never held by a big integer.
pub proof fn law_integer_object(o: Object, v: int)
    requires
        bignum::normal_int(o, v),
    ensures
        bignum::is_int(o),
        bignum::int_of(o) == v,
        o is Long <==> (v < -0x8000_0000_0000_0000 || v >= 0x8000_0000_0000_0000),
{
}

/// An integer is converted as it is, whatever its index method would give. Any other
/// object is converted by the integer that its index method gave.
pub proof fn law_integer_source(o: Object, index: Object)
    ensures
        o is Int || o is Long || o is Bool ==> numbers::int_source(o, Some(&index)) == Some(o),
        !(o is Int || o is Long || o is Bool) && (index is Int || index is Long || index is Bool)
            ==> numbers::int_source(o, Some(&index)) == Some(index),
        !(o is Int || o is Long || o is Bool) && !(index is Int || index is Long || index is Bool)
            ==> numbers::int_source(o, Some(&index)) is None,
        !(o is Int || o is Long || o is Bool) ==> numbers::int_source(o, None) is None,
{
}

/// The remainder of a truncating division: below the divisor in magnitude, of the
/// sign of the dividend, and equal to it up to a multiple of the divisor.
pub proof fn law_truncating_remainder(a: int, m: int)
    requires
        m > 0,
    ensures
        -m < bignum::trunc_rem(a, m) < m,
        a >= 0 ==> bignum::trunc_rem(a, m) >= 0,
        a <= 0 ==> bignum::trunc_rem(a, m) <= 0,
        exists|q: int| a == #[trigger] (q * m) + bignum::trunc_rem(a, m),
{
    let b = if a >= 0 {
        a
    } else {
        -a
    };
    vstd::arithmetic::div_mod::lemma_fundamental_div_mod(b, m);
    vstd::arithmetic::div_mod::lemma_mod_bound(b, m);
    let d = b / m;
    let q = if a >= 0 {
        d
    } else {
        -d
    };
    assert(m * d == d * m) by (nonlinear_arith);
    assert((-d) * m == -(d * m)) by (nonlinear_arith);
    assert(a == q * m + bignum::trunc_rem(a, m));
}

/// A number fits some bytes exactly where it is in the range of their two's
/// complement, or, unsigned, where it is not negative and below what they count up
/// to.
pub proof fn law_range_of_bytes(v: int, n: nat)
    requires
        n > 0,
    ensures
        numbers::byte_array_fits(v, n, true) <==> -pow2((8 * n - 1) as nat) <= v < pow2(
            (8 * n - 1) as nat,
        ),
        v >= 0 ==> (numbers::byte_array_fits(v, n, false) <==> v < pow2(8 * n)),
{
}

/// The white space around a text is left out of a message, and nothing else.
pub proof fn law_message_is_trimmed(front: Seq<char>, s: Seq<char>, back: Seq<char>)
    requires
        forall|i: int| 0 <= i < front.len() ==> strings::char_is_whitespace(#[trigger] front[i]),
        forall|i: int| 0 <= i < back.len() ==> strings::char_is_whitespace(#[trigger] back[i]),
        s.len() > 0,
        !strings::char_is_whitespace(s[0]),
        !strings::char_is_whitespace(s[s.len() - 1]),
    ensures
        numbers::trimmed(front + s + back) == s,
{
    let t = front + s + back;
    lemma_past_white(t, 0, front.len() as int);
    assert(t.subrange(front.len() as int, t.len() as int) =~= s + back);
    lemma_trimmed_end(s, back);
}

proof fn lemma_past_white(t: Seq<char>, i: int, n: int)
    requires
        0 <= i <= n < t.len(),
        forall|k: int| i <= k < n ==> strings::char_is_whitespace(#[trigger] t[k]),
        !strings::char_is_whitespace(t[n]),
    ensures
        strings::ws_from(t, i, false) == n,
    decreases n - i,
{
    if i < n {
        lemma_past_white(t, i + 1, n);
    }
}

proof fn lemma_trimmed_end(s: Seq<char>, back: Seq<char>)
    requires
        forall|i: int| 0 <= i < back.len() ==> strings::char_is_whitespace(#[trigger] back[i]),
        s.len() > 0,
        !strings::char_is_whitespace(s[s.len() - 1]),
    ensures
        strings::trim_end(s + back) == s,
    decreases back.len(),
{
    if back.len() == 0 {
        assert(s + back =~= s);
    } else {
        assert((s + back).drop_last() =~= s + back.drop_last());
        assert((s + back).last() == back[back.len() - 1]);
        assert forall|i: int| 0 <= i < back.drop_last().len() implies strings::char_is_whitespace(
            #[trigger] back.drop_last()[i],
        ) by {
            assert(back.drop_last()[i] == back[i]);
        }
        lemma_trimmed_end(s, back.drop_last());
    }
}

/// A real number is the same double whether it is read as a float, as the real part
/// of itself or as a complex number, which has no imaginary part.
pub proof fn law_real_number(o: Object)
    requires
        o is Float || o is Int || o is Long,
    ensures
        ({
            let x = match o {
                Object::Float(f) => Real::Canonical(f),
                Object::Int(i) => Real::OfInt(i),
                Object::Long(b) => Real::OfLong(&b),
                _ => Real::Zero,
            };
            &&& floats::real_of(&o) is Some
            &&& floats::seen(floats::real_of(&o)->Some_0) == x
            &&& floats::real_part(&o) == Some(x)
            &&& floats::parts_of(&o) == Some((x, Real::Zero))
            &&& floats::given_parts(&o) == Some((x, Real::Zero))
        }),
{
}

/// A complex number has its own two parts, and is no real number.
pub proof fn law_complex_number(re: u64, im: u64)
    ensures
        ({
            let o = Object::Complex(re, im);
            &&& floats::real_of(&o) is None
            &&& floats::real_part(&o) == Some(Real::Canonical(re))
            &&& floats::parts_of(&o) == Some((Real::Canonical(re), Real::Canonical(im)))
            &&& floats::given_parts(&o) == Some((Real::Canonical(re), Real::Canonical(im)))
        }),
{
}

/// The float method of an object decides: what it raised is raised, the number that
/// it gave is the result, and without it the object is refused by its type's name.
pub proof fn law_float_method<'a>(
    o: &'a Object,
    p: FloatProtocol<'a>,
    name: Seq<char>,
    r: Result<Real<'a>, Failure>,
)
    requires
        floats::protocol_gave(Attr::Gave(o), p),
        floats::protocol_double(p, name, r),
    ensures
        r is Ok <==> *o is Float || *o is Int || *o is Long || *o is Bool,
        *o matches Object::Float(f) ==> r->Ok_0 == Real::Canonical(f),
        *o matches Object::Int(i) ==> r->Ok_0 == Real::OfInt(i),
{
}

proof fn lemma_zeros_denote(d: Seq<u8>, radix: int)
    requires
        forall|i: int| 0 <= i < d.len() ==> #[trigger] d[i] == 48,
    ensures
        bignum::digits_value(d, radix) == 0,
    decreases d.len(),
{
    if d.len() > 0 {
        let t = d.drop_last();
        assert forall|i: int| 0 <= i < t.len() implies #[trigger] t[i] == 48 by {
            assert(t[i] == d[i]);
        }
        lemma_zeros_denote(t, radix);
        assert(d.last() == d[d.len() - 1]);
    }
}

/// Without a base, digits that start with a zero are accepted exactly where all of them
/// are zeros, and then denote zero.
pub proof fn law_leading_zero_without_a_base(front: Seq<u8>, sg: Seq<u8>, d: Seq<u8>, back: Seq<u8>)
    requires
        spaces(front),
        sign(sg),
        numeral(d, 10),
        d[0] == 48,
        spaces(back),
    ensures
        ({
            let b = front + sg + d + back;
            &&& numbers::literal_ok(b, 0, false) <==> (forall|i: int|
                0 <= i < d.len() ==> #[trigger] d[i] == 48)
            &&& (forall|i: int| 0 <= i < d.len() ==> #[trigger] d[i] == 48)
                ==> numbers::literal_value(numbers::literal(b, 0)) == 0
        }),
{
    let b = front + sg + d + back;
    let rest = d + back;
    assert(b =~= front + sg + rest);
    lemma_numeral(d, 10);
    assert(rest[0] == d[0]);
    lemma_front(b, front, sg, rest);
    let i = (front.len() + sg.len()) as int;
    assert(b.subrange(i, b.len() as int) =~= rest);
    if i + 1 < b.len() {
        assert(b[i + 1] == rest[1]);
        if d.len() > 1 {
            assert(rest[1] == d[1]);
            assert(numbers::is_digit(d[1], 10));
        } else {
            assert(rest[1] == back[0]);
        }
    }
    assert(numbers::digits_start(b, 0) == i);
    lemma_run(b, i, d, back, 10);
    if forall|k: int| 0 <= k < d.len() ==> #[trigger] d[k] == 48 {
        lemma_zeros_denote(d, 10);
    }
}

/// An underscore behind the last digit, or in front of another underscore, makes a text no
/// numeral.
pub proof fn law_stray_underscore(c: Seq<u8>, rest: Seq<u8>, base: i32)
    requires
        2 <= base <= 36,
        numeral(c, base as int),
        c[0] != 48,
        rest.len() == 0 || rest[0] == 95,
    ensures
        !numbers::literal_ok(c + seq![95u8] + rest, base, false),
{
    let b = c + seq![95u8] + rest;
    let r = base as int;
    let n = c.len() as int;
    lemma_numeral(c, r);
    assert(b[0] == c[0]);
    assert(numbers::is_digit(c[0], r));
    lemma_past_space(b, 0, 0);
    assert(numbers::past_sign(b) == 0);
    assert forall|k: int| 0 <= k < n implies numbers::is_digit(#[trigger] b[k], r) by {
        assert(b[k] == c[k]);
    }
    lemma_past_digits(b, 1, n, r);
    assert(b[n] == 95);
    if rest.len() > 0 {
        assert(b[n + 1] == rest[0]);
    }
    assert(numbers::run_end(b, 0, r) == n);
    lemma_past_space(b, n, n);
}

} // verus!
