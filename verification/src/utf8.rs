//! Encoding code points as UTF-8 and decoding them back.

use vstd::prelude::*;
use vstd::utf8::*;

verus! {

/// `char::from_u32`: the code point as a `char`, unless it is a surrogate or
/// above U+10FFFF. Claimed: success exactly on Unicode scalar values, and the
/// character has that value.
#[verifier::external_body]
pub(crate) fn char_from_u32(cp: u32) -> (r: Option<char>)
    ensures
        r is Some <==> is_scalar(cp),
        r matches Some(c) ==> c as u32 == cp && c == cp as char,
{
    char::from_u32(cp)
}

/// Append the UTF-8 encoding of one character.
pub fn push_char(out: &mut Vec<u8>, c: char)
    ensures
        final(out)@ == old(out)@ + encode_scalar(c as u32),
{
    let v: u32 = c as u32;
    let last: u8 = 0x80u8 | ((v & 0x3F) as u8);
    if v <= 0x7F {
        out.push((v & 0x7F) as u8);
    } else if v <= 0x7FF {
        out.push(0xC0u8 | (((v >> 6) & 0x1F) as u8));
        out.push(last);
    } else if v <= 0xFFFF {
        out.push(0xE0u8 | (((v >> 12) & 0x0F) as u8));
        out.push(0x80u8 | (((v >> 6) & 0x3F) as u8));
        out.push(last);
    } else {
        out.push(0xF0u8 | (((v >> 18) & 0x7) as u8));
        out.push(0x80u8 | (((v >> 12) & 0x3F) as u8));
        out.push(0x80u8 | (((v >> 6) & 0x3F) as u8));
        out.push(last);
    }
    assert(out@ =~= old(out)@ + encode_scalar(c as u32));
}

proof fn lemma_encode_push(s: Seq<char>, c: char)
    ensures
        encode_utf8(s.push(c)) == encode_utf8(s) + encode_scalar(c as u32),
    decreases s.len(),
{
    reveal_with_fuel(encode_utf8, 2);
    if s.len() == 0 {
        assert(s.push(c).drop_first() =~= Seq::<char>::empty());
        assert(encode_utf8(s.push(c)) =~= encode_utf8(s) + encode_scalar(c as u32));
    } else {
        assert(s.push(c).drop_first() =~= s.drop_first().push(c));
        lemma_encode_push(s.drop_first(), c);
        assert(encode_utf8(s.push(c)) =~= encode_utf8(s) + encode_scalar(c as u32));
    }
}

/// The UTF-8 encoding of a run of code points.
pub fn encode(s: &[char]) -> (r: Vec<u8>)
    ensures
        r@ == encode_utf8(s@),
{
    let mut out: Vec<u8> = Vec::new();
    let mut i: usize = 0;
    assert(s@.subrange(0, 0) =~= Seq::<char>::empty());
    while i < s.len()
        invariant
            i <= s.len(),
            out@ == encode_utf8(s@.subrange(0, i as int)),
        decreases s.len() - i,
    {
        push_char(&mut out, s[i]);
        proof {
            lemma_encode_push(s@.subrange(0, i as int), s@[i as int]);
            assert(s@.subrange(0, i as int).push(s@[i as int]) =~= s@.subrange(0, i + 1));
        }
        i = i + 1;
    }
    assert(s@.subrange(0, s@.len() as int) =~= s@);
    out
}

/// Whether `b[i + k]` is there and is a continuation byte.
fn continues(b: &[u8], i: usize, k: usize) -> (r: bool)
    requires
        i < b@.len(),
    ensures
        r == (i + k < b@.len() && is_continuation_byte(b@[i + k])),
{
    k < b.len() - i && b[i + k] >= 0x80 && b[i + k] <= 0xbf
}

/// The first scalar of `b[i..]` and the number of bytes it takes, or `None`
/// where those bytes do not start a well-formed encoding.
fn first_scalar(b: &[u8], i: usize) -> (r: Option<(char, usize)>)
    requires
        i < b@.len(),
    ensures
        ({
            let s = b@.subrange(i as int, b@.len() as int);
            &&& r is Some <==> valid_first_scalar(s)
            &&& r matches Some(p) ==> {
                &&& p.0 == decode_first_scalar(s) as char
                &&& p.1 == length_of_first_scalar(s)
                &&& 1 <= p.1 <= b@.len() - i
            }
        }),
{
    let ghost s = b@.subrange(i as int, b@.len() as int);
    let b0: u8 = b[i];
    let cp: u32;
    let len: usize;
    if b0 <= 0x7f {
        cp = (b0 & 0x7F) as u32;
        len = 1;
    } else if b0 >= 0xc0 && b0 <= 0xdf {
        if !continues(b, i, 1) {
            return None;
        }
        cp = (((b0 & 0x1F) as u32) << 6) | ((b[i + 1] & 0x3f) as u32);
        len = 2;
        if cp < 0x80 {
            return None;
        }
    } else if b0 >= 0xe0 && b0 <= 0xef {
        if !continues(b, i, 1) || !continues(b, i, 2) {
            return None;
        }
        cp = (((b0 & 0x0F) as u32) << 12) | (((b[i + 1] & 0x3f) as u32) << 6) | ((b[i + 2]
            & 0x3f) as u32);
        len = 3;
        if cp < 0x800 || (cp >= 0xD800 && cp <= 0xDFFF) {
            return None;
        }
    } else if b0 >= 0xf0 && b0 <= 0xf7 {
        if !continues(b, i, 1) || !continues(b, i, 2) || !continues(b, i, 3) {
            return None;
        }
        cp = (((b0 & 0x07) as u32) << 18) | (((b[i + 1] & 0x3f) as u32) << 12) | (((b[i + 2]
            & 0x3f) as u32) << 6) | ((b[i + 3] & 0x3f) as u32);
        len = 4;
        if cp < 0x10000 || cp > 0x10ffff {
            return None;
        }
    } else {
        return None;
    }
    assert(cp == decode_first_codepoint(s));
    assert(len == 1 ==> cp < 0x80) by {
        assert((b0 & 0x7F) < 0x80) by (bit_vector);
    }
    assert(len == 2 ==> cp < 0x800) by {
        if len == 2 {
            let b1 = b@[i + 1];
            assert(((((b0 & 0x1F) as u32) << 6) | ((b1 & 0x3f) as u32)) < 0x800) by (bit_vector);
        }
    }
    assert(len == 3 ==> cp <= 0xffff) by {
        if len == 3 {
            let b1 = b@[i + 1];
            let b2 = b@[i + 2];
            assert(((((b0 & 0x0F) as u32) << 12) | (((b1 & 0x3f) as u32) << 6) | ((b2
                & 0x3f) as u32)) <= 0xffff) by (bit_vector);
        }
    }
    match char_from_u32(cp) {
        Some(c) => Some((c, len)),
        None => None,
    }
}

/// Decode UTF-8, or `None` where the bytes are not valid UTF-8.
pub fn decode(b: &[u8]) -> (r: Option<Vec<char>>)
    ensures
        r is Some <==> valid_utf8(b@),
        r matches Some(v) ==> v@ == decode_utf8(b@),
{
    let mut out: Vec<char> = Vec::new();
    let mut i: usize = 0;
    assert(b@.subrange(0, b@.len() as int) =~= b@);
    while i < b.len()
        invariant
            i <= b@.len(),
            valid_utf8(b@) <==> valid_utf8(b@.subrange(i as int, b@.len() as int)),
            valid_utf8(b@) ==> decode_utf8(b@) == out@ + decode_utf8(
                b@.subrange(i as int, b@.len() as int),
            ),
        decreases b.len() - i,
    {
        let ghost s = b@.subrange(i as int, b@.len() as int);
        match first_scalar(b, i) {
            None => {
                return None;
            },
            Some(p) => {
                out.push(p.0);
                i = i + p.1;
                assert(pop_first_scalar(s) =~= b@.subrange(i as int, b@.len() as int));
                proof {
                    if valid_utf8(b@) {
                        assert(decode_utf8(s) == seq![decode_first_scalar(s) as char] + decode_utf8(
                            pop_first_scalar(s),
                        ));
                        assert(decode_utf8(b@) =~= out@ + decode_utf8(
                            b@.subrange(i as int, b@.len() as int),
                        ));
                    }
                }
            },
        }
    }
    assert(b@.subrange(b@.len() as int, b@.len() as int) =~= Seq::<u8>::empty());
    assert(valid_utf8(b@) ==> out@ =~= decode_utf8(b@));
    Some(out)
}

} // verus!
