//! `PyUnicode_*` (str), `PyBytes_*` and `PyByteArray_*`.
//!
//! A NULL object pointer is `None`; an object argument is the value that the
//! pointer resolves to. Raw character buffers come as byte slices.

use vstd::prelude::*;
use vstd::utf8::*;
use crate::errors;
use crate::errors::{raise, raise_str, ExcKind, Failure};
use crate::freeing;
use crate::heap::Heap;
use crate::object::Py_DecRef;
use crate::search;
use crate::search::{find, join, lines, occurs, push_piece, replacen, rfind, splitn};
use crate::text;
use crate::text::{push_all, push_dec, push_str, same, slice_of};
use crate::utf8::{char_from_u32, decode, encode};
use crate::value::{Native, Object};

verus! {

/// The characters with the Unicode `White_Space` property.
pub open spec fn char_is_whitespace(c: char) -> bool {
    let n = c as u32;
    ||| 0x9 <= n <= 0xd
    ||| n == 0x20
    ||| n == 0x85
    ||| n == 0xa0
    ||| n == 0x1680
    ||| 0x2000 <= n <= 0x200a
    ||| n == 0x2028
    ||| n == 0x2029
    ||| n == 0x202f
    ||| n == 0x205f
    ||| n == 0x3000
}

/// Whether a character has the Unicode `Alphabetic` property, as
/// `char::is_alphabetic` answers it.
pub uninterp spec fn char_is_alphabetic(c: char) -> bool;

/// Whether a character is alphabetic or numeric, as `char::is_alphanumeric`
/// answers it.
pub uninterp spec fn char_is_alphanumeric(c: char) -> bool;

/// `char::is_whitespace`. Claimed: it is true of the characters with the `White_Space`
/// property and of no others.
#[verifier::external_body]
fn is_whitespace(c: char) -> (r: bool)
    ensures
        r == char_is_whitespace(c),
{
    c.is_whitespace()
}

/// `char::is_alphabetic`. Claimed: the answer depends on the character alone.
#[verifier::external_body]
fn is_alphabetic(c: char) -> (r: bool)
    ensures
        r == char_is_alphabetic(c),
{
    c.is_alphabetic()
}

/// `char::is_alphanumeric`. Claimed: the answer depends on the character alone.
#[verifier::external_body]
fn is_alphanumeric(c: char) -> (r: bool)
    ensures
        r == char_is_alphanumeric(c),
{
    c.is_alphanumeric()
}

// ----------------------------------------------------------------
// Shared readings of an argument.
// ----------------------------------------------------------------

/// What UTF-8 bytes decode to; nothing at all where they are not valid UTF-8.
pub open spec fn decoded(b: Seq<u8>) -> Seq<char> {
    if valid_utf8(b) {
        decode_utf8(b)
    } else {
        Seq::empty()
    }
}

fn decode_or_empty(b: &[u8]) -> (r: Vec<char>)
    ensures
        r@ == decoded(b@),
{
    match decode(b) {
        Some(v) => v,
        None => Vec::new(),
    }
}

/// A signed size, with negative values read as zero.
pub open spec fn size_of(n: isize) -> int {
    if n < 0 {
        0
    } else {
        n as int
    }
}

fn clamp_size(n: isize) -> (r: usize)
    ensures
        r == size_of(n),
{
    if n < 0 {
        0
    } else {
        n as usize
    }
}

/// The argument is a `str`.
pub open spec fn is_str(o: Option<&Object>) -> bool {
    o matches Some(x) && x is Str
}

/// The code points of a `str` argument.
pub open spec fn str_of(o: Option<&Object>) -> Seq<char> {
    o->0->Str_0@
}

/// A copy of a byte slice.
fn copy_bytes(b: &[u8]) -> (r: Vec<u8>)
    ensures
        r@ == b@,
{
    let mut out: Vec<u8> = Vec::new();
    push_bytes(&mut out, b);
    assert(out@ =~= b@);
    out
}

/// Append bytes.
pub fn push_bytes(out: &mut Vec<u8>, b: &[u8])
    ensures
        final(out)@ == old(out)@ + b@,
{
    let mut i: usize = 0;
    while i < b.len()
        invariant
            i <= b.len(),
            out@ == old(out)@ + b@.subrange(0, i as int),
        decreases b.len() - i,
    {
        out.push(b[i]);
        i = i + 1;
        assert(out@ =~= old(out)@ + b@.subrange(0, i as int));
    }
    assert(b@.subrange(0, b@.len() as int) =~= b@);
}

/// The first `n` bytes of a buffer.
fn prefix(b: &[u8], n: usize) -> (r: Vec<u8>)
    requires
        n <= b@.len(),
    ensures
        r@ == b@.subrange(0, n as int),
{
    let mut out: Vec<u8> = Vec::new();
    let mut i: usize = 0;
    while i < n
        invariant
            i <= n <= b@.len(),
            out@ == b@.subrange(0, i as int),
        decreases n - i,
    {
        out.push(b[i]);
        i = i + 1;
        assert(out@ =~= b@.subrange(0, i as int));
    }
    out
}

fn zeros(n: usize) -> (r: Vec<u8>)
    ensures
        r@ == Seq::new(n as nat, |i: int| 0u8),
{
    let mut out: Vec<u8> = Vec::new();
    let mut i: usize = 0;
    while i < n
        invariant
            i <= n,
            out@ == Seq::new(i as nat, |k: int| 0u8),
        decreases n - i,
    {
        out.push(0);
        i = i + 1;
        assert(out@ =~= Seq::new(i as nat, |k: int| 0u8));
    }
    out
}

fn same_bytes(a: &[u8], b: &[u8]) -> (r: bool)
    ensures
        r == (a@ == b@),
{
    if a.len() != b.len() {
        return false;
    }
    let mut i: usize = 0;
    while i < a.len()
        invariant
            i <= a.len(),
            a.len() == b.len(),
            forall|k: int| 0 <= k < i ==> a@[k] == b@[k],
        decreases a.len() - i,
    {
        if a[i] != b[i] {
            return false;
        }
        i = i + 1;
    }
    assert(a@ =~= b@);
    true
}

// ----------------------------------------------------------------
// PyUnicode: construction and UTF-8.
// ----------------------------------------------------------------

/// A str from a NUL-terminated UTF-8 buffer (given without its NUL). Invalid
/// UTF-8 gives the empty string.
pub fn PyUnicode_FromString(s: Option<&[u8]>) -> (r: Result<Vec<char>, Failure>)
    ensures
        match s {
            None => errors::silent(r),
            Some(b) => r is Ok && r->Ok_0@ == decoded(b@),
        },
{
    match s {
        None => Err(Failure::Silent),
        Some(b) => Ok(decode_or_empty(b)),
    }
}

/// A str from the first `n` bytes of a buffer; a NULL buffer is only good for
/// `n == 0`.
pub fn PyUnicode_FromStringAndSize(s: Option<&[u8]>, n: isize) -> (r: Result<Vec<char>, Failure>)
    requires
        s matches Some(b) ==> size_of(n) <= b@.len(),
    ensures
        match s {
            None => if n != 0 {
                errors::silent(r)
            } else {
                r is Ok && r->Ok_0@ == Seq::<char>::empty()
            },
            Some(b) => r is Ok && r->Ok_0@ == decoded(b@.subrange(0, size_of(n))),
        },
{
    match s {
        None => {
            if n != 0 {
                Err(Failure::Silent)
            } else {
                Ok(Vec::new())
            }
        },
        Some(b) => Ok(decode_or_empty(prefix(b, clamp_size(n)).as_slice())),
    }
}

/// A str from UTF-8; the error handler is not consulted.
pub fn PyUnicode_DecodeUTF8(s: Option<&[u8]>, n: isize) -> (r: Result<Vec<char>, Failure>)
    requires
        s matches Some(b) ==> size_of(n) <= b@.len(),
    ensures
        match s {
            None => if n != 0 {
                errors::silent(r)
            } else {
                r is Ok && r->Ok_0@ == Seq::<char>::empty()
            },
            Some(b) => r is Ok && r->Ok_0@ == decoded(b@.subrange(0, size_of(n))),
        },
{
    PyUnicode_FromStringAndSize(s, n)
}

/// A str from ASCII, which is read as UTF-8; the error handler is not consulted.
pub fn PyUnicode_DecodeASCII(s: Option<&[u8]>, n: isize) -> (r: Result<Vec<char>, Failure>)
    requires
        s matches Some(b) ==> size_of(n) <= b@.len(),
    ensures
        match s {
            None => if n != 0 {
                errors::silent(r)
            } else {
                r is Ok && r->Ok_0@ == Seq::<char>::empty()
            },
            Some(b) => r is Ok && r->Ok_0@ == decoded(b@.subrange(0, size_of(n))),
        },
{
    PyUnicode_FromStringAndSize(s, n)
}

/// A str from the encoding of file names, which is UTF-8.
pub fn PyUnicode_DecodeFSDefaultAndSize(s: Option<&[u8]>, n: isize) -> (r: Result<Vec<char>, Failure>)
    requires
        s matches Some(b) ==> size_of(n) <= b@.len(),
    ensures
        match s {
            None => if n != 0 {
                errors::silent(r)
            } else {
                r is Ok && r->Ok_0@ == Seq::<char>::empty()
            },
            Some(b) => r is Ok && r->Ok_0@ == decoded(b@.subrange(0, size_of(n))),
        },
{
    PyUnicode_FromStringAndSize(s, n)
}

/// A str from the encoding of file names, which is UTF-8.
pub fn PyUnicode_DecodeFSDefault(s: Option<&[u8]>) -> (r: Result<Vec<char>, Failure>)
    ensures
        match s {
            None => errors::silent(r),
            Some(b) => r is Ok && r->Ok_0@ == decoded(b@),
        },
{
    PyUnicode_FromString(s)
}

/// A str from a C string; equal texts need not be one object.
pub fn PyUnicode_InternFromString(s: Option<&[u8]>) -> (r: Result<Vec<char>, Failure>)
    ensures
        match s {
            None => errors::silent(r),
            Some(b) => r is Ok && r->Ok_0@ == decoded(b@),
        },
{
    PyUnicode_FromString(s)
}

/// The NUL-terminated UTF-8 form of a str.
pub fn PyUnicode_AsUTF8(o: Option<&Object>) -> (r: Result<Vec<u8>, Failure>)
    ensures
        o is None ==> errors::silent(r),
        is_str(o) ==> r is Ok && r->Ok_0@ == encode_utf8(str_of(o)).push(0),
        o is Some && !is_str(o) ==> errors::raises(r, ExcKind::TypeError, "expected str"@),
{
    match o {
        None => Err(Failure::Silent),
        Some(Object::Str(s)) => {
            let mut b: Vec<u8> = encode(s.as_slice());
            b.push(0);
            Ok(b)
        },
        _ => Err(raise_str(ExcKind::TypeError, "expected str")),
    }
}

/// The index of the first zero byte at or after `i`.
pub open spec fn nul_from(b: Seq<u8>, i: int) -> int
    decreases b.len() - i,
{
    if i < 0 || i >= b.len() || b[i] == 0 {
        i
    } else {
        nul_from(b, i + 1)
    }
}

/// The length of a C string: the index of its first NUL.
fn libc_strlen(b: &[u8]) -> (r: usize)
    ensures
        r == nul_from(b@, 0),
        r <= b@.len(),
{
    let mut n: usize = 0;
    while n < b.len() && b[n] != 0
        invariant
            n <= b@.len(),
            nul_from(b@, 0) == nul_from(b@, n as int),
        decreases b.len() - n,
    {
        n = n + 1;
    }
    n
}

/// The UTF-8 form of a str with its length, which stops at the first NUL.
pub fn PyUnicode_AsUTF8AndSize(o: Option<&Object>) -> (r: Result<(Vec<u8>, usize), Failure>)
    ensures
        o is None ==> errors::silent(r),
        is_str(o) ==> r is Ok && r->Ok_0.0@ == encode_utf8(str_of(o)).push(0) && r->Ok_0.1
            == nul_from(encode_utf8(str_of(o)).push(0), 0),
        o is Some && !is_str(o) ==> errors::raises(r, ExcKind::TypeError, "expected str"@),
{
    match PyUnicode_AsUTF8(o) {
        Ok(b) => {
            let n: usize = libc_strlen(b.as_slice());
            Ok((b, n))
        },
        Err(e) => Err(e),
    }
}

/// The number of code points of a str.
pub fn PyUnicode_GetLength(o: Option<&Object>) -> (r: Result<usize, Failure>)
    ensures
        o is None ==> errors::silent(r),
        is_str(o) ==> r is Ok && r->Ok_0 == str_of(o).len(),
        o is Some && !is_str(o) ==> errors::raises(r, ExcKind::TypeError, "expected str"@),
{
    match o {
        None => Err(Failure::Silent),
        Some(Object::Str(s)) => Ok(s.len()),
        _ => Err(raise_str(ExcKind::TypeError, "expected str")),
    }
}

/// Two strs, one after the other.
pub fn PyUnicode_Concat(a: Option<&Object>, b: Option<&Object>) -> (r: Result<Vec<char>, Failure>)
    ensures
        a is None || b is None ==> errors::silent(r),
        is_str(a) && is_str(b) ==> r is Ok && r->Ok_0@ == str_of(a) + str_of(b),
        a is Some && b is Some && !(is_str(a) && is_str(b)) ==> errors::raises(
            r,
            ExcKind::TypeError,
            "PyUnicode_Concat: expected str"@,
        ),
{
    match (a, b) {
        (Some(Object::Str(x)), Some(Object::Str(y))) => {
            let mut out: Vec<char> = slice_of(x.as_slice(), 0, x.len());
            push_all(&mut out, y.as_slice());
            assert(out@ =~= x@ + y@);
            Ok(out)
        },
        (Some(_), Some(_)) => Err(
            raise_str(ExcKind::TypeError, "PyUnicode_Concat: expected str"),
        ),
        _ => Err(Failure::Silent),
    }
}

/// Whether the argument is a str.
pub fn PyUnicode_Check(o: Option<&Object>) -> (r: bool)
    ensures
        r == is_str(o),
{
    match o {
        Some(Object::Str(_)) => true,
        _ => false,
    }
}

/// The UTF-8 bytes of a str.
pub fn PyUnicode_AsUTF8String(o: Option<&Object>) -> (r: Result<Vec<u8>, Failure>)
    ensures
        o is None ==> errors::silent(r),
        is_str(o) ==> r is Ok && r->Ok_0@ == encode_utf8(str_of(o)),
        o is Some && !is_str(o) ==> errors::raises(r, ExcKind::TypeError, "expected str"@),
{
    match o {
        None => Err(Failure::Silent),
        Some(Object::Str(s)) => Ok(encode(s.as_slice())),
        _ => Err(raise_str(ExcKind::TypeError, "expected str")),
    }
}

/// The UTF-8 of a str, which is its ASCII where it has one.
pub fn PyUnicode_AsASCIIString(o: Option<&Object>) -> (r: Result<Vec<u8>, Failure>)
    ensures
        o is None ==> errors::silent(r),
        is_str(o) ==> r is Ok && r->Ok_0@ == encode_utf8(str_of(o)),
        o is Some && !is_str(o) ==> errors::raises(r, ExcKind::TypeError, "expected str"@),
{
    PyUnicode_AsUTF8String(o)
}

/// The encoding of file names is UTF-8.
pub fn PyUnicode_EncodeFSDefault(o: Option<&Object>) -> (r: Result<Vec<u8>, Failure>)
    ensures
        o is None ==> errors::silent(r),
        is_str(o) ==> r is Ok && r->Ok_0@ == encode_utf8(str_of(o)),
        o is Some && !is_str(o) ==> errors::raises(r, ExcKind::TypeError, "expected str"@),
{
    PyUnicode_AsUTF8String(o)
}

/// Every encoding is UTF-8.
pub fn PyUnicode_AsEncodedString(o: Option<&Object>) -> (r: Result<Vec<u8>, Failure>)
    ensures
        o is None ==> errors::silent(r),
        is_str(o) ==> r is Ok && r->Ok_0@ == encode_utf8(str_of(o)),
        o is Some && !is_str(o) ==> errors::raises(r, ExcKind::TypeError, "expected str"@),
{
    PyUnicode_AsUTF8String(o)
}

/// The Latin-1 byte for a character; `?` where there is none.
pub open spec fn latin1_byte(c: char) -> u8 {
    if (c as u32) < 256 {
        (c as u32) as u8
    } else {
        63
    }
}

/// The Latin-1 bytes of a str, with `?` for what Latin-1 lacks.
pub fn PyUnicode_AsLatin1String(o: Option<&Object>) -> (r: Result<Vec<u8>, Failure>)
    ensures
        o is None ==> errors::silent(r),
        is_str(o) ==> r is Ok && r->Ok_0@ == str_of(o).map_values(|c: char| latin1_byte(c)),
        o is Some && !is_str(o) ==> errors::raises(r, ExcKind::TypeError, "expected str"@),
{
    match o {
        None => Err(Failure::Silent),
        Some(Object::Str(s)) => {
            let mut out: Vec<u8> = Vec::new();
            let mut i: usize = 0;
            while i < s.len()
                invariant
                    i <= s.len(),
                    out@ == s@.subrange(0, i as int).map_values(|c: char| latin1_byte(c)),
                decreases s.len() - i,
            {
                let v: u32 = s[i] as u32;
                let b: u8 = if v < 256 {
                    v as u8
                } else {
                    63u8
                };
                out.push(b);
                i = i + 1;
                assert(out@ =~= s@.subrange(0, i as int).map_values(|c: char| latin1_byte(c)));
            }
            assert(s@.subrange(0, s@.len() as int) =~= s@);
            Ok(out)
        },
        _ => Err(raise_str(ExcKind::TypeError, "expected str")),
    }
}

/// A one-character str from an ordinal.
pub fn PyUnicode_FromOrdinal(ord: i32) -> (r: Result<Vec<char>, Failure>)
    ensures
        ord >= 0 && is_scalar(ord as u32) ==> r is Ok && r->Ok_0@ == seq![ord as char],
        !(ord >= 0 && is_scalar(ord as u32)) ==> errors::raises(
            r,
            ExcKind::ValueError,
            "ordinal out of range for chr()"@,
        ),
{
    if ord >= 0 {
        match char_from_u32(ord as u32) {
            Some(c) => {
                let mut out: Vec<char> = Vec::new();
                out.push(c);
                assert(out@ =~= seq![ord as char]);
                return Ok(out);
            },
            None => {},
        }
    }
    Err(raise_str(ExcKind::ValueError, "ordinal out of range for chr()"))
}

/// Decode the first `size` bytes as UTF-8, whatever the encoding's name.
pub fn PyUnicode_Decode(s: Option<&[u8]>, size: isize) -> (r: Result<Vec<char>, Failure>)
    requires
        s matches Some(b) ==> size_of(size) <= b@.len(),
    ensures
        match s {
            None => if size != 0 {
                errors::silent(r)
            } else {
                r is Ok && r->Ok_0@ == Seq::<char>::empty()
            },
            Some(b) => r is Ok && r->Ok_0@ == decoded(b@.subrange(0, size_of(size))),
        },
{
    PyUnicode_FromStringAndSize(s, size)
}

/// Decode the first `size` bytes as Latin-1: each byte is a code point.
pub fn PyUnicode_DecodeLatin1(s: Option<&[u8]>, size: isize) -> (r: Result<Vec<char>, Failure>)
    requires
        s matches Some(b) ==> size_of(size) <= b@.len(),
    ensures
        match s {
            None => if size != 0 {
                errors::silent(r)
            } else {
                r is Ok && r->Ok_0@ == Seq::<char>::empty()
            },
            Some(b) => r is Ok && r->Ok_0@ == b@.subrange(0, size_of(size)).map_values(
                |x: u8| x as char,
            ),
        },
{
    match s {
        None => {
            if size != 0 {
                Err(Failure::Silent)
            } else {
                Ok(Vec::new())
            }
        },
        Some(b) => {
            let n: usize = clamp_size(size);
            let mut out: Vec<char> = Vec::new();
            let mut i: usize = 0;
            while i < n
                invariant
                    i <= n <= b@.len(),
                    out@ == b@.subrange(0, i as int).map_values(|x: u8| x as char),
                decreases n - i,
            {
                out.push(b[i] as char);
                i = i + 1;
                assert(out@ =~= b@.subrange(0, i as int).map_values(|x: u8| x as char));
            }
            Ok(out)
        },
    }
}

/// What an encoded object decodes to.
#[derive(Debug)]
pub enum Decoded {
    /// The argument itself, with one more reference.
    Same,
    /// A new str.
    New(Vec<char>),
}

/// Decode a bytes-like object. `buffer` is what the buffer protocol exports
/// for an object that is neither str, bytes nor bytearray.
pub fn PyUnicode_FromEncodedObject(o: Option<&Object>, buffer: Option<&[u8]>) -> (r: Result<
    Decoded,
    Failure,
>)
    ensures
        match o {
            None => errors::silent(r),
            Some(Object::Str(_)) => r is Ok && r->Ok_0 is Same,
            Some(Object::Bytes(b)) => r is Ok && r->Ok_0 is New && r->Ok_0->New_0@ == decoded(b@),
            Some(Object::ByteArray(b)) => r is Ok && r->Ok_0 is New && r->Ok_0->New_0@ == decoded(
                b@,
            ),
            _ => match buffer {
                None => errors::raises(
                    r,
                    ExcKind::TypeError,
                    "decoding to str: need a bytes-like object"@,
                ),
                Some(b) => r is Ok && r->Ok_0 is New && r->Ok_0->New_0@ == decoded(b@),
            },
        },
{
    match o {
        None => Err(Failure::Silent),
        Some(Object::Str(_)) => Ok(Decoded::Same),
        Some(Object::Bytes(b)) => Ok(Decoded::New(decode_or_empty(b.as_slice()))),
        Some(Object::ByteArray(b)) => Ok(Decoded::New(decode_or_empty(b.as_slice()))),
        _ => match buffer {
            None => Err(
                raise_str(ExcKind::TypeError, "decoding to str: need a bytes-like object"),
            ),
            Some(b) => Ok(Decoded::New(decode_or_empty(b))),
        },
    }
}

/// The character for a code unit, or U+FFFD where it is not a scalar value.
pub open spec fn scalar_or_replacement(cp: u32) -> char {
    if is_scalar(cp) {
        cp as char
    } else {
        '\u{FFFD}'
    }
}

/// A str from code units of the width that `kind` names: 2 and 4 are UCS-2
/// and UCS-4, anything else is Latin-1. `units` holds the units read at that
/// width.
pub fn PyUnicode_FromKindAndData(units: Option<&[u32]>, size: isize) -> (r: Vec<char>)
    requires
        units matches Some(u) ==> size_of(size) <= u@.len(),
    ensures
        match units {
            None => r@ == Seq::<char>::empty(),
            Some(u) => r@ == u@.subrange(0, size_of(size)).map_values(
                |x: u32| scalar_or_replacement(x),
            ),
        },
{
    let mut out: Vec<char> = Vec::new();
    match units {
        None => {},
        Some(u) => {
            let n: usize = clamp_size(size);
            let mut i: usize = 0;
            assert(u@.subrange(0, 0).map_values(|x: u32| scalar_or_replacement(x)) =~= Seq::<
                char,
            >::empty());
            while i < n
                invariant
                    i <= n <= u@.len(),
                    out@ == u@.subrange(0, i as int).map_values(|x: u32| scalar_or_replacement(x)),
                decreases n - i,
            {
                let c: char = match char_from_u32(u[i]) {
                    Some(c) => c,
                    None => '\u{FFFD}',
                };
                out.push(c);
                i = i + 1;
                assert(out@ =~= u@.subrange(0, i as int).map_values(
                    |x: u32| scalar_or_replacement(x),
                ));
            }
        },
    }
    out
}

// ----------------------------------------------------------------
// PyUnicode: reading and comparing.
// ----------------------------------------------------------------

/// The smaller of two integers.
pub open spec fn least(a: int, b: int) -> int {
    if a < b {
        a
    } else {
        b
    }
}

/// The code points from `start` up to `end`, both clamped to the str.
pub fn PyUnicode_Substring(o: Option<&Object>, start: isize, end: isize) -> (r: Result<
    Vec<char>,
    Failure,
>)
    ensures
        o is None ==> errors::silent(r),
        is_str(o) ==> ({
            let e = least(size_of(end), str_of(o).len() as int);
            r is Ok && r->Ok_0@ == str_of(o).subrange(least(size_of(start), e), e)
        }),
        o is Some && !is_str(o) ==> errors::raises(
            r,
            ExcKind::TypeError,
            "PyUnicode_Substring: expected str"@,
        ),
{
    match o {
        None => Err(Failure::Silent),
        Some(Object::Str(s)) => {
            let mut e: usize = clamp_size(end);
            if e > s.len() {
                e = s.len();
            }
            let mut b: usize = clamp_size(start);
            if b > e {
                b = e;
            }
            Ok(slice_of(s.as_slice(), b, e))
        },
        _ => Err(raise_str(ExcKind::TypeError, "PyUnicode_Substring: expected str")),
    }
}

/// One code point. `fast` is what a buffer-authoritative body reads at that
/// index.
pub fn PyUnicode_ReadChar(o: Option<&Object>, idx: isize, fast: Option<u32>) -> (r: Result<
    u32,
    Failure,
>)
    ensures
        o is None ==> errors::silent(r),
        o is Some && idx >= 0 && fast is Some ==> r is Ok && r->Ok_0 == fast->0,
        o is Some && !(idx >= 0 && fast is Some) && is_str(o) ==> if size_of(idx) < str_of(
            o,
        ).len() {
            r is Ok && r->Ok_0 == str_of(o)[size_of(idx)] as u32
        } else {
            errors::raises(r, ExcKind::ValueError, "string index out of range"@)
        },
        o is Some && !(idx >= 0 && fast is Some) && !is_str(o) ==> errors::raises(
            r,
            ExcKind::TypeError,
            "expected str"@,
        ),
{
    match o {
        None => Err(Failure::Silent),
        Some(x) => {
            if idx >= 0 {
                if let Some(cp) = fast {
                    return Ok(cp);
                }
            }
            match x {
                Object::Str(s) => {
                    let i: usize = clamp_size(idx);
                    if i < s.len() {
                        Ok(s[i] as u32)
                    } else {
                        Err(raise_str(ExcKind::ValueError, "string index out of range"))
                    }
                },
                _ => Err(raise_str(ExcKind::TypeError, "expected str")),
            }
        },
    }
}

/// Lexicographic order of byte strings: -1, 0 or 1.
pub open spec fn lex(a: Seq<u8>, b: Seq<u8>) -> int
    decreases a.len(),
{
    if a.len() == 0 {
        if b.len() == 0 {
            0
        } else {
            -1
        }
    } else if b.len() == 0 {
        1
    } else if a[0] < b[0] {
        -1
    } else if a[0] > b[0] {
        1
    } else {
        lex(a.drop_first(), b.drop_first())
    }
}

fn order_bytes(a: &[u8], b: &[u8]) -> (r: i32)
    ensures
        r == lex(a@, b@),
{
    let mut i: usize = 0;
    assert(a@.subrange(0, a@.len() as int) =~= a@);
    assert(b@.subrange(0, b@.len() as int) =~= b@);
    while i < a.len() && i < b.len()
        invariant
            i <= a@.len(),
            i <= b@.len(),
            lex(a@, b@) == lex(
                a@.subrange(i as int, a@.len() as int),
                b@.subrange(i as int, b@.len() as int),
            ),
        decreases a.len() - i,
    {
        if a[i] < b[i] {
            return -1;
        }
        if a[i] > b[i] {
            return 1;
        }
        assert(a@.subrange(i as int, a@.len() as int).drop_first() =~= a@.subrange(
            i + 1,
            a@.len() as int,
        ));
        assert(b@.subrange(i as int, b@.len() as int).drop_first() =~= b@.subrange(
            i + 1,
            b@.len() as int,
        ));
        i = i + 1;
    }
    if i < b.len() {
        -1
    } else if i < a.len() {
        1
    } else {
        0
    }
}

/// Compare a str's UTF-8 form with a byte string.
pub fn PyUnicode_CompareWithASCIIString(o: Option<&Object>, s: Option<&[u8]>) -> (r: i32)
    ensures
        r == (if is_str(o) && s is Some {
            lex(encode_utf8(str_of(o)), s->0@)
        } else {
            -1
        }),
{
    match (o, s) {
        (Some(Object::Str(x)), Some(b)) => order_bytes(encode(x.as_slice()).as_slice(), b),
        _ => -1,
    }
}

/// Compare two strs: -1, 0 or 1. A NULL argument fails without an exception.
pub fn PyUnicode_Compare(a: Option<&Object>, b: Option<&Object>) -> (r: Result<i32, Failure>)
    ensures
        a is None || b is None ==> errors::silent(r),
        is_str(a) && is_str(b) ==> r is Ok && r->Ok_0 == lex(
            encode_utf8(str_of(a)),
            encode_utf8(str_of(b)),
        ),
        a is Some && b is Some && !(is_str(a) && is_str(b)) ==> errors::raises(
            r,
            ExcKind::TypeError,
            "PyUnicode_Compare: expected str"@,
        ),
{
    match (a, b) {
        (Some(Object::Str(x)), Some(Object::Str(y))) => Ok(
            order_bytes(encode(x.as_slice()).as_slice(), encode(y.as_slice()).as_slice()),
        ),
        (Some(_), Some(_)) => Err(
            raise_str(ExcKind::TypeError, "PyUnicode_Compare: expected str"),
        ),
        _ => Err(Failure::Silent),
    }
}

/// The rich comparison `op` (`<`, `<=`, `==`, `!=`, `>`, `>=` for 0 to 5) on
/// the outcome of a three-way comparison.
pub open spec fn rich(c: int, op: i32) -> bool {
    if op == 0 {
        c < 0
    } else if op == 1 {
        c <= 0
    } else if op == 2 {
        c == 0
    } else if op == 3 {
        c != 0
    } else if op == 4 {
        c > 0
    } else if op == 5 {
        c >= 0
    } else {
        false
    }
}

/// Rich comparison of two strs. `pending` says whether an exception was set
/// before the call: a -1 then counts as a failure.
pub fn PyUnicode_RichCompare(
    a: Option<&Object>,
    b: Option<&Object>,
    op: i32,
    pending: bool,
) -> (r: Result<bool, Failure>)
    ensures
        a is Some && b is Some && !(is_str(a) && is_str(b)) ==> errors::raises(
            r,
            ExcKind::TypeError,
            "PyUnicode_Compare: expected str"@,
        ),
        a is None || b is None || (is_str(a) && is_str(b)) ==> ({
            let c = if is_str(a) && is_str(b) {
                lex(encode_utf8(str_of(a)), encode_utf8(str_of(b)))
            } else {
                -1
            };
            if c == -1 && pending {
                errors::silent(r)
            } else {
                r is Ok && r->Ok_0 == rich(c, op)
            }
        }),
{
    let c: i32 = match PyUnicode_Compare(a, b) {
        Ok(c) => c,
        Err(Failure::Silent) => -1,
        Err(Failure::Raised(e)) => {
            return Err(Failure::Raised(e));
        },
    };
    if c == -1 && pending {
        return Err(Failure::Silent);
    }
    Ok(
        match op {
            0 => c < 0,
            1 => c <= 0,
            2 => c == 0,
            3 => c != 0,
            4 => c > 0,
            5 => c >= 0,
            _ => false,
        },
    )
}

/// Whether a str equals a decoded C string.
pub fn PyUnicode_EqualToUTF8(o: Option<&Object>, want: Option<&[char]>) -> (r: bool)
    ensures
        r == (is_str(o) && want is Some && str_of(o) == want->0@),
{
    match (o, want) {
        (Some(Object::Str(s)), Some(w)) => same(s.as_slice(), w),
        _ => false,
    }
}

/// Whether a str's UTF-8 form is the first `n` bytes of a buffer.
pub fn PyUnicode_EqualToUTF8AndSize(o: Option<&Object>, s: Option<&[u8]>, n: isize) -> (r: bool)
    requires
        s matches Some(b) ==> size_of(n) <= b@.len(),
    ensures
        r == (is_str(o) && s is Some && encode_utf8(str_of(o)) == s->0@.subrange(0, size_of(n))),
{
    match (o, s) {
        (Some(Object::Str(x)), Some(b)) => same_bytes(
            encode(x.as_slice()).as_slice(),
            prefix(b, clamp_size(n)).as_slice(),
        ),
        _ => false,
    }
}

/// Whether `needle` occurs in `haystack`.
pub fn PyUnicode_Contains(haystack: Option<&Object>, needle: Option<&Object>) -> (r: Result<
    bool,
    Failure,
>)
    ensures
        haystack is None || needle is None ==> errors::silent(r),
        is_str(haystack) && is_str(needle) ==> r is Ok && r->Ok_0 == (exists|i: int|
            search::occurs_at(str_of(haystack), str_of(needle), i)),
        haystack is Some && needle is Some && !(is_str(haystack) && is_str(needle)) ==> errors::raises(
            r,
            ExcKind::TypeError,
            "PyUnicode_Contains: expected str"@,
        ),
{
    match (haystack, needle) {
        (Some(Object::Str(h)), Some(Object::Str(n))) => {
            proof {
                search::law_find_is_least(h@, n@, 0);
                assert(forall|j: int| search::occurs_at(h@, n@, j) ==> 0 <= j);
            }
            match find(h.as_slice(), n.as_slice(), 0) {
                Some(i) => {
                    assert(search::occurs_at(str_of(haystack), str_of(needle), i as int));
                    Ok(true)
                },
                None => {
                    assert(forall|j: int|
                        !search::occurs_at(str_of(haystack), str_of(needle), j));
                    Ok(false)
                },
            }
        },
        (Some(_), Some(_)) => Err(
            raise_str(ExcKind::TypeError, "PyUnicode_Contains: expected str"),
        ),
        _ => Err(Failure::Silent),
    }
}

/// An identifier starts with a letter or underscore and goes on with letters,
/// digits and underscores.
pub open spec fn identifier(s: Seq<char>) -> bool {
    &&& s.len() > 0
    &&& char_is_alphabetic(s[0]) || s[0] == '_'
    &&& forall|i: int| 1 <= i < s.len() ==> char_is_alphanumeric(#[trigger] s[i]) || s[i] == '_'
}

/// Whether a str is an identifier.
pub fn PyUnicode_IsIdentifier(o: Option<&Object>) -> (r: bool)
    ensures
        r == (is_str(o) && identifier(str_of(o))),
{
    match o {
        Some(Object::Str(s)) => {
            if s.len() == 0 {
                return false;
            }
            if !is_alphabetic(s[0]) && s[0] != '_' {
                return false;
            }
            let mut i: usize = 1;
            while i < s.len()
                invariant
                    1 <= i <= s.len(),
                    is_str(o),
                    str_of(o) == s@,
                    forall|k: int|
                        1 <= k < i ==> char_is_alphanumeric(#[trigger] s@[k]) || s@[k] == '_',
                decreases s.len() - i,
            {
                if !is_alphanumeric(s[i]) && s[i] != '_' {
                    return false;
                }
                i = i + 1;
            }
            true
        },
        _ => false,
    }
}

/// The part of `h` from `start` up to `end`, both clamped.
pub open spec fn window(h: Seq<char>, start: int, end: int) -> Seq<char> {
    let e = least(end, h.len() as int);
    if start <= e {
        h.subrange(start, e)
    } else {
        Seq::empty()
    }
}

/// The index of `needle` in `haystack[start..end]`, the first one for a
/// non-negative direction and else the last; `None` where it is missing. The
/// index counts from the start of `haystack`.
pub fn PyUnicode_Find(
    haystack: Option<&Object>,
    needle: Option<&Object>,
    start: isize,
    end: isize,
    direction: i32,
) -> (r: Result<Option<usize>, Failure>)
    ensures
        haystack is None || needle is None ==> errors::silent(r),
        is_str(haystack) && is_str(needle) ==> r is Ok && ({
            let w = window(str_of(haystack), size_of(start), size_of(end));
            let at = if direction >= 0 {
                search::find_from(w, str_of(needle), 0)
            } else {
                search::rfind_spec(w, str_of(needle))
            };
            match at {
                Some(i) => r->Ok_0 matches Some(x) && x == size_of(start) + i,
                None => r->Ok_0 is None,
            }
        }),
        haystack is Some && needle is Some && !(is_str(haystack) && is_str(needle)) ==> errors::raises(
            r,
            ExcKind::TypeError,
            "PyUnicode_Find: expected str"@,
        ),
{
    match (haystack, needle) {
        (Some(Object::Str(h)), Some(Object::Str(n))) => Ok(
            find_in_window(h, n, start, end, direction),
        ),
        (Some(_), Some(_)) => Err(raise_str(ExcKind::TypeError, "PyUnicode_Find: expected str")),
        _ => Err(Failure::Silent),
    }
}

fn find_in_window(
    h: &Vec<char>,
    n: &Vec<char>,
    start: isize,
    end: isize,
    direction: i32,
) -> (r: Option<usize>)
    ensures
        ({
            let w = window(h@, size_of(start), size_of(end));
            let at = if direction >= 0 {
                search::find_from(w, n@, 0)
            } else {
                search::rfind_spec(w, n@)
            };
            match at {
                Some(i) => r matches Some(x) && x == size_of(start) + i,
                None => r is None,
            }
        }),
{
    let b: usize = clamp_size(start);
    let mut e: usize = clamp_size(end);
    if e > h.len() {
        e = h.len();
    }
    let w: Vec<char> = if b <= e {
        slice_of(h.as_slice(), b, e)
    } else {
        Vec::new()
    };
    assert(w@ =~= window(h@, size_of(start), size_of(end)));
    let at: Option<usize> = if direction >= 0 {
        find(w.as_slice(), n.as_slice(), 0)
    } else {
        rfind(w.as_slice(), n.as_slice())
    };
    match at {
        Some(i) => Some(b + i),
        None => None,
    }
}

/// [`PyUnicode_Find`] for a single character; one that is no scalar value is
/// never found.
pub fn PyUnicode_FindChar(
    haystack: Option<&Object>,
    ch: u32,
    start: isize,
    end: isize,
    direction: i32,
) -> (r: Result<Option<usize>, Failure>)
    ensures
        !is_scalar(ch) ==> r is Ok && r->Ok_0 is None,
        is_scalar(ch) && haystack is None ==> errors::silent(r),
        is_scalar(ch) && haystack is Some && !is_str(haystack) ==> errors::raises(
            r,
            ExcKind::TypeError,
            "PyUnicode_Find: expected str"@,
        ),
        is_scalar(ch) && is_str(haystack) ==> r is Ok && ({
            let w = window(str_of(haystack), size_of(start), size_of(end));
            let at = if direction >= 0 {
                search::find_from(w, seq![ch as char], 0)
            } else {
                search::rfind_spec(w, seq![ch as char])
            };
            match at {
                Some(i) => r->Ok_0 matches Some(x) && x == size_of(start) + i,
                None => r->Ok_0 is None,
            }
        }),
{
    match char_from_u32(ch) {
        None => Ok(None),
        Some(c) => {
            let mut n: Vec<char> = Vec::new();
            n.push(c);
            assert(n@ =~= seq![ch as char]);
            match haystack {
                None => Err(Failure::Silent),
                Some(Object::Str(h)) => Ok(find_in_window(h, &n, start, end, direction)),
                Some(_) => Err(raise_str(ExcKind::TypeError, "PyUnicode_Find: expected str")),
            }
        },
    }
}

/// Whether `o[start..end]` ends (non-negative direction) or starts with
/// `substr`. `None` where an argument is NULL or no str.
pub fn PyUnicode_Tailmatch(
    o: Option<&Object>,
    substr: Option<&Object>,
    start: isize,
    end: isize,
    direction: i32,
) -> (r: Option<bool>)
    ensures
        !(is_str(o) && is_str(substr)) ==> r is None,
        is_str(o) && is_str(substr) ==> ({
            let e = least(size_of(end), str_of(o).len() as int);
            let w = str_of(o).subrange(size_of(start), e);
            let n = str_of(substr);
            r == Some(
                size_of(start) <= e && (if direction >= 0 {
                    search::occurs_at(w, n, w.len() - n.len())
                } else {
                    search::occurs_at(w, n, 0)
                }),
            )
        }),
{
    match (o, substr) {
        (Some(Object::Str(s)), Some(Object::Str(n))) => {
            let b: usize = clamp_size(start);
            let mut e: usize = clamp_size(end);
            if e > s.len() {
                e = s.len();
            }
            if b > e {
                return Some(false);
            }
            let w: Vec<char> = slice_of(s.as_slice(), b, e);
            if direction >= 0 {
                if n.len() > w.len() {
                    Some(false)
                } else {
                    Some(occurs(w.as_slice(), n.as_slice(), w.len() - n.len()))
                }
            } else {
                Some(occurs(w.as_slice(), n.as_slice(), 0))
            }
        },
        _ => None,
    }
}

// ----------------------------------------------------------------
// PyUnicode: splitting, joining, replacing.
// ----------------------------------------------------------------

/// The first index at or after `from` whose whitespace-ness is `ws`.
pub open spec fn ws_from(s: Seq<char>, from: int, ws: bool) -> int
    decreases s.len() - from,
{
    if from < 0 || from >= s.len() || char_is_whitespace(s[from]) == ws {
        from
    } else {
        ws_from(s, from + 1, ws)
    }
}

/// The words of `s[from..]`: its maximal runs without whitespace.
pub open spec fn words_from(s: Seq<char>, from: int) -> Seq<Seq<char>>
    decreases s.len() - from,
{
    let a = ws_from(s, from, false);
    let b = ws_from(s, a, true);
    if from < 0 || a < from || a >= s.len() || b <= a || b > s.len() {
        Seq::empty()
    } else {
        seq![s.subrange(a, b)] + words_from(s, b)
    }
}

/// The text without whitespace at its end.
pub open spec fn trim_end(s: Seq<char>) -> Seq<char>
    decreases s.len(),
{
    if s.len() > 0 && char_is_whitespace(s.last()) {
        trim_end(s.drop_last())
    } else {
        s
    }
}

/// Cut off whitespace at the end.
pub fn trim_end_of(s: &[char]) -> (r: Vec<char>)
    ensures
        r@ == trim_end(s@),
{
    let mut n: usize = s.len();
    assert(s@.subrange(0, n as int) =~= s@);
    while n > 0 && is_whitespace(s[n - 1])
        invariant
            n <= s@.len(),
            trim_end(s@) == trim_end(s@.subrange(0, n as int)),
        decreases n,
    {
        assert(s@.subrange(0, n as int).drop_last() =~= s@.subrange(0, n - 1));
        n = n - 1;
    }
    slice_of(s, 0, n)
}

/// The first index at or after `from` whose whitespace-ness is `ws`.
pub fn skip_ws(s: &Vec<char>, from: usize, ws: bool) -> (r: usize)
    requires
        from <= s@.len(),
    ensures
        r == ws_from(s@, from as int, ws),
        from <= r <= s@.len(),
        r < s@.len() ==> char_is_whitespace(s@[r as int]) == ws,
{
    let mut i: usize = from;
    while i < s.len() && is_whitespace(s[i]) != ws
        invariant
            from <= i <= s@.len(),
            ws_from(s@, from as int, ws) == ws_from(s@, i as int, ws),
        decreases s.len() - i,
    {
        i = i + 1;
    }
    i
}

/// Split on runs of whitespace.
fn words(s: &Vec<char>) -> (r: Vec<Vec<char>>)
    ensures
        search::texts(r@) == words_from(s@, 0),
{
    let mut out: Vec<Vec<char>> = Vec::new();
    let mut at: usize = 0;
    let ghost whole = words_from(s@, 0);
    assert(search::texts(out@) + whole =~= whole);
    loop
        invariant
            at <= s@.len(),
            whole == words_from(s@, 0),
            whole == search::texts(out@) + words_from(s@, at as int),
        decreases s@.len() - at,
    {
        let ghost before = search::texts(out@);
        let a: usize = skip_ws(s, at, false);
        if a >= s.len() {
            assert(search::texts(out@) =~= whole);
            return out;
        }
        let b: usize = skip_ws(s, a, true);
        assert(b > a);
        push_piece(&mut out, slice_of(s.as_slice(), a, b));
        assert(before + words_from(s@, at as int) =~= search::texts(out@) + words_from(s@, b as int));
        at = b;
    }
}

/// Split a str at a separator, or on whitespace where there is none, into at
/// most `max_split + 1` pieces. A negative `max_split` sets no limit; the
/// whitespace split has none.
pub fn PyUnicode_Split(s: Option<&Object>, sep: Option<&Object>, max_split: isize) -> (r: Result<
    Vec<Vec<char>>,
    Failure,
>)
    ensures
        s is None ==> errors::silent(r),
        s is Some && !is_str(s) ==> errors::raises(r, ExcKind::TypeError, "PyUnicode_Split: expected str"@),
        is_str(s) ==> match sep {
            Some(Object::Str(n)) => r is Ok && search::texts(r->Ok_0@) == search::split_from(
                str_of(s),
                n@,
                0,
                0,
                if max_split < 0 {
                    usize::MAX as nat
                } else {
                    (max_split + 1) as nat
                },
            ),
            None | Some(Object::PyNone) => r is Ok && search::texts(r->Ok_0@) == words_from(str_of(s), 0),
            _ => errors::raises(
                r,
                ExcKind::TypeError,
                "PyUnicode_Split: separator must be str or None"@,
            ),
        },
{
    match s {
        None => Err(Failure::Silent),
        Some(Object::Str(h)) => match sep {
            Some(Object::Str(n)) => {
                let limit: usize = if max_split < 0 {
                    usize::MAX
                } else {
                    (max_split as usize) + 1
                };
                Ok(splitn(h.as_slice(), n.as_slice(), limit))
            },
            None => Ok(words(h)),
            Some(Object::PyNone) => Ok(words(h)),
            _ => Err(
                raise_str(
                    ExcKind::TypeError,
                    "PyUnicode_Split: separator must be str or None",
                ),
            ),
        },
        _ => Err(raise_str(ExcKind::TypeError, "PyUnicode_Split: expected str")),
    }
}

/// The lines of a str, with their breaks where `keepends` is not zero.
pub fn PyUnicode_Splitlines(s: Option<&Object>, keepends: i32) -> (r: Result<
    Vec<Vec<char>>,
    Failure,
>)
    ensures
        s is None ==> errors::silent(r),
        is_str(s) ==> r is Ok && search::texts(r->Ok_0@) == search::lines_from(str_of(s), keepends != 0, 0),
        s is Some && !is_str(s) ==> errors::raises(r, ExcKind::TypeError, "expected str"@),
{
    match s {
        None => Err(Failure::Silent),
        Some(Object::Str(h)) => Ok(lines(h.as_slice(), keepends != 0)),
        _ => Err(raise_str(ExcKind::TypeError, "expected str")),
    }
}

/// One element of a sequence to be joined.
#[derive(Debug)]
pub enum JoinItem {
    Str(Vec<char>),
    /// Anything else, by the name of its type.
    Other(Vec<char>),
}

/// What iterating the second argument of a join gave.
#[derive(Debug)]
pub enum JoinInput {
    Items(Vec<JoinItem>),
    /// There is no iterator; `pending` tells whether that set an exception.
    NotIterable {
        pending: bool,
    },
    /// An exception came up on the way.
    Interrupted,
}

/// The index of the first element at or after `i` that is no str.
pub open spec fn first_other(v: Seq<JoinItem>, i: int) -> int
    decreases v.len() - i,
{
    if i < 0 || i >= v.len() || v[i] is Other {
        i
    } else {
        first_other(v, i + 1)
    }
}

/// The texts of elements that are all strs.
pub open spec fn item_texts(v: Seq<JoinItem>) -> Seq<Seq<char>> {
    v.map_values(|x: JoinItem| x->Str_0@)
}

/// `separator.join(seq)`.
pub fn PyUnicode_Join(separator: Option<&Object>, seq: Option<&JoinInput>) -> (r: Result<
    Vec<char>,
    Failure,
>)
    ensures
        separator is None || seq is None ==> errors::silent(r),
        separator is Some && seq is Some && !is_str(separator) ==> errors::raises(
            r,
            ExcKind::TypeError,
            "separator must be str"@,
        ),
        is_str(separator) && seq is Some ==> match *seq->0 {
            JoinInput::NotIterable { pending } => if pending {
                errors::silent(r)
            } else {
                errors::raises(r, ExcKind::TypeError, "can only join an iterable"@)
            },
            JoinInput::Interrupted => errors::silent(r),
            JoinInput::Items(v) => {
                let bad = first_other(v@, 0);
                if bad < v@.len() {
                    errors::raises(
                        r,
                        ExcKind::TypeError,
                        "sequence item "@ + text::dec(bad) + ": expected str instance, "@
                            + v@[bad]->Other_0@ + " found"@,
                    )
                } else {
                    r is Ok && r->Ok_0@ == search::join_spec(str_of(separator), item_texts(v@))
                }
            },
        },
{
    match (separator, seq) {
        (Some(x), Some(input)) => match x {
            Object::Str(sep) => match input {
                JoinInput::NotIterable { pending } => if *pending {
                    Err(Failure::Silent)
                } else {
                    Err(raise_str(ExcKind::TypeError, "can only join an iterable"))
                },
                JoinInput::Interrupted => Err(Failure::Silent),
                JoinInput::Items(v) => join_items(sep, v),
            },
            _ => Err(raise_str(ExcKind::TypeError, "separator must be str")),
        },
        _ => Err(Failure::Silent),
    }
}

fn join_items(sep: &Vec<char>, v: &Vec<JoinItem>) -> (r: Result<Vec<char>, Failure>)
    ensures
        ({
            let bad = first_other(v@, 0);
            if bad < v@.len() {
                errors::raises(
                    r,
                    ExcKind::TypeError,
                    "sequence item "@ + text::dec(bad) + ": expected str instance, "@ + v@[bad]->Other_0@
                        + " found"@,
                )
            } else {
                r is Ok && r->Ok_0@ == search::join_spec(sep@, item_texts(v@))
            }
        }),
{
    let mut items: Vec<Vec<char>> = Vec::new();
    let mut i: usize = 0;
    assert(search::texts(items@) =~= item_texts(v@.subrange(0, 0)));
    while i < v.len()
        invariant
            i <= v@.len(),
            first_other(v@, 0) == first_other(v@, i as int),
            search::texts(items@) == item_texts(v@.subrange(0, i as int)),
        decreases v.len() - i,
    {
        match &v[i] {
            JoinItem::Str(s) => {
                let ghost before = items@;
                push_piece(&mut items, slice_of(s.as_slice(), 0, s.len()));
                assert(s@.subrange(0, s@.len() as int) =~= s@);
                assert(search::texts(items@) =~= item_texts(v@.subrange(0, i + 1)));
            },
            JoinItem::Other(t) => {
                let mut m: Vec<char> = text::text("sequence item ");
                push_dec(&mut m, i as i128);
                push_str(&mut m, ": expected str instance, ");
                push_all(&mut m, t.as_slice());
                push_str(&mut m, " found");
                return Err(raise(ExcKind::TypeError, m));
            },
        }
        i = i + 1;
    }
    assert(v@.subrange(0, v@.len() as int) =~= v@);
    Ok(join(sep.as_slice(), &items))
}

/// `s` with the first `max_count` matches of `needle` replaced; a negative
/// count sets no limit.
pub fn PyUnicode_Replace(
    s: Option<&Object>,
    needle: Option<&Object>,
    replacement: Option<&Object>,
    max_count: isize,
) -> (r: Result<Vec<char>, Failure>)
    ensures
        s is None || needle is None || replacement is None ==> errors::silent(r),
        is_str(s) && is_str(needle) && is_str(replacement) ==> r is Ok && r->Ok_0@ == search::replace_from(
            str_of(s),
            str_of(needle),
            str_of(replacement),
            0,
            0,
            if max_count < 0 {
                usize::MAX as nat
            } else {
                max_count as nat
            },
        ),
        s is Some && needle is Some && replacement is Some && !(is_str(s) && is_str(needle)
            && is_str(replacement)) ==> errors::raises(
            r,
            ExcKind::TypeError,
            "PyUnicode_Replace: expected str"@,
        ),
{
    match (s, needle, replacement) {
        (Some(a), Some(b), Some(c)) => match (a, b, c) {
            (Object::Str(h), Object::Str(n), Object::Str(by)) => {
                let limit: usize = if max_count < 0 {
                    usize::MAX
                } else {
                    max_count as usize
                };
                Ok(replacen(h.as_slice(), n.as_slice(), by.as_slice(), limit))
            },
            _ => Err(raise_str(ExcKind::TypeError, "PyUnicode_Replace: expected str")),
        },
        _ => Err(Failure::Silent),
    }
}

/// Filling a range is not offered: always -1.
pub fn PyUnicode_Fill() -> (r: isize)
    ensures
        r == -1,
{
    -1
}

// ----------------------------------------------------------------
// PyBytes.
// ----------------------------------------------------------------

/// The argument is a `bytes`.
pub open spec fn is_bytes(o: Option<&Object>) -> bool {
    o matches Some(x) && x is Bytes
}

/// The content of a `bytes` argument.
pub open spec fn bytes_of(o: Option<&Object>) -> Seq<u8> {
    o->0->Bytes_0@
}

/// The argument is a `bytearray`.
pub open spec fn is_bytearray(o: Option<&Object>) -> bool {
    o matches Some(x) && x is ByteArray
}

/// The content of a `bytearray` argument.
pub open spec fn bytearray_of(o: Option<&Object>) -> Seq<u8> {
    o->0->ByteArray_0@
}

/// A bytes object from a NUL-terminated buffer (given without its NUL).
pub fn PyBytes_FromString(s: Option<&[u8]>) -> (r: Option<Vec<u8>>)
    ensures
        match s {
            None => r is None,
            Some(b) => r matches Some(v) && v@ == b@,
        },
{
    match s {
        None => None,
        Some(b) => Some(copy_bytes(b)),
    }
}

/// The first `n` bytes of a buffer, or `n` zero bytes for a NULL buffer.
pub open spec fn filled(s: Option<&[u8]>, n: isize) -> Seq<u8> {
    match s {
        None => Seq::new(size_of(n) as nat, |i: int| 0u8),
        Some(b) => b@.subrange(0, size_of(n)),
    }
}

/// A bytes object of `n` bytes.
pub fn PyBytes_FromStringAndSize(s: Option<&[u8]>, n: isize) -> (r: Vec<u8>)
    requires
        s matches Some(b) ==> size_of(n) <= b@.len(),
    ensures
        r@ == filled(s, n),
{
    match s {
        None => zeros(clamp_size(n)),
        Some(b) => prefix(b, clamp_size(n)),
    }
}

/// The content of a bytes object with a NUL behind it.
pub fn PyBytes_AsString(o: Option<&Object>) -> (r: Result<Vec<u8>, Failure>)
    ensures
        o is None ==> errors::silent(r),
        is_bytes(o) ==> r is Ok && r->Ok_0@ == bytes_of(o).push(0),
        o is Some && !is_bytes(o) ==> errors::raises(r, ExcKind::TypeError, "expected bytes"@),
{
    match o {
        None => Err(Failure::Silent),
        Some(Object::Bytes(b)) => {
            let mut out: Vec<u8> = copy_bytes(b.as_slice());
            out.push(0);
            Ok(out)
        },
        _ => Err(raise_str(ExcKind::TypeError, "expected bytes")),
    }
}

/// The content of a bytes object with a NUL behind it, and its length, which
/// counts embedded NULs.
pub fn PyBytes_AsStringAndSize(o: Option<&Object>) -> (r: Result<(Vec<u8>, usize), Failure>)
    ensures
        o is None ==> errors::silent(r),
        is_bytes(o) ==> r is Ok && r->Ok_0.0@ == bytes_of(o).push(0) && r->Ok_0.1 == bytes_of(
            o,
        ).len(),
        o is Some && !is_bytes(o) ==> errors::raises(r, ExcKind::TypeError, "expected bytes"@),
{
    match PyBytes_AsString(o) {
        Ok(b) => {
            let n: usize = b.len() - 1;
            Ok((b, n))
        },
        Err(e) => Err(e),
    }
}

/// The length of a bytes object; `None` for anything else.
pub fn PyBytes_Size(o: Option<&Object>) -> (r: Option<usize>)
    ensures
        r == (if is_bytes(o) {
            Some(bytes_of(o).len() as usize)
        } else {
            None
        }),
{
    match o {
        Some(Object::Bytes(b)) => Some(b.len()),
        _ => None,
    }
}

/// Whether the argument is a bytes object.
pub fn PyBytes_Check(o: Option<&Object>) -> (r: bool)
    ensures
        r == is_bytes(o),
{
    match o {
        Some(Object::Bytes(_)) => true,
        _ => false,
    }
}

/// What converting an object to bytes gives.
#[derive(Debug)]
pub enum AsBytes {
    /// The argument itself, with one more reference.
    Same,
    /// A new bytes object.
    New(Vec<u8>),
}

/// The byte an element of a sequence converts to: the low byte of a small
/// integer, zero for anything else.
pub open spec fn element_byte(o: Object) -> u8 {
    match o {
        Object::Int(i) => i as u8,
        _ => 0,
    }
}

fn element_bytes(v: &Vec<Native>) -> (r: Vec<u8>)
    ensures
        r@ == v@.map_values(|x: Native| element_byte(x.val)),
{
    let mut out: Vec<u8> = Vec::new();
    let mut i: usize = 0;
    while i < v.len()
        invariant
            i <= v@.len(),
            out@ == v@.subrange(0, i as int).map_values(|x: Native| element_byte(x.val)),
        decreases v.len() - i,
    {
        let b: u8 = match &v[i].val {
            Object::Int(k) => #[verifier::truncate] (*k as u8),
            _ => 0,
        };
        out.push(b);
        i = i + 1;
        assert(out@ =~= v@.subrange(0, i as int).map_values(|x: Native| element_byte(x.val)));
    }
    assert(v@.subrange(0, v@.len() as int) =~= v@);
    out
}

/// Convert an object to bytes.
pub fn PyBytes_FromObject(o: Option<&Object>) -> (r: Result<AsBytes, Failure>)
    ensures
        match o {
            None => errors::silent(r),
            Some(Object::Bytes(_)) => r is Ok && r->Ok_0 is Same,
            Some(Object::ByteArray(b)) => r is Ok && r->Ok_0 is New && r->Ok_0->New_0@ == b@,
            Some(Object::Str(s)) => r is Ok && r->Ok_0 is New && r->Ok_0->New_0@ == encode_utf8(s@),
            Some(Object::List(v)) => r is Ok && r->Ok_0 is New && r->Ok_0->New_0@ == v@.map_values(
                |x: Native| element_byte(x.val),
            ),
            Some(Object::Tuple(v)) => r is Ok && r->Ok_0 is New && r->Ok_0->New_0@ == v@.map_values(
                |x: Native| element_byte(x.val),
            ),
            _ => errors::raises(r, ExcKind::TypeError, "cannot convert to bytes"@),
        },
{
    match o {
        None => Err(Failure::Silent),
        Some(Object::Bytes(_)) => Ok(AsBytes::Same),
        Some(Object::ByteArray(b)) => Ok(AsBytes::New(copy_bytes(b.as_slice()))),
        Some(Object::Str(s)) => Ok(AsBytes::New(encode(s.as_slice()))),
        Some(Object::List(v)) => Ok(AsBytes::New(element_bytes(v))),
        Some(Object::Tuple(v)) => Ok(AsBytes::New(element_bytes(v))),
        _ => Err(raise_str(ExcKind::TypeError, "cannot convert to bytes")),
    }
}

/// The concatenation that replaces the left operand, or `None` where it stays
/// as it is (an operand is NULL or no bytes object).
pub fn PyBytes_Concat(left: Option<&Object>, w: Option<&Object>) -> (r: Option<Vec<u8>>)
    ensures
        is_bytes(left) && is_bytes(w) ==> r is Some && r->0@ == bytes_of(left) + bytes_of(w),
        !(is_bytes(left) && is_bytes(w)) ==> r is None,
{
    match (left, w) {
        (Some(Object::Bytes(a)), Some(Object::Bytes(b))) => {
            let mut out: Vec<u8> = copy_bytes(a.as_slice());
            push_bytes(&mut out, b.as_slice());
            Some(out)
        },
        _ => None,
    }
}

/// Two bytes objects joined, and the reference to the second one released. The
/// second one is known by its address and by what it holds.
pub fn PyBytes_ConcatAndDel(
    h: &mut Heap,
    left: Option<&Object>,
    w: Option<&Object>,
    w_ptr: usize,
) -> (r: Option<Vec<u8>>)
    ensures
        is_bytes(left) && is_bytes(w) ==> r is Some && r->0@ == bytes_of(left) + bytes_of(w),
        !(is_bytes(left) && is_bytes(w)) ==> r is None,
        final(h)@ == freeing::released(old(h)@, seq![w_ptr]),
{
    let out: Option<Vec<u8>> = PyBytes_Concat(left, w);
    Py_DecRef(h, w_ptr);
    out
}

/// A bytes object from a format with one `%s`.
pub fn PyBytes_FromFormat(fmt: Option<&[char]>, arg0: Option<&[char]>) -> (r: Option<Vec<u8>>)
    ensures
        match fmt {
            None => r is None,
            Some(f) => r matches Some(v) && v@ == encode_utf8(
                search::replace_from(
                    f@,
                    "%s"@,
                    match arg0 {
                        Some(a) => a@,
                        None => Seq::empty(),
                    },
                    0,
                    0,
                    1,
                ),
            ),
        },
{
    match fmt {
        None => None,
        Some(f) => {
            let pat: Vec<char> = text::text("%s");
            let out: Vec<char> = match arg0 {
                Some(a) => replacen(f, pat.as_slice(), a, 1),
                None => {
                    let none: Vec<char> = Vec::new();
                    replacen(f, pat.as_slice(), none.as_slice(), 1)
                },
            };
            Some(encode(out.as_slice()))
        },
    }
}

// ----------------------------------------------------------------
// PyByteArray.
// ----------------------------------------------------------------

/// A bytearray of `n` bytes.
pub fn PyByteArray_FromStringAndSize(s: Option<&[u8]>, n: isize) -> (r: Vec<u8>)
    requires
        s matches Some(b) ==> size_of(n) <= b@.len(),
    ensures
        r@ == filled(s, n),
{
    PyBytes_FromStringAndSize(s, n)
}

/// The content of a bytearray with a NUL behind it; `None` for anything else.
pub fn PyByteArray_AsString(o: Option<&Object>) -> (r: Option<Vec<u8>>)
    ensures
        is_bytearray(o) ==> r is Some && r->0@ == bytearray_of(o).push(0),
        !is_bytearray(o) ==> r is None,
{
    match o {
        Some(Object::ByteArray(b)) => {
            let mut out: Vec<u8> = copy_bytes(b.as_slice());
            out.push(0);
            Some(out)
        },
        _ => None,
    }
}

/// The length of a bytearray; `None` for anything else.
pub fn PyByteArray_Size(o: Option<&Object>) -> (r: Option<usize>)
    ensures
        r == (if is_bytearray(o) {
            Some(bytearray_of(o).len() as usize)
        } else {
            None
        }),
{
    match o {
        Some(Object::ByteArray(b)) => Some(b.len()),
        _ => None,
    }
}

/// Whether the argument is a bytearray.
pub fn PyByteArray_Check(o: Option<&Object>) -> (r: bool)
    ensures
        r == is_bytearray(o),
{
    match o {
        Some(Object::ByteArray(_)) => true,
        _ => false,
    }
}

/// Cut or extend (with zeros) to a length.
pub open spec fn resized(b: Seq<u8>, n: nat) -> Seq<u8> {
    Seq::new(n, |i: int| if i < b.len() { b[i] } else { 0u8 })
}

/// Resize a bytearray, with zeros for new bytes.
pub fn PyByteArray_Resize(o: &mut Option<Object>, size: isize) -> (r: Result<(), Failure>)
    ensures
        *old(o) is None || size < 0 ==> errors::silent(r) && *final(o) == *old(o),
        *old(o) is Some && size >= 0 && old(o)->0 is ByteArray ==> r is Ok && *final(o) is Some
            && final(o)->0 is ByteArray && final(o)->0->ByteArray_0@ == resized(
            old(o)->0->ByteArray_0@,
            size as nat,
        ),
        *old(o) is Some && size >= 0 && !(old(o)->0 is ByteArray) ==> errors::raises(
            r,
            ExcKind::TypeError,
            "expected bytearray"@,
        ) && *final(o) == *old(o),
{
    if size < 0 {
        return Err(Failure::Silent);
    }
    match o {
        None => Err(Failure::Silent),
        Some(Object::ByteArray(v)) => {
            let n: usize = size as usize;
            v.resize(n, 0);
            assert(v@ =~= resized(old(o)->0->ByteArray_0@, size as nat));
            Ok(())
        },
        Some(_) => Err(raise_str(ExcKind::TypeError, "expected bytearray")),
    }
}

/// The bytes of a bytes-like argument.
pub open spec fn bytes_like(o: Option<&Object>) -> Option<Seq<u8>> {
    match o {
        Some(Object::ByteArray(b)) => Some(b@),
        Some(Object::Bytes(b)) => Some(b@),
        _ => None,
    }
}

/// Concatenate two bytes-like objects into a bytearray. A second operand that
/// is not bytes-like adds nothing.
pub fn PyByteArray_Concat(a: Option<&Object>, b: Option<&Object>) -> (r: Result<Vec<u8>, Failure>)
    ensures
        a is None || b is None ==> errors::silent(r),
        a is Some && b is Some ==> match bytes_like(a) {
            None => errors::raises(
                r,
                ExcKind::TypeError,
                "PyByteArray_Concat: expected bytes-like"@,
            ),
            Some(x) => r is Ok && r->Ok_0@ == (match bytes_like(b) {
                Some(y) => x + y,
                None => x,
            }),
        },
{
    match (a, b) {
        (Some(x), Some(y)) => {
            let mut out: Vec<u8> = match x {
                Object::ByteArray(v) => copy_bytes(v.as_slice()),
                Object::Bytes(v) => copy_bytes(v.as_slice()),
                _ => {
                    return Err(
                        raise_str(ExcKind::TypeError, "PyByteArray_Concat: expected bytes-like"),
                    );
                },
            };
            match y {
                Object::ByteArray(v) => push_bytes(&mut out, v.as_slice()),
                Object::Bytes(v) => push_bytes(&mut out, v.as_slice()),
                _ => {},
            }
            Ok(out)
        },
        _ => Err(Failure::Silent),
    }
}

} // verus!
