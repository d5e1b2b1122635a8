//! `PyFloat_*`, `PyComplex_*` and `PyBool_*`: which double an object is, and the
//! bytes of doubles.
//!
//! A double is a bit pattern, or the integer that it is the nearest double to.
//! What the numeric methods of an object gave is handed in.

use vstd::prelude::*;
use vstd::arithmetic::power2::*;
use crate::bignum;
use crate::bytes;
use crate::bytes::{get_le, put_le};
use crate::errors;
use crate::errors::{raise, raise_str, ExcKind, Failure, FailureView};
use crate::heap::Heap;
use crate::object::Py_IncRef;
use crate::singletons::{false_ptr, true_ptr};
use crate::text;
use crate::text::{copy_text, push_all};
use crate::value::{BigNum, Object};

verus! {

/// A double.
#[derive(Clone, Copy, Debug)]
pub enum Real<'a> {
    /// This bit pattern.
    Bits(u64),
    /// This bit pattern; of a NaN, the canonical one in place of one that tells
    /// objects apart.
    Canonical(u64),
    /// The nearest double to an integer.
    OfInt(i64),
    /// The nearest double to an integer, infinite where it is too large.
    OfLong(&'a BigNum),
    OfBool(bool),
    Zero,
}

/// What a numeric method of an object gave.
#[derive(Clone, Copy, Debug)]
pub enum Attr<'a> {
    /// There is no such method.
    Missing,
    /// It raised.
    Raised,
    Gave(&'a Object),
}

/// What the float protocol of an object gave.
#[derive(Debug)]
pub enum FloatProtocol<'a> {
    Value(Real<'a>),
    Raised(Failure),
    NoProtocol,
}

/// The double that a number is.
pub open spec fn real_of<'a>(o: &'a Object) -> Option<Real<'a>> {
    match o {
        Object::Float(f) => Some(Real::Bits(*f)),
        Object::Int(i) => Some(Real::OfInt(*i)),
        Object::Long(b) => Some(Real::OfLong(b)),
        Object::Bool(b) => Some(Real::OfBool(*b)),
        _ => None,
    }
}

/// The double that C code sees.
pub open spec fn seen<'a>(r: Real<'a>) -> Real<'a> {
    match r {
        Real::Bits(f) => Real::Canonical(f),
        _ => r,
    }
}

fn to_real<'a>(o: &'a Object) -> (r: Option<Real<'a>>)
    ensures
        r == real_of(o),
{
    match o {
        Object::Float(f) => Some(Real::Bits(*f)),
        Object::Int(i) => Some(Real::OfInt(*i)),
        Object::Long(b) => Some(Real::OfLong(b)),
        Object::Bool(b) => Some(Real::OfBool(*b)),
        _ => None,
    }
}

fn canonical<'a>(r: Real<'a>) -> (out: Real<'a>)
    ensures
        out == seen(r),
{
    match r {
        Real::Bits(f) => Real::Canonical(f),
        _ => r,
    }
}

// ---------------------------------------------------------------------------
// Conversions
// ---------------------------------------------------------------------------

/// What came of calling a numeric method of an object. Where there is no such
/// method the lookup's exception is dropped; where the call failed its exception
/// stays.
pub fn call_number_dunder<'a>(has_method: bool, result: Option<&'a Object>) -> (r: Attr<'a>)
    ensures
        r == (if !has_method {
            Attr::Missing
        } else {
            match result {
                None => Attr::Raised,
                Some(o) => Attr::Gave(o),
            }
        }),
{
    if !has_method {
        return Attr::Missing;
    }
    match result {
        None => Attr::Raised,
        Some(o) => Attr::Gave(o),
    }
}

/// The name of an object's type, or which link to it is NULL.
pub fn debug_type_name(is_null: bool, no_type: bool, name: Option<&[char]>) -> (r: Vec<char>)
    ensures
        r@ == (if is_null {
            "<null>"@
        } else if no_type {
            "<null-type>"@
        } else {
            match name {
                None => "<null-name>"@,
                Some(n) => n@,
            }
        }),
{
    if is_null {
        return text::text("<null>");
    }
    if no_type {
        return text::text("<null-type>");
    }
    match name {
        None => text::text("<null-name>"),
        Some(n) => copy_text(n),
    }
}

/// The double that an integer is; a float stays as it is.
pub fn PyLong_AsDouble<'a>(o: Option<&'a Object>) -> (r: Result<Real<'a>, Failure>)
    ensures
        match o {
            None => errors::raises(r, ExcKind::TypeError, "PyLong_AsDouble: NULL"@),
            Some(x) => match real_of(x) {
                Some(v) => r is Ok && r->Ok_0 == v,
                None => errors::raises(r, ExcKind::TypeError, "an integer is required"@),
            },
        },
{
    match o {
        None => Err(raise_str(ExcKind::TypeError, "PyLong_AsDouble: NULL")),
        Some(x) => match to_real(x) {
            Some(v) => Ok(v),
            None => Err(raise_str(ExcKind::TypeError, "an integer is required")),
        },
    }
}

/// The method was there.
pub open spec fn there(a: Attr) -> bool {
    !(a is Missing)
}

/// What a method for the float protocol gave.
pub open spec fn protocol_gave<'a>(a: Attr<'a>, r: FloatProtocol<'a>) -> bool {
    match a {
        Attr::Missing => r is NoProtocol,
        Attr::Raised => r matches FloatProtocol::Raised(f) && f == Failure::Silent,
        Attr::Gave(o) => match real_of(o) {
            Some(v) => r matches FloatProtocol::Value(x) && x == v,
            None => r matches FloatProtocol::Raised(f) && f@ == FailureView::Raised(
                ExcKind::TypeError,
                "__float__ returned non-float"@,
            ),
        },
    }
}

/// A number came straight from the `nb_float` slot of an extension's object.
pub open spec fn slot_number<'a>(foreign: bool, nb_float: Attr<'a>) -> Option<Real<'a>> {
    match nb_float {
        Attr::Gave(o) => if foreign {
            real_of(o)
        } else {
            None
        },
        _ => None,
    }
}

/// The float protocol: the `nb_float` slot of an extension's object, then
/// `__float__`, then `__index__`. A slot that gives no number is passed over; a
/// method that gives none is an error.
pub fn float_number_protocol<'a>(
    foreign: bool,
    nb_float: Attr<'a>,
    dunder_float: Attr<'a>,
    dunder_index: Attr<'a>,
) -> (r: FloatProtocol<'a>)
    ensures
        if foreign && nb_float is Raised {
            r matches FloatProtocol::Raised(f) && f == Failure::Silent
        } else if slot_number(foreign, nb_float) is Some {
            r matches FloatProtocol::Value(v) && Some(v) == slot_number(foreign, nb_float)
        } else if there(dunder_float) {
            protocol_gave(dunder_float, r)
        } else {
            protocol_gave(dunder_index, r)
        },
{
    if foreign {
        match nb_float {
            Attr::Gave(o) => {
                if let Some(v) = to_real(o) {
                    return FloatProtocol::Value(v);
                }
            },
            Attr::Raised => {
                return FloatProtocol::Raised(Failure::Silent);
            },
            Attr::Missing => {},
        }
    }
    let found: Attr<'a> = match dunder_float {
        Attr::Missing => dunder_index,
        _ => dunder_float,
    };
    match found {
        Attr::Missing => FloatProtocol::NoProtocol,
        Attr::Raised => FloatProtocol::Raised(Failure::Silent),
        Attr::Gave(o) => match to_real(o) {
            Some(v) => FloatProtocol::Value(v),
            None => FloatProtocol::Raised(
                raise_str(ExcKind::TypeError, "__float__ returned non-float"),
            ),
        },
    }
}

/// What the float protocol of an object gave, as a double that C code sees.
pub open spec fn protocol_double<'a>(
    p: FloatProtocol<'a>,
    ty_name: Seq<char>,
    r: Result<Real<'a>, Failure>,
) -> bool {
    match p {
        FloatProtocol::Value(v) => r is Ok && r->Ok_0 == seen(v),
        FloatProtocol::Raised(f) => r is Err && r->Err_0 == f,
        FloatProtocol::NoProtocol => errors::raises(
            r,
            ExcKind::TypeError,
            "must be real number, not "@ + ty_name,
        ),
    }
}

/// The double that an object is. For an object that is no number, `protocol` is
/// what its float protocol gave.
pub fn PyFloat_AsDouble<'a>(
    o: Option<&'a Object>,
    protocol: FloatProtocol<'a>,
    ty_name: &[char],
) -> (r: Result<Real<'a>, Failure>)
    ensures
        match o {
            None => errors::raises(r, ExcKind::TypeError, "PyFloat_AsDouble: NULL"@),
            Some(x) => match real_of(x) {
                Some(v) => r is Ok && r->Ok_0 == seen(v),
                None => protocol_double(protocol, ty_name@, r),
            },
        },
{
    match o {
        None => Err(raise_str(ExcKind::TypeError, "PyFloat_AsDouble: NULL")),
        Some(x) => match to_real(x) {
            Some(v) => Ok(canonical(v)),
            None => from_protocol(protocol, ty_name),
        },
    }
}

fn from_protocol<'a>(protocol: FloatProtocol<'a>, ty_name: &[char]) -> (r: Result<
    Real<'a>,
    Failure,
>)
    ensures
        protocol_double(protocol, ty_name@, r),
{
    match protocol {
        FloatProtocol::Value(v) => Ok(canonical(v)),
        FloatProtocol::Raised(f) => Err(f),
        FloatProtocol::NoProtocol => {
            let mut m: Vec<char> = text::text("must be real number, not ");
            push_all(&mut m, ty_name);
            Err(raise(ExcKind::TypeError, m))
        },
    }
}

/// The parts of a complex number in an extension's object, where the object is
/// one of a subtype of `complex`. The objects made here hold theirs elsewhere.
pub fn foreign_complex_cval(owned: bool, is_complex: bool, cval: (u64, u64)) -> (r: Option<
    (u64, u64),
>)
    ensures
        r == (if !owned && is_complex {
            Some(cval)
        } else {
            None
        }),
{
    if owned || !is_complex {
        None
    } else {
        Some(cval)
    }
}

/// The real part of a number other than a bool.
pub open spec fn real_part<'a>(o: &'a Object) -> Option<Real<'a>> {
    match o {
        Object::Complex(re, _) => Some(Real::Canonical(*re)),
        Object::Float(f) => Some(Real::Canonical(*f)),
        Object::Int(i) => Some(Real::OfInt(*i)),
        Object::Long(b) => Some(Real::OfLong(b)),
        _ => None,
    }
}

fn to_real_part<'a>(o: &'a Object) -> (r: Option<Real<'a>>)
    ensures
        r == real_part(o),
{
    match o {
        Object::Complex(re, _) => Some(Real::Canonical(*re)),
        Object::Float(f) => Some(Real::Canonical(*f)),
        Object::Int(i) => Some(Real::OfInt(*i)),
        Object::Long(b) => Some(Real::OfLong(b)),
        _ => None,
    }
}

/// The real part of an object: of a number, of what `__complex__` gave, or what
/// the float protocol gave.
pub fn PyComplex_RealAsDouble<'a>(
    o: Option<&'a Object>,
    cval: Option<(u64, u64)>,
    dunder_complex: Attr<'a>,
    protocol: FloatProtocol<'a>,
    ty_name: &[char],
) -> (r: Result<Real<'a>, Failure>)
    ensures
        match (o, cval) {
            (None, _) => errors::silent(r),
            (Some(_), Some(c)) => r is Ok && r->Ok_0 == Real::Bits(c.0),
            (Some(x), None) => match real_part(x) {
                Some(v) => r is Ok && r->Ok_0 == v,
                None => match dunder_complex {
                    Attr::Gave(y) => match real_part(y) {
                        Some(v) => r is Ok && r->Ok_0 == v,
                        None => errors::raises(
                            r,
                            ExcKind::TypeError,
                            "__complex__ returned non-complex"@,
                        ),
                    },
                    Attr::Raised => errors::silent(r),
                    Attr::Missing => match real_of(x) {
                        Some(v) => r is Ok && r->Ok_0 == seen(v),
                        None => protocol_double(protocol, ty_name@, r),
                    },
                },
            },
        },
{
    let x: &'a Object = match o {
        None => {
            return Err(Failure::Silent);
        },
        Some(x) => x,
    };
    if let Some(c) = cval {
        return Ok(Real::Bits(c.0));
    }
    if let Some(v) = to_real_part(x) {
        return Ok(v);
    }
    match dunder_complex {
        Attr::Gave(y) => match to_real_part(y) {
            Some(v) => Ok(v),
            None => Err(raise_str(ExcKind::TypeError, "__complex__ returned non-complex")),
        },
        Attr::Raised => Err(Failure::Silent),
        Attr::Missing => PyFloat_AsDouble(Some(x), protocol, ty_name),
    }
}

/// The imaginary part of an object: of a complex number, of what `__complex__`
/// gave, else zero.
pub fn PyComplex_ImagAsDouble<'a>(
    o: Option<&'a Object>,
    cval: Option<(u64, u64)>,
    dunder_complex: Attr<'a>,
) -> (r: Result<Real<'a>, Failure>)
    ensures
        match (o, cval) {
            (None, _) => errors::silent(r),
            (Some(_), Some(c)) => r is Ok && r->Ok_0 == Real::Bits(c.1),
            (Some(x), None) => match x {
                Object::Complex(_, im) => r is Ok && r->Ok_0 == Real::Canonical(*im),
                Object::Float(_) | Object::Int(_) | Object::Long(_) | Object::Bool(_) => r is Ok
                    && r->Ok_0 == Real::Zero,
                _ => match dunder_complex {
                    Attr::Gave(Object::Complex(_, im)) => r is Ok && r->Ok_0 == Real::Canonical(
                        *im,
                    ),
                    Attr::Gave(_) => r is Ok && r->Ok_0 == Real::Zero,
                    Attr::Raised => errors::silent(r),
                    Attr::Missing => r is Ok && r->Ok_0 == Real::Zero,
                },
            },
        },
{
    let x: &'a Object = match o {
        None => {
            return Err(Failure::Silent);
        },
        Some(x) => x,
    };
    if let Some(c) = cval {
        return Ok(Real::Bits(c.1));
    }
    match x {
        Object::Complex(_, im) => Ok(Real::Canonical(*im)),
        Object::Float(_) | Object::Int(_) | Object::Long(_) | Object::Bool(_) => Ok(Real::Zero),
        _ => match dunder_complex {
            Attr::Gave(Object::Complex(_, im)) => Ok(Real::Canonical(*im)),
            Attr::Raised => Err(Failure::Silent),
            _ => Ok(Real::Zero),
        },
    }
}

/// Both parts of a number.
pub open spec fn parts_of<'a>(o: &'a Object) -> Option<(Real<'a>, Real<'a>)> {
    match o {
        Object::Complex(re, im) => Some((Real::Canonical(*re), Real::Canonical(*im))),
        _ => match real_of(o) {
            Some(v) => Some((seen(v), Real::Zero)),
            None => None,
        },
    }
}

/// Both parts of what `__complex__` gave; a bool is not accepted.
pub open spec fn given_parts<'a>(o: &'a Object) -> Option<(Real<'a>, Real<'a>)> {
    match o {
        Object::Bool(_) => None,
        _ => parts_of(o),
    }
}

fn to_parts<'a>(o: &'a Object) -> (r: Option<(Real<'a>, Real<'a>)>)
    ensures
        r == parts_of(o),
{
    match o {
        Object::Complex(re, im) => Some((Real::Canonical(*re), Real::Canonical(*im))),
        _ => match to_real(o) {
            Some(v) => Some((canonical(v), Real::Zero)),
            None => None,
        },
    }
}

/// The complex number that an object is: its parts in an extension's object, a
/// number, what `__complex__` gave, or what the float protocol gave with an
/// imaginary part of zero.
pub fn complex_as_ccomplex<'a>(
    o: Option<&'a Object>,
    cval: Option<(u64, u64)>,
    dunder_complex: Attr<'a>,
    protocol: FloatProtocol<'a>,
    ty_name: &[char],
) -> (r: Result<(Real<'a>, Real<'a>), Failure>)
    ensures
        match (o, cval) {
            (None, _) => errors::raises(r, ExcKind::TypeError, "PyComplex_AsCComplex: NULL"@),
            (Some(_), Some(c)) => r is Ok && r->Ok_0 == (Real::Bits(c.0), Real::Bits(c.1)),
            (Some(x), None) => match parts_of(x) {
                Some(v) => r is Ok && r->Ok_0 == v,
                None => match dunder_complex {
                    Attr::Gave(y) => match given_parts(y) {
                        Some(v) => r is Ok && r->Ok_0 == v,
                        None => errors::raises(
                            r,
                            ExcKind::TypeError,
                            "__complex__ should return a complex object"@,
                        ),
                    },
                    Attr::Raised => errors::silent(r),
                    Attr::Missing => match protocol {
                        FloatProtocol::Value(v) => r is Ok && r->Ok_0 == (seen(v), Real::Zero),
                        FloatProtocol::Raised(f) => r is Err && r->Err_0 == f,
                        FloatProtocol::NoProtocol => errors::raises(
                            r,
                            ExcKind::TypeError,
                            "must be real number, not "@ + ty_name@,
                        ),
                    },
                },
            },
        },
{
    let x: &'a Object = match o {
        None => {
            return Err(raise_str(ExcKind::TypeError, "PyComplex_AsCComplex: NULL"));
        },
        Some(x) => x,
    };
    if let Some(c) = cval {
        return Ok((Real::Bits(c.0), Real::Bits(c.1)));
    }
    if let Some(v) = to_parts(x) {
        return Ok(v);
    }
    match dunder_complex {
        Attr::Gave(y) => {
            let given: Option<(Real<'a>, Real<'a>)> = match y {
                Object::Bool(_) => None,
                _ => to_parts(y),
            };
            match given {
                Some(v) => Ok(v),
                None => Err(
                    raise_str(ExcKind::TypeError, "__complex__ should return a complex object"),
                ),
            }
        },
        Attr::Raised => Err(Failure::Silent),
        Attr::Missing => match from_protocol(protocol, ty_name) {
            Ok(v) => Ok((v, Real::Zero)),
            Err(f) => Err(f),
        },
    }
}

// ---------------------------------------------------------------------------
// Checks and constructors
// ---------------------------------------------------------------------------

/// Whether an object is an int; a bool is one.
pub fn PyLong_Check(o: Option<&Object>) -> (r: bool)
    ensures
        r == (o matches Some(x) && bignum::is_int(*x)),
{
    match o {
        Some(Object::Int(_)) | Some(Object::Long(_)) | Some(Object::Bool(_)) => true,
        _ => false,
    }
}

/// Whether an object is a float.
pub fn PyFloat_Check(o: Option<&Object>) -> (r: bool)
    ensures
        r == (o matches Some(x) && x is Float),
{
    match o {
        Some(Object::Float(_)) => true,
        _ => false,
    }
}

/// Whether an object is a bool.
pub fn PyBool_Check(o: Option<&Object>) -> (r: bool)
    ensures
        r == (o matches Some(x) && x is Bool),
{
    match o {
        Some(Object::Bool(_)) => true,
        _ => false,
    }
}

/// Whether an object is a complex number or one of a subtype.
pub fn PyComplex_Check(o: Option<&Object>, is_complex: bool) -> (r: bool)
    ensures
        r == (o matches Some(x) && (x is Complex || is_complex)),
{
    match o {
        None => false,
        Some(Object::Complex(_, _)) => true,
        Some(_) => is_complex,
    }
}

/// A complex number from its parts.
pub fn PyComplex_FromDoubles(re: u64, im: u64) -> (r: Object)
    ensures
        r == Object::Complex(re, im),
{
    Object::Complex(re, im)
}

/// A float. `tagged` is the bit pattern with which the VM tells a canonical NaN
/// from other NaN objects; every other pattern is kept as it is.
pub fn PyFloat_FromDouble(tagged: u64) -> (r: Object)
    ensures
        r == Object::Float(tagged),
{
    Object::Float(tagged)
}

/// The object of a truth value, with one more reference to it.
pub fn PyBool_FromLong(h: &mut Heap, v: i64) -> (r: usize)
    ensures
        r == (if v != 0 {
            old(h)@.facts.singles.tru.addr
        } else {
            old(h)@.facts.singles.fals.addr
        }),
        final(h)@ == crate::heap::increfed(old(h)@, r),
{
    let p: usize = if v != 0 {
        true_ptr(&h.facts.singles)
    } else {
        false_ptr(&h.facts.singles)
    };
    Py_IncRef(h, p);
    p
}

/// The largest finite double.
pub const FLOAT_MAX: u64 = 0x7fef_ffff_ffff_ffff;

/// The smallest positive normal double.
pub const FLOAT_MIN: u64 = 0x0010_0000_0000_0000;

/// The distance from one to the next larger double.
pub const FLOAT_EPSILON: u64 = 0x3cb0_0000_0000_0000;

/// The largest finite double.
pub fn PyFloat_GetMax() -> (r: u64)
    ensures
        r == FLOAT_MAX,
{
    FLOAT_MAX
}

/// The smallest positive normal double.
pub fn PyFloat_GetMin() -> (r: u64)
    ensures
        r == FLOAT_MIN,
{
    FLOAT_MIN
}

/// What `sys.float_info` says: the largest double, its binary and its decimal
/// exponent, the smallest normal double, its exponents, the decimal digits, the
/// binary digits, the epsilon, the radix and the rounding.
pub fn PyFloat_GetInfo() -> (r: (u64, i64, i64, u64, i64, i64, i64, i64, u64, i64, i64))
    ensures
        r == (
            FLOAT_MAX,
            1024i64,
            308i64,
            FLOAT_MIN,
            (-1021) as i64,
            (-307) as i64,
            15i64,
            53i64,
            FLOAT_EPSILON,
            2i64,
            1i64,
        ),
{
    (FLOAT_MAX, 1024, 308, FLOAT_MIN, -1021, -307, 15, 53, FLOAT_EPSILON, 2, 1)
}

// ---------------------------------------------------------------------------
// The bytes of doubles
// ---------------------------------------------------------------------------

/// The `n` bytes of a bit pattern, least significant first or last.
pub open spec fn packed(bits: nat, n: nat, little: bool) -> Seq<u8> {
    if little {
        bytes::le_bytes(bits, n)
    } else {
        bytes::le_bytes(bits, n).reverse()
    }
}

/// The bit pattern of some bytes.
pub open spec fn unpacked(b: Seq<u8>, little: bool) -> nat {
    if little {
        crate::value::le_value(b)
    } else {
        crate::value::le_value(b.reverse())
    }
}

fn reversed(v: &Vec<u8>) -> (r: Vec<u8>)
    ensures
        r@ == v@.reverse(),
{
    let mut out: Vec<u8> = Vec::new();
    let mut i: usize = v.len();
    while i > 0
        invariant
            i <= v@.len(),
            out@.len() == v@.len() - i,
            forall|k: int| 0 <= k < out@.len() ==> out@[k] == v@[v@.len() - 1 - k],
        decreases i,
    {
        i = i - 1;
        out.push(v[i]);
    }
    assert(out@ =~= v@.reverse());
    out
}

fn pack(bits: u64, n: usize, little: bool) -> (r: Vec<u8>)
    requires
        n <= 8,
    ensures
        r@ == packed(bits as nat, n as nat, little),
{
    let mut b: Vec<u8> = bytes::zero_block(n);
    put_le(&mut b, 0, bits, n);
    proof {
        bytes::lemma_le_bytes(bits as nat, n as nat);
    }
    assert(b@ =~= bytes::le_bytes(bits as nat, n as nat));
    if little {
        b
    } else {
        reversed(&b)
    }
}

fn unpack(b: &Vec<u8>, little: bool) -> (r: u64)
    requires
        b@.len() <= 8,
    ensures
        r as nat == unpacked(b@, little),
{
    if little {
        assert(b@.subrange(0, b@.len() as int) =~= b@);
        get_le(b.as_slice(), 0, b.len())
    } else {
        let v: Vec<u8> = reversed(b);
        assert(v@.subrange(0, v@.len() as int) =~= v@);
        get_le(v.as_slice(), 0, v.len())
    }
}

/// The four bytes of a single-precision float; none where there is nowhere to
/// put them.
pub fn _PyFloat_Pack4(bits: u32, has_buffer: bool, little_endian: i32) -> (r: Option<Vec<u8>>)
    ensures
        match r {
            Some(v) => has_buffer && v@ == packed(bits as nat, 4, little_endian != 0),
            None => !has_buffer,
        },
{
    if has_buffer {
        Some(pack(bits as u64, 4, little_endian != 0))
    } else {
        None
    }
}

/// The eight bytes of a double; none where there is nowhere to put them.
pub fn _PyFloat_Pack8(bits: u64, has_buffer: bool, little_endian: i32) -> (r: Option<Vec<u8>>)
    ensures
        match r {
            Some(v) => has_buffer && v@ == packed(bits as nat, 8, little_endian != 0),
            None => !has_buffer,
        },
{
    if has_buffer {
        Some(pack(bits, 8, little_endian != 0))
    } else {
        None
    }
}

/// The single-precision float of four bytes; none where there are no bytes.
pub fn _PyFloat_Unpack4(b: Option<&Vec<u8>>, little_endian: i32) -> (r: Option<u32>)
    requires
        b matches Some(v) ==> v@.len() == 4,
    ensures
        match b {
            Some(v) => r matches Some(x) && x as nat == unpacked(v@, little_endian != 0),
            None => r is None,
        },
{
    match b {
        Some(v) => {
            proof {
                bignum::lemma_le_bound(v@);
                bignum::lemma_le_bound(v@.reverse());
                lemma2_to64();
            }
            Some(unpack(v, little_endian != 0) as u32)
        },
        None => None,
    }
}

/// The double of eight bytes; none where there are no bytes.
pub fn _PyFloat_Unpack8(b: Option<&Vec<u8>>, little_endian: i32) -> (r: Option<u64>)
    requires
        b matches Some(v) ==> v@.len() == 8,
    ensures
        match b {
            Some(v) => r matches Some(x) && x as nat == unpacked(v@, little_endian != 0),
            None => r is None,
        },
{
    match b {
        Some(v) => Some(unpack(v, little_endian != 0)),
        None => None,
    }
}

/// The four bytes of a single-precision float.
pub fn PyFloat_Pack4(bits: u32, has_buffer: bool, little_endian: i32) -> (r: Option<Vec<u8>>)
    ensures
        match r {
            Some(v) => has_buffer && v@ == packed(bits as nat, 4, little_endian != 0),
            None => !has_buffer,
        },
{
    _PyFloat_Pack4(bits, has_buffer, little_endian)
}

/// The eight bytes of a double.
pub fn PyFloat_Pack8(bits: u64, has_buffer: bool, little_endian: i32) -> (r: Option<Vec<u8>>)
    ensures
        match r {
            Some(v) => has_buffer && v@ == packed(bits as nat, 8, little_endian != 0),
            None => !has_buffer,
        },
{
    _PyFloat_Pack8(bits, has_buffer, little_endian)
}

/// The single-precision float of four bytes.
pub fn PyFloat_Unpack4(b: Option<&Vec<u8>>, little_endian: i32) -> (r: Option<u32>)
    requires
        b matches Some(v) ==> v@.len() == 4,
    ensures
        match b {
            Some(v) => r matches Some(x) && x as nat == unpacked(v@, little_endian != 0),
            None => r is None,
        },
{
    _PyFloat_Unpack4(b, little_endian)
}

/// The double of eight bytes.
pub fn PyFloat_Unpack8(b: Option<&Vec<u8>>, little_endian: i32) -> (r: Option<u64>)
    requires
        b matches Some(v) ==> v@.len() == 8,
    ensures
        match b {
            Some(v) => r matches Some(x) && x as nat == unpacked(v@, little_endian != 0),
            None => r is None,
        },
{
    _PyFloat_Unpack8(b, little_endian)
}

/// The bytes of a double give the double back, whichever end comes first.
pub proof fn law_pack_round_trip(bits: nat, n: nat, little: bool)
    requires
        bits < pow2(8 * n),
    ensures
        packed(bits, n, little).len() == n,
        unpacked(packed(bits, n, little), little) == bits,
{
    bytes::lemma_le_bytes(bits, n);
    let b = bytes::le_bytes(bits, n);
    assert(b.reverse().reverse() =~= b);
}

} // verus!
