//! Integers, floats and slices.

use weavepy_capi::errors::{ExcKind, Failure};
use weavepy_capi::floats::{
    call_number_dunder, complex_as_ccomplex, debug_type_name, float_number_protocol,
    PyComplex_ImagAsDouble, PyComplex_RealAsDouble, PyFloat_AsDouble, PyFloat_GetInfo,
    PyFloat_GetMax, PyFloat_GetMin, PyFloat_Pack4, PyFloat_Pack8, PyFloat_Unpack4,
    PyFloat_Unpack8, PyLong_AsDouble, PyLong_Check, Attr, FloatProtocol, Real,
};
use weavepy_capi::mypyc_tail::{decode_raw_long, _PyLong_NumBits};
use weavepy_capi::numbers::{
    PyLong_AsLong, PyLong_AsLongAndOverflow, PyLong_AsLongLongAndOverflow, PyLong_AsUnsignedLong, PyLong_AsUnsignedLongMask,
    PyLong_FromDouble, PyLong_FromString, PyLong_FromUnsignedLong, PyLong_GetInfo,
    _PyLong_AsByteArray, _PyLong_FromByteArray,
};
use weavepy_capi::layout::round_up;
use weavepy_capi::slice::{
    PySlice_AdjustIndices, PySlice_GetIndices, PySlice_GetIndicesEx, PySlice_Unpack,
};
use weavepy_capi::value::{BigNum, Native, Object, Sign};

fn raised(f: Failure) -> (ExcKind, String) {
    match f {
        Failure::Raised(e) => (e.kind, e.msg.into_iter().collect()),
        Failure::Silent => panic!("nothing was raised"),
    }
}

fn t(s: &str) -> Vec<char> {
    s.chars().collect()
}

fn big(sign: Sign, mag: &[u8]) -> Object {
    Object::Long(BigNum { sign, mag: mag.to_vec() })
}

fn parse(s: &str, base: i32) -> Result<(Object, usize), Failure> {
    PyLong_FromString(Some(s.as_bytes()), true, base)
}

#[test]
fn from_string_reads_every_base() {
    assert!(matches!(parse("12", 10), Ok((Object::Int(12), 2))));
    assert!(matches!(parse("ff", 16), Ok((Object::Int(255), 2))));
    assert!(matches!(parse("0x1F", 0), Ok((Object::Int(31), 4))));
    assert!(matches!(parse("-0b101", 0), Ok((Object::Int(-5), 6))));
    assert!(matches!(parse("  1_000", 10), Ok((Object::Int(1000), 7))));
    assert!(matches!(parse("z", 36), Ok((Object::Int(35), 1))));
}

#[test]
fn from_string_reads_large_integers() {
    match parse("18446744073709551616", 10) {
        Ok((Object::Long(b), 20)) => {
            assert_eq!(b.sign, Sign::Plus);
            assert_eq!(b.mag, vec![0, 0, 0, 0, 0, 0, 0, 0, 1]);
        }
        other => panic!("{other:?}"),
    }
}

#[test]
fn from_string_refuses_what_is_no_literal() {
    assert_eq!(
        raised(parse("12", 1).unwrap_err()),
        (ExcKind::ValueError, "int() base must be >= 2 and <= 36, or 0".to_string())
    );
    assert_eq!(raised(parse("x", 10).unwrap_err()).0, ExcKind::ValueError);
    assert_eq!(raised(parse("", 10).unwrap_err()).0, ExcKind::ValueError);
}

#[test]
fn as_long_converts_and_overflows() {
    assert_eq!(PyLong_AsLong(Some(&Object::Int(-7)), None).unwrap(), -7);
    assert_eq!(PyLong_AsLong(Some(&Object::Bool(true)), None).unwrap(), 1);
    assert_eq!(PyLong_AsLong(Some(&Object::Float(2.9f64.to_bits())), None).unwrap(), 2);
    assert_eq!(
        raised(PyLong_AsLong(None, None).unwrap_err()),
        (ExcKind::TypeError, "PyLong_AsLong: NULL".to_string())
    );
    let wide = big(Sign::Plus, &[0, 0, 0, 0, 0, 0, 0, 0, 1]);
    assert_eq!(raised(PyLong_AsLong(Some(&wide), None).unwrap_err()).0, ExcKind::OverflowError);
    assert_eq!(PyLong_AsLong(Some(&Object::PyNone), Some(&Object::Int(4))).unwrap(), 4);
    assert!(matches!(PyLong_AsLong(Some(&Object::PyNone), None), Err(Failure::Silent)));
    assert_eq!(
        raised(PyLong_AsLong(Some(&Object::PyNone), Some(&Object::PyNone)).unwrap_err()).0,
        ExcKind::TypeError
    );
}

#[test]
fn overflow_flag_tells_the_direction() {
    let up = big(Sign::Plus, &[0, 0, 0, 0, 0, 0, 0, 0, 1]);
    let down = big(Sign::Minus, &[0, 0, 0, 0, 0, 0, 0, 0, 1]);
    assert_eq!(PyLong_AsLongAndOverflow(Some(&up), None).unwrap(), (-1, 1));
    assert_eq!(PyLong_AsLongAndOverflow(Some(&down), None).unwrap(), (-1, -1));
    assert_eq!(PyLong_AsLongAndOverflow(Some(&Object::Int(3)), None).unwrap(), (3, 0));
    let f = Object::Float(2.5f64.to_bits());
    match PyLong_AsLongAndOverflow(Some(&f), None).unwrap_err() {
        Failure::Raised(e) => assert!(matches!(e.kind, ExcKind::TypeError)),
        other => panic!("not raised: {other:?}"),
    }
    assert!(PyLong_AsLongLongAndOverflow(Some(&f), None).is_err());
}

#[test]
fn unsigned_conversions_check_or_mask() {
    assert_eq!(PyLong_AsUnsignedLong(Some(&Object::Int(5)), None).unwrap(), 5);
    assert_eq!(
        raised(PyLong_AsUnsignedLong(Some(&Object::Int(-1)), None).unwrap_err()).0,
        ExcKind::OverflowError
    );
    assert_eq!(PyLong_AsUnsignedLongMask(Some(&Object::Int(-1))).unwrap(), u64::MAX);
    match PyLong_FromUnsignedLong(u64::MAX) {
        Object::Long(b) => assert_eq!(b.mag, vec![255; 8]),
        other => panic!("{other:?}"),
    }
    assert_eq!(PyLong_GetInfo(), (30, 4));
}

#[test]
fn from_double_truncates() {
    assert!(matches!(PyLong_FromDouble((-3.7f64).to_bits()), Ok(Object::Int(-3))));
    assert_eq!(
        raised(PyLong_FromDouble(f64::NAN.to_bits()).unwrap_err()),
        (ExcKind::ValueError, "cannot convert float NaN to integer".to_string())
    );
    assert_eq!(
        raised(PyLong_FromDouble(f64::INFINITY.to_bits()).unwrap_err()).0,
        ExcKind::OverflowError
    );
    match PyLong_FromDouble(18446744073709551616.0f64.to_bits()) {
        Ok(Object::Long(b)) => assert_eq!(b.mag, vec![0, 0, 0, 0, 0, 0, 0, 0, 1]),
        other => panic!("{other:?}"),
    }
}

#[test]
fn byte_arrays_round_trip() {
    for (v, signed) in [(-2i64, 1), (513, 0), (0, 0), (-32768, 1)] {
        for little in [0, 1] {
            let b = _PyLong_AsByteArray(Some(&Object::Int(v)), None, false, 4, little, signed)
                .unwrap();
            assert_eq!(b.len(), 4);
            match _PyLong_FromByteArray(Some(&b), little, signed) {
                Ok(Object::Int(x)) => assert_eq!(x, v),
                other => panic!("{other:?}"),
            }
        }
    }
    assert_eq!(
        _PyLong_AsByteArray(Some(&Object::Int(513)), None, false, 4, 1, 0).unwrap(),
        vec![1, 2, 0, 0]
    );
    assert_eq!(
        raised(
            _PyLong_AsByteArray(Some(&Object::Int(70000)), None, false, 2, 1, 0).unwrap_err()
        )
        .0,
        ExcKind::OverflowError
    );
}

#[test]
fn raw_digits_denote_an_integer() {
    assert!(matches!(decode_raw_long(8, &[5]), Object::Int(5)));
    assert!(matches!(decode_raw_long(10, &[5]), Object::Int(-5)));
    assert!(matches!(decode_raw_long(16, &[5, 7]), Object::Int(7516192773)));
    match decode_raw_long(24, &[0, 0, 16]) {
        Object::Long(b) => assert_eq!(b.mag, vec![0, 0, 0, 0, 0, 0, 0, 0, 1]),
        other => panic!("{other:?}"),
    }
}

#[test]
fn num_bits_counts_the_magnitude() {
    assert_eq!(_PyLong_NumBits(&Object::Int(0)).unwrap(), 0);
    assert_eq!(_PyLong_NumBits(&Object::Int(-8)).unwrap(), 4);
    assert_eq!(_PyLong_NumBits(&big(Sign::Plus, &[0, 1])).unwrap(), 9);
}

#[test]
fn doubles_come_from_numbers() {
    assert!(matches!(PyLong_AsDouble(Some(&Object::Int(3))), Ok(Real::OfInt(3))));
    assert!(matches!(PyLong_AsDouble(Some(&Object::Bool(true))), Ok(Real::OfBool(true))));
    assert_eq!(
        raised(PyLong_AsDouble(Some(&Object::PyNone)).unwrap_err()).1,
        "an integer is required"
    );
    assert_eq!(raised(PyLong_AsDouble(None).unwrap_err()).1, "PyLong_AsDouble: NULL");
    let half = 0.5f64.to_bits();
    match PyFloat_AsDouble(Some(&Object::Float(half)), FloatProtocol::NoProtocol, &t("float")) {
        Ok(Real::Canonical(b)) => assert_eq!(b, half),
        other => panic!("{other:?}"),
    }
    assert_eq!(
        raised(
            PyFloat_AsDouble(Some(&Object::PyNone), FloatProtocol::NoProtocol, &t("NoneType"))
                .unwrap_err()
        )
        .1,
        "must be real number, not NoneType"
    );
    assert_eq!(
        raised(PyFloat_AsDouble(None, FloatProtocol::NoProtocol, &t("x")).unwrap_err()).1,
        "PyFloat_AsDouble: NULL"
    );
    assert!(PyLong_Check(Some(&Object::Bool(false))));
    assert!(!PyLong_Check(None));
}

#[test]
fn float_protocol_asks_in_order() {
    let three = Object::Int(3);
    let two = Object::Float(2.0f64.to_bits());
    let none = Object::PyNone;
    assert!(matches!(
        float_number_protocol(true, Attr::Gave(&two), Attr::Gave(&three), Attr::Missing),
        FloatProtocol::Value(Real::Bits(_))
    ));
    assert!(matches!(
        float_number_protocol(false, Attr::Gave(&two), Attr::Gave(&three), Attr::Missing),
        FloatProtocol::Value(Real::OfInt(3))
    ));
    assert!(matches!(
        float_number_protocol(true, Attr::Gave(&none), Attr::Missing, Attr::Gave(&three)),
        FloatProtocol::Value(Real::OfInt(3))
    ));
    assert!(matches!(
        float_number_protocol(true, Attr::Raised, Attr::Gave(&three), Attr::Missing),
        FloatProtocol::Raised(Failure::Silent)
    ));
    assert!(matches!(
        float_number_protocol(false, Attr::Missing, Attr::Missing, Attr::Missing),
        FloatProtocol::NoProtocol
    ));
    match float_number_protocol(false, Attr::Missing, Attr::Gave(&none), Attr::Gave(&three)) {
        FloatProtocol::Raised(f) => {
            assert_eq!(raised(f), (ExcKind::TypeError, "__float__ returned non-float".to_string()))
        }
        other => panic!("{other:?}"),
    }
    assert!(matches!(call_number_dunder(false, None), Attr::Missing));
    assert!(matches!(call_number_dunder(true, None), Attr::Raised));
    assert!(matches!(call_number_dunder(true, Some(&three)), Attr::Gave(Object::Int(3))));
}

#[test]
fn complex_parts_are_read() {
    let c = Object::Complex(1.0f64.to_bits(), 2.0f64.to_bits());
    let n = t("T");
    assert!(matches!(
        PyComplex_RealAsDouble(Some(&c), None, Attr::Missing, FloatProtocol::NoProtocol, &n),
        Ok(Real::Canonical(_))
    ));
    assert!(matches!(
        PyComplex_ImagAsDouble(Some(&Object::Int(3)), None, Attr::Missing),
        Ok(Real::Zero)
    ));
    assert!(matches!(
        complex_as_ccomplex(
            Some(&Object::Bool(true)),
            None,
            Attr::Missing,
            FloatProtocol::NoProtocol,
            &n
        ),
        Ok((Real::OfBool(true), Real::Zero))
    ));
    assert_eq!(
        raised(
            complex_as_ccomplex(None, None, Attr::Missing, FloatProtocol::NoProtocol, &n)
                .unwrap_err()
        )
        .1,
        "PyComplex_AsCComplex: NULL"
    );
    let flag = Object::Bool(true);
    assert_eq!(
        raised(
            complex_as_ccomplex(
                Some(&Object::PyNone),
                None,
                Attr::Gave(&flag),
                FloatProtocol::NoProtocol,
                &n
            )
            .unwrap_err()
        )
        .1,
        "__complex__ should return a complex object"
    );
    assert_eq!(
        raised(
            PyComplex_RealAsDouble(
                Some(&Object::PyNone),
                None,
                Attr::Gave(&flag),
                FloatProtocol::NoProtocol,
                &n
            )
            .unwrap_err()
        )
        .1,
        "__complex__ returned non-complex"
    );
}

#[test]
fn doubles_pack_both_ways() {
    let bits = 1.0f64.to_bits();
    assert_eq!(PyFloat_Pack8(bits, true, 0).unwrap(), vec![0x3f, 0xf0, 0, 0, 0, 0, 0, 0]);
    assert_eq!(PyFloat_Pack8(bits, true, 1).unwrap(), vec![0, 0, 0, 0, 0, 0, 0xf0, 0x3f]);
    for little in [0, 1] {
        let b = PyFloat_Pack8(bits, true, little).unwrap();
        assert_eq!(PyFloat_Unpack8(Some(&b), little), Some(bits));
        let single = 2.5f32.to_bits();
        let b = PyFloat_Pack4(single, true, little).unwrap();
        assert_eq!(PyFloat_Unpack4(Some(&b), little), Some(single));
    }
    assert_eq!(PyFloat_Pack8(bits, false, 1), None);
    assert_eq!(PyFloat_Unpack4(None, 1), None);
}

#[test]
fn float_limits_are_those_of_a_double() {
    assert_eq!(PyFloat_GetMax(), f64::MAX.to_bits());
    assert_eq!(PyFloat_GetMin(), f64::MIN_POSITIVE.to_bits());
    let i = PyFloat_GetInfo();
    assert_eq!(i.8, f64::EPSILON.to_bits());
    assert_eq!((i.1, i.2, i.4, i.5), (1024, 308, -1021, -307));
}

#[test]
fn type_names_say_which_link_is_missing() {
    assert_eq!(debug_type_name(true, false, None), t("<null>"));
    assert_eq!(debug_type_name(false, true, None), t("<null-type>"));
    assert_eq!(debug_type_name(false, false, None), t("<null-name>"));
    assert_eq!(debug_type_name(false, false, Some(&t("int"))), t("int"));
}

fn bound(v: Object) -> Native {
    Native { id: 0, val: v }
}

fn a_slice(start: Object, stop: Object, step: Object) -> Object {
    Object::Slice(vec![bound(start), bound(stop), bound(step)])
}

#[test]
fn slice_bounds_are_resolved() {
    let s = a_slice(Object::Int(-3), Object::PyNone, Object::PyNone);
    assert_eq!(PySlice_GetIndicesEx(Some(&s), None, None, None, 10).unwrap(), (7, 10, 1, 3));
    let s = a_slice(Object::PyNone, Object::PyNone, Object::Int(-1));
    assert_eq!(PySlice_GetIndicesEx(Some(&s), None, None, None, 4).unwrap(), (3, -1, -1, 4));
    assert_eq!(
        PySlice_GetIndices(Some(&s), None, None, None, 4).unwrap(),
        PySlice_Unpack(Some(&s), None, None, None).unwrap()
    );
    assert_eq!(PySlice_AdjustIndices(5, 1, 4, 2), (1, 4, 2));
    assert_eq!(PySlice_AdjustIndices(-3, 1, -1, 1), (-3, 0, 3));
}

#[test]
fn slice_step_zero_is_refused() {
    let s = a_slice(Object::PyNone, Object::PyNone, Object::Int(0));
    assert_eq!(
        raised(PySlice_Unpack(Some(&s), None, None, None).unwrap_err()),
        (ExcKind::ValueError, "slice step cannot be zero".to_string())
    );
}

const TWO_64: [u8; 9] = [0, 0, 0, 0, 0, 0, 0, 0, 1];

#[test]
fn large_integers_convert_when_they_fit() {
    assert_eq!(PyLong_AsLong(Some(&big(Sign::Plus, &[5])), None).unwrap(), 5);
    assert_eq!(PyLong_AsLong(Some(&big(Sign::Minus, &[5])), None).unwrap(), -5);
    let half = big(Sign::Plus, &[0, 0, 0, 0, 0, 0, 0, 0x80]);
    assert_eq!(PyLong_AsUnsignedLong(Some(&half), None).unwrap(), 1u64 << 63);
    assert!(PyLong_AsUnsignedLong(Some(&big(Sign::Plus, &TWO_64)), None).is_err());
}

#[test]
fn large_integers_are_masked() {
    let up = big(Sign::Plus, &[5, 0, 0, 0, 0, 0, 0, 0, 1]);
    let down = big(Sign::Minus, &[5, 0, 0, 0, 0, 0, 0, 0, 1]);
    assert_eq!(PyLong_AsUnsignedLongMask(Some(&up)).unwrap(), 5);
    assert_eq!(PyLong_AsUnsignedLongMask(Some(&down)).unwrap(), u64::MAX - 4);
}

#[test]
fn large_integers_cross_as_bytes() {
    let up = big(Sign::Plus, &TWO_64);
    let b = _PyLong_AsByteArray(Some(&up), None, false, 10, 1, 0).unwrap();
    assert_eq!(b, vec![0, 0, 0, 0, 0, 0, 0, 0, 1, 0]);
    match _PyLong_FromByteArray(Some(&b), 1, 0) {
        Ok(Object::Long(x)) => assert_eq!((x.sign, x.mag), (Sign::Plus, TWO_64.to_vec())),
        other => panic!("{other:?}"),
    }
    let down = big(Sign::Minus, &TWO_64);
    let b = _PyLong_AsByteArray(Some(&down), None, false, 9, 0, 1).unwrap();
    assert_eq!(b, vec![255, 0, 0, 0, 0, 0, 0, 0, 0]);
    match _PyLong_FromByteArray(Some(&b), 0, 1) {
        Ok(Object::Long(x)) => assert_eq!((x.sign, x.mag), (Sign::Minus, TWO_64.to_vec())),
        other => panic!("{other:?}"),
    }
}

#[test]
fn large_literals_keep_their_sign() {
    match parse("-18446744073709551616", 10) {
        Ok((Object::Long(b), 21)) => {
            assert_eq!((b.sign, b.mag), (Sign::Minus, TWO_64.to_vec()))
        }
        other => panic!("{other:?}"),
    }
    match decode_raw_long(26, &[1, 0, 16]) {
        Object::Long(b) => {
            assert_eq!((b.sign, b.mag), (Sign::Minus, vec![1, 0, 0, 0, 0, 0, 0, 0, 1]))
        }
        other => panic!("{other:?}"),
    }
}

#[test]
fn slice_bounds_may_be_large_integers() {
    let s = a_slice(big(Sign::Plus, &[2]), Object::PyNone, Object::PyNone);
    assert_eq!(PySlice_GetIndicesEx(Some(&s), None, None, None, 5).unwrap(), (2, 5, 1, 3));
    let s = a_slice(big(Sign::Plus, &TWO_64), Object::PyNone, Object::PyNone);
    assert_eq!(
        raised(PySlice_Unpack(Some(&s), None, None, None).unwrap_err()).1,
        "slice start must be an integer"
    );
}

#[test]
fn sizes_are_rounded_up_to_the_alignment() {
    assert_eq!(round_up(0, 8), 0);
    assert_eq!(round_up(1, 8), 8);
    assert_eq!(round_up(16, 16), 16);
    assert_eq!(round_up(17, 16), 32);
    assert_eq!(round_up(round_up(5, 4), 4), round_up(5, 4));
}

#[test]
fn negative_integers_have_their_two_s_complement_in_unsigned_form() {
    let one = Object::Int(-1);
    assert_eq!(_PyLong_AsByteArray(Some(&one), None, false, 2, 1, 0).unwrap(), vec![255, 255]);
    let v = Object::Int(-300);
    assert_eq!(_PyLong_AsByteArray(Some(&v), None, false, 2, 1, 0).unwrap(), vec![0xd4, 0xfe]);
    assert!(_PyLong_AsByteArray(Some(&v), None, false, 1, 1, 0).is_err());
}
