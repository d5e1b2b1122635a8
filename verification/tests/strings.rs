//! Texts and bytes.

use weavepy_capi::errors::{ExcKind, Failure};
use weavepy_capi::mypyc_tail::{PyUnicode_Count, PyUnicode_RSplit, _PyBytes_Join};
use weavepy_capi::search::{find, rfind};
use weavepy_capi::strings::{
    JoinInput, JoinItem, PyByteArray_Concat, PyByteArray_Resize, PyBytes_AsString, PyBytes_Concat,
    PyUnicode_AsASCIIString, PyUnicode_AsLatin1String, PyUnicode_AsUTF8, PyUnicode_AsUTF8String,
    PyUnicode_Compare, PyUnicode_Concat, PyUnicode_Contains, PyUnicode_DecodeLatin1,
    PyUnicode_DecodeUTF8, PyUnicode_Find, PyUnicode_FromOrdinal, PyUnicode_FromString,
    PyUnicode_FromStringAndSize, PyUnicode_GetLength, PyUnicode_IsIdentifier, PyUnicode_Join,
    PyUnicode_Replace, PyUnicode_Split, PyUnicode_Splitlines, PyUnicode_Substring,
    PyUnicode_Tailmatch,
};
use weavepy_capi::utf8::{decode, encode};
use weavepy_capi::value::Object;

fn t(s: &str) -> Vec<char> {
    s.chars().collect()
}

fn s(x: &str) -> Object {
    Object::Str(t(x))
}

fn strs(v: Vec<Vec<char>>) -> Vec<String> {
    v.into_iter().map(|x| x.into_iter().collect()).collect()
}

fn raised(f: Failure) -> (ExcKind, String) {
    match f {
        Failure::Raised(e) => (e.kind, e.msg.into_iter().collect()),
        Failure::Silent => panic!("nothing was raised"),
    }
}

#[test]
fn utf8_round_trips() {
    for x in ["", "abc", "h\u{e9}llo", "\u{20ac}", "\u{1f600}"] {
        assert_eq!(encode(&t(x)), x.as_bytes());
        assert_eq!(decode(x.as_bytes()), Some(t(x)));
    }
    assert_eq!(decode(&[0xff]), None);
    assert_eq!(decode(&[0xed, 0xa0, 0x80]), None);
}

#[test]
fn from_string_decodes_and_encodes_back() {
    let text = PyUnicode_FromString(Some("d\u{e9}j\u{e0}".as_bytes())).unwrap();
    assert_eq!(text, t("d\u{e9}j\u{e0}"));
    assert_eq!(
        PyUnicode_AsUTF8String(Some(&Object::Str(text))).unwrap(),
        "d\u{e9}j\u{e0}".as_bytes()
    );
    assert!(matches!(PyUnicode_FromString(None), Err(Failure::Silent)));
    assert_eq!(PyUnicode_FromStringAndSize(Some(b"hello"), 2).unwrap(), t("he"));
    assert!(matches!(PyUnicode_FromStringAndSize(None, 1), Err(Failure::Silent)));
    assert_eq!(PyUnicode_FromStringAndSize(None, 0).unwrap(), t(""));
    assert_eq!(PyUnicode_DecodeUTF8(Some(b"xyz"), 3).unwrap(), t("xyz"));
    assert_eq!(PyUnicode_AsASCIIString(Some(&s("ab"))).unwrap(), b"ab");
}

#[test]
fn latin1_round_trips() {
    let text = PyUnicode_DecodeLatin1(Some(&[0x41, 0xe9]), 2).unwrap();
    assert_eq!(text, t("A\u{e9}"));
    assert_eq!(PyUnicode_AsLatin1String(Some(&Object::Str(text))).unwrap(), vec![0x41, 0xe9]);
}

#[test]
fn ordinals_outside_unicode_are_refused() {
    assert_eq!(PyUnicode_FromOrdinal(0x20ac).unwrap(), t("\u{20ac}"));
    assert_eq!(raised(PyUnicode_FromOrdinal(-1).unwrap_err()).0, ExcKind::ValueError);
    assert_eq!(raised(PyUnicode_FromOrdinal(0xd800).unwrap_err()).0, ExcKind::ValueError);
}

#[test]
fn searching_finds_the_first_and_the_last() {
    assert_eq!(find(&t("abcabc"), &t("bc"), 0), Some(1));
    assert_eq!(rfind(&t("abcabc"), &t("bc")), Some(4));
    assert_eq!(find(&t("abc"), &t("x"), 0), None);
    assert_eq!(
        PyUnicode_Find(Some(&s("abcabc")), Some(&s("bc")), 2, 6, 1).unwrap(),
        Some(4)
    );
    assert_eq!(PyUnicode_Find(Some(&s("abcabc")), Some(&s("bc")), 0, 6, -1).unwrap(), Some(4));
    assert_eq!(PyUnicode_Find(Some(&s("abc")), Some(&s("x")), 0, 3, 1).unwrap(), None);
    assert!(PyUnicode_Contains(Some(&s("abc")), Some(&s("b"))).unwrap());
}

#[test]
fn comparing_orders_texts() {
    assert_eq!(PyUnicode_Compare(Some(&s("a")), Some(&s("b"))).unwrap(), -1);
    assert_eq!(PyUnicode_Compare(Some(&s("b")), Some(&s("a"))).unwrap(), 1);
    assert_eq!(PyUnicode_Compare(Some(&s("a")), Some(&s("a"))).unwrap(), 0);
    assert_eq!(
        raised(PyUnicode_Compare(Some(&s("a")), Some(&Object::Int(1))).unwrap_err()).0,
        ExcKind::TypeError
    );
}

#[test]
fn identifiers_follow_the_character_classes() {
    assert!(PyUnicode_IsIdentifier(Some(&s("_a1"))));
    assert!(PyUnicode_IsIdentifier(Some(&s("\u{e9}t\u{e9}"))));
    assert!(!PyUnicode_IsIdentifier(Some(&s("1a"))));
    assert!(!PyUnicode_IsIdentifier(Some(&s("a b"))));
    assert!(!PyUnicode_IsIdentifier(Some(&s(""))));
}

#[test]
fn splitting_at_a_separator_and_at_whitespace() {
    assert_eq!(
        strs(PyUnicode_Split(Some(&s("a,b,c")), Some(&s(",")), 1).unwrap()),
        vec!["a", "b,c"]
    );
    assert_eq!(
        strs(PyUnicode_Split(Some(&s("  a \u{2003}b ")), None, -1).unwrap()),
        vec!["a", "b"]
    );
    assert_eq!(strs(PyUnicode_RSplit(&s("a,b,c"), Some(&s(",")), 1).unwrap()), vec!["a,b", "c"]);
    assert_eq!(
        raised(PyUnicode_RSplit(&s("a"), Some(&s("")), -1).unwrap_err()),
        (ExcKind::ValueError, "empty separator".to_string())
    );
    assert_eq!(
        raised(PyUnicode_Split(Some(&s("a")), Some(&Object::Int(1)), -1).unwrap_err()).1,
        "PyUnicode_Split: separator must be str or None"
    );
    assert_eq!(
        strs(PyUnicode_Splitlines(Some(&s("a\nb\r\nc")), 0).unwrap()),
        vec!["a", "b", "", "c"]
    );
    assert_eq!(
        strs(PyUnicode_Splitlines(Some(&s("a\nb")), 1).unwrap()),
        vec!["a\n", "b"]
    );
}

#[test]
fn joining_and_replacing() {
    let items = JoinInput::Items(vec![JoinItem::Str(t("a")), JoinItem::Str(t("b"))]);
    assert_eq!(PyUnicode_Join(Some(&s("-")), Some(&items)).unwrap(), t("a-b"));
    let bad = JoinInput::Items(vec![JoinItem::Str(t("a")), JoinItem::Other(t("int"))]);
    assert_eq!(
        raised(PyUnicode_Join(Some(&s("-")), Some(&bad)).unwrap_err()).0,
        ExcKind::TypeError
    );
    assert_eq!(
        PyUnicode_Replace(Some(&s("aXbXc")), Some(&s("X")), Some(&s("--")), 1).unwrap(),
        t("a--bXc")
    );
    assert_eq!(
        PyUnicode_Replace(Some(&s("aXbXc")), Some(&s("X")), Some(&s("")), -1).unwrap(),
        t("abc")
    );
    assert_eq!(PyUnicode_Count(&s("aXbX"), &s("X"), 0, 4).unwrap(), 2);
}

#[test]
fn pieces_of_texts() {
    assert_eq!(PyUnicode_Concat(Some(&s("a")), Some(&s("b"))).unwrap(), t("ab"));
    assert_eq!(PyUnicode_GetLength(Some(&s("\u{20ac}x"))).unwrap(), 2);
    assert_eq!(PyUnicode_Substring(Some(&s("hello")), 1, 3).unwrap(), t("el"));
    assert_eq!(PyUnicode_Tailmatch(Some(&s("hello")), Some(&s("lo")), 0, 5, 1), Some(true));
    assert_eq!(PyUnicode_Tailmatch(Some(&s("hello")), Some(&s("he")), 0, 5, -1), Some(true));
}

#[test]
fn utf8_of_what_is_no_str_is_refused() {
    assert_eq!(
        raised(PyUnicode_AsUTF8String(Some(&Object::Int(1))).unwrap_err()),
        (ExcKind::TypeError, "expected str".to_string())
    );
    assert!(PyUnicode_AsUTF8(Some(&Object::Int(1))).is_err());
}

#[test]
fn bytes_are_joined_and_read() {
    let a = Object::Bytes(b"ab".to_vec());
    let b = Object::Bytes(b"c".to_vec());
    assert_eq!(PyBytes_Concat(Some(&a), Some(&b)), Some(b"abc".to_vec()));
    assert_eq!(PyBytes_Concat(Some(&a), Some(&Object::Int(1))), None);
    assert!(PyBytes_AsString(Some(&a)).is_ok());
    assert!(PyBytes_AsString(Some(&Object::Int(1))).is_err());
    assert_eq!(
        _PyBytes_Join(&Object::Bytes(b"-".to_vec()), &vec![a, b], false).unwrap(),
        b"ab-c".to_vec()
    );
}

#[test]
fn byte_arrays_grow_and_shrink() {
    let mut o = Some(Object::ByteArray(vec![1, 2, 3]));
    assert!(PyByteArray_Resize(&mut o, 5).is_ok());
    assert!(matches!(&o, Some(Object::ByteArray(v)) if *v == vec![1, 2, 3, 0, 0]));
    assert!(PyByteArray_Resize(&mut o, 1).is_ok());
    assert!(matches!(&o, Some(Object::ByteArray(v)) if *v == vec![1]));
    let a = Object::ByteArray(vec![1]);
    let b = Object::Bytes(vec![2]);
    assert_eq!(PyByteArray_Concat(Some(&a), Some(&b)).unwrap(), vec![1, 2]);
}

#[test]
fn whitespace_is_what_has_the_property() {
    let mut white: Vec<u32> = (0x9..=0xd).chain(0x2000..=0x200a).collect();
    white.extend([0x20, 0x85, 0xa0, 0x1680, 0x2028, 0x2029, 0x202f, 0x205f, 0x3000]);
    for n in 0..0x11_0000u32 {
        if let Some(c) = char::from_u32(n) {
            let text = s(&format!("a{c}b"));
            let parts = PyUnicode_Split(Some(&text), None, -1).unwrap().len();
            assert_eq!(parts == 2, white.contains(&n), "U+{n:04X}");
        }
    }
}
