//! Texts under construction: C code writes their characters in place.

use vstd::prelude::*;
use crate::bytes;
use crate::bytes::put_units;
use crate::errors;
use crate::errors::{raise, raise_str, ExcKind, Failure};
use crate::heap;
use crate::heap::{Heap, HeapV, Link, Store, StoreV};
use crate::layout;
use crate::layout::{
    codepoints, fill_head, get_half, kind_maxchar, read_codepoint, str_buffer_info, str_maxchar,
    unicode_form, width_of, write_codepoint, TextInfo, UnicodeForm, HEAD,
};
use crate::mirror;
use crate::mirror::is_mirror;
use crate::object;
use crate::object::{ExcFields, PyObject};
use crate::reading;
use crate::reading::{read_mirror, text_fits_in};
use crate::text::text;
use crate::value::{Native, ObjV, Object};

verus! {

broadcast use vstd::std_specs::hash::group_hash_axioms;

// ---------------------------------------------------------------------------
// Making
// ---------------------------------------------------------------------------

/// The storage of a text of `len` characters, all zero.
pub open spec fn blank_store(len: nat, f: UnicodeForm) -> StoreV {
    StoreV {
        obj: reading::none_nat(),
        link: Link::Unlinked,
        destructor: 0,
        tail: layout::text_head(
            len,
            f,
            (-1) as i64,
            (layout::text_size(len, f) - HEAD) as nat,
        ),
        aux: Seq::empty(),
        aux_addr: 0,
        str_buffer: true,
        bytes_buffer: false,
        list_synced: false,
        scalar_pinned: false,
        list_mint: None,
        exc: object::no_exc(),
    }
}

/// A text of this length fits into a block, and there is room for it.
pub open spec fn can_make(h: HeapV, len: nat, maxchar: u32) -> bool {
    let size = layout::text_size(len, layout::form_of(maxchar));
    size <= isize::MAX && heap::has_room(h, size as nat)
}

/// Make a text of `len` characters, all zero, that can hold characters up to
/// `maxchar`; NULL where it does not fit.
pub open spec fn made(h: HeapV, len: nat, maxchar: u32) -> (HeapV, usize) {
    let f = layout::form_of(maxchar);
    if !can_make(h, len, maxchar) {
        (h, 0)
    } else {
        let (h1, p) = heap::allocated(h, layout::text_size(len, f) as nat);
        (
            HeapV {
                heads: h1.heads.insert(
                    p,
                    PyObject { ob_refcnt: 1, ob_type: h1.facts.types.unicode_type },
                ),
                mem: h1.mem.insert(p, blank_store(len, f)),
                minted: h1.minted.insert(p),
                ..h1
            },
            p,
        )
    }
}

/// Make a text under construction.
pub fn new_unicode_mirror(h: &mut Heap, len: usize, maxchar: u32) -> (r: usize)
    ensures
        (final(h)@, r) == made(old(h)@, len as nat, maxchar),
{
    let f: UnicodeForm = unicode_form(maxchar);
    let wide: u128 = layout::text_plan(len, maxchar);
    if wide > isize::MAX as u128 {
        return 0;
    }
    let need: u128 = (wide / 256 + 1) * 256;
    if h.next as u128 + need > usize::MAX as u128 {
        return 0;
    }
    let size: usize = wide as usize;
    proof {
        assert((len + 1) * f.width >= 0) by (nonlinear_arith);
    }
    let p: usize = h.fresh_addr(size);
    let s = Store {
        obj: Native { id: 0, val: Object::PyNone },
        link: Link::Unlinked,
        destructor: 0,
        tail: fill_head(len, f, -1, size - HEAD),
        aux: Vec::new(),
        aux_addr: 0,
        str_buffer: true,
        bytes_buffer: false,
        list_synced: false,
        scalar_pinned: false,
        list_mint: None,
        exc: ExcFields::default(),
    };
    assert(s@ =~= blank_store(len as nat, f));
    let ty: usize = h.facts.types.unicode_type;
    h.heads.insert(p, PyObject { ob_refcnt: 1, ob_type: ty });
    h.minted.insert(p);
    h.put_store(p, s);
    assert(h@ =~= made(old(h)@, len as nat, maxchar).0);
    p
}

// ---------------------------------------------------------------------------
// Reading and writing characters
// ---------------------------------------------------------------------------

/// The object is a text under construction.
pub open spec fn buffer_at(h: HeapV, p: usize) -> bool {
    mirror::exactly(h, p, h.facts.types.unicode_type) && h.mem.contains_key(p)
        && h.mem[p].str_buffer
}

/// Whether an object is a text under construction.
pub fn is_str_buffer(h: &Heap, p: usize) -> (r: bool)
    ensures
        r == buffer_at(h@, p),
{
    if !is_mirror(h, p) || h.get_type(p) != h.facts.types.unicode_type {
        return false;
    }
    match h.store(p) {
        Some(s) => s.str_buffer,
        None => false,
    }
}

/// The object is a text under construction whose characters lie in its block.
pub open spec fn writable(h: HeapV, p: usize) -> bool {
    buffer_at(h, p) && layout::text_fits(h.mem[p].tail)
}

fn writable_info(h: &Heap, p: usize) -> (r: Option<TextInfo>)
    ensures
        r is Some == writable(h@, p),
        r matches Some(i) ==> {
            let tail = h@.mem[p].tail;
            &&& i.kind == layout::state_kind(layout::text_state(tail))
            &&& i.ascii == layout::state_ascii(layout::text_state(tail))
            &&& i.len as nat == layout::text_len(tail)
            &&& i.data_off == layout::data_offset(tail)
        },
{
    if !is_str_buffer(h, p) {
        return None;
    }
    match h.store(p) {
        Some(s) => {
            if text_fits_in(&s.tail) {
                Some(str_buffer_info(s.tail.as_slice()))
            } else {
                None
            }
        },
        None => None,
    }
}

/// The unit width of a text's block.
pub open spec fn kind_at(s: StoreV) -> u32 {
    layout::state_kind(layout::text_state(s.tail))
}

/// The largest character that a text's block can hold.
pub open spec fn limit_at(s: StoreV) -> u32 {
    layout::form_max(kind_at(s), layout::state_ascii(layout::text_state(s.tail)))
}

/// The text with a character at an index.
pub open spec fn with_char(s: StoreV, i: nat, ch: u32) -> StoreV {
    let w = layout::unit_width(kind_at(s));
    StoreV {
        tail: bytes::put(
            s.tail,
            layout::data_offset(s.tail) - HEAD + i * w,
            bytes::le_bytes(ch as nat, w),
        ),
        ..s
    }
}

/// Why a character cannot be written, if it cannot.
pub open spec fn write_refusal(h: HeapV, o: usize, idx: nat, ch: u32) -> Option<Seq<char>> {
    if !writable(h, o) {
        Some("PyUnicode_WriteChar: target is not a writable unicode buffer"@)
    } else if idx >= layout::text_len(h.mem[o].tail) {
        Some("string index out of range"@)
    } else if ch > limit_at(h.mem[o]) {
        Some("character does not fit in the string's storage"@)
    } else {
        None
    }
}

/// Write one character into a text under construction. Where that is refused,
/// the text stays as it is.
pub fn unicode_write_char(h: &mut Heap, o: usize, idx: usize, ch: u32) -> (r: Result<
    (),
    Vec<char>,
>)
    ensures
        match r {
            Ok(_) => write_refusal(old(h)@, o, idx as nat, ch) is None && final(h)@
                == heap::with_store(old(h)@, o, with_char(old(h)@.mem[o], idx as nat, ch)),
            Err(m) => write_refusal(old(h)@, o, idx as nat, ch) == Some(m@) && final(h)@ == old(
                h,
            )@,
        },
{
    let info: TextInfo = match writable_info(h, o) {
        Some(i) => i,
        None => {
            return Err(text("PyUnicode_WriteChar: target is not a writable unicode buffer"));
        },
    };
    if idx >= info.len {
        return Err(text("string index out of range"));
    }
    if ch > kind_maxchar(info.kind, info.ascii) {
        return Err(text("character does not fit in the string's storage"));
    }
    let ghost h0 = h@;
    if let Some(mut s) = h.take_store(o) {
        proof {
            let w = layout::unit_width(info.kind);
            assert((idx + 1) * w <= info.len * w) by (nonlinear_arith)
                requires
                    idx + 1 <= info.len,
            ;
        }
        write_codepoint(&mut s.tail, info.data_off - HEAD, info.kind, idx, ch);
        h.put_store(o, s);
        assert(h@.mem =~= h0.mem.insert(o, s@));
    }
    Ok(())
}

/// The character at an index of a text under construction.
pub open spec fn char_in(h: HeapV, o: usize, idx: nat) -> Option<u32> {
    if writable(h, o) && idx < layout::text_len(h.mem[o].tail) {
        Some(
            layout::codepoint_at(
                h.mem[o].tail,
                kind_at(h.mem[o]),
                layout::data_offset(h.mem[o].tail) - HEAD,
                idx as int,
            ),
        )
    } else {
        None
    }
}

/// Read one character of a text under construction; `None` for any other object
/// and where the index is out of range.
pub fn unicode_read_char(h: &Heap, o: usize, idx: usize) -> (r: Option<u32>)
    ensures
        r == char_in(h@, o, idx as nat),
{
    let info: TextInfo = match writable_info(h, o) {
        Some(i) => i,
        None => {
            return None;
        },
    };
    if idx >= info.len {
        return None;
    }
    match h.store(o) {
        Some(s) => {
            proof {
                let w = layout::unit_width(info.kind);
                assert((idx + 1) * w <= info.len * w) by (nonlinear_arith)
                    requires
                        idx + 1 <= info.len,
                ;
            }
            Some(read_codepoint(s.tail.as_slice(), info.data_off - HEAD, info.kind, idx))
        },
        None => None,
    }
}

// ---------------------------------------------------------------------------
// Laws
// ---------------------------------------------------------------------------

/// A new text can be written to: it has the length that was asked for, it can
/// hold the characters that were asked for, and every character is zero.
pub proof fn law_new_text(h: HeapV, len: nat, maxchar: u32)
    requires
        made(h, len, maxchar).1 != 0,
        h.facts.types.unicode_type != 0,
    ensures
        ({
            let (h1, p) = made(h, len, maxchar);
            &&& writable(h1, p)
            &&& layout::text_len(h1.mem[p].tail) == len
            &&& maxchar <= 0x10_ffff ==> maxchar <= limit_at(h1.mem[p])
            &&& forall|i: nat| i < len ==> #[trigger] char_in(h1, p, i) == Some(0u32)
        }),
{
    let f = layout::form_of(maxchar);
    let (h1, p) = made(h, len, maxchar);
    let size = (layout::text_size(len, f) - HEAD) as nat;
    let z = bytes::zeros(size);
    let state = layout::state_word(0, f.kind as int, true, f.ascii, false) as u32;
    let a = layout::with_field(z, 16, len as u64);
    let b = layout::with_field(a, 24, ((-1) as i64) as u64);
    let t = layout::with_half(b, 32, state);
    assert(h1.mem[p].tail == t);
    vstd::arithmetic::power2::lemma2_to64_rest();
    vstd::arithmetic::power2::lemma2_to64();
    assert((len + 1) * f.width == len * f.width + f.width) by (nonlinear_arith);
    assert(len <= len * f.width) by (nonlinear_arith)
        requires
            f.width >= 1,
    ;
    bytes::lemma_le_bytes(state as nat, 4);
    bytes::lemma_le_bytes(((-1) as i64) as u64 as nat, 8);
    bytes::lemma_le_bytes(len, 8);
    bytes::lemma_word_put(b, 32 - HEAD, state as nat, 4);
    bytes::lemma_word_put(z, 0, len, 8);
    bytes::lemma_word_beside(a, 8, bytes::le_bytes(((-1) as i64) as u64 as nat, 8), 0, 8);
    bytes::lemma_word_beside(b, 16, bytes::le_bytes(state as nat, 4), 0, 8);
    layout::law_state_word(f.kind as int, true, f.ascii, false);
    if maxchar <= 0x10_ffff {
        layout::law_form_holds(maxchar);
    }
    let w = layout::unit_width(f.kind);
    assert(w == f.width);
    assert(writable(h1, p));
    assert forall|i: nat| i < len implies #[trigger] char_in(h1, p, i) == Some(0u32) by {
        assert(0 <= i * w && (i + 1) * w <= len * w && (i + 1) * w == i * w + w)
            by (nonlinear_arith)
            requires
                i + 1 <= len,
        ;
        let off = f.data_off - HEAD + i * w;
        assert(t.subrange(off, off + w) =~= bytes::zeros(w));
        bytes::lemma_zero_word(w);
    }
}

/// A character that was written is read back, and the others stay.
pub proof fn law_write_then_read(h: HeapV, o: usize, idx: nat, ch: u32, other: nat)
    requires
        write_refusal(h, o, idx, ch) is None,
    ensures
        ({
            let h1 = heap::with_store(h, o, with_char(h.mem[o], idx, ch));
            &&& char_in(h1, o, idx) == Some(ch)
            &&& other != idx ==> char_in(h1, o, other) == char_in(h, o, other)
        }),
{
    let s = h.mem[o];
    let t = s.tail;
    let w = layout::unit_width(kind_at(s));
    let len = layout::text_len(t);
    let at = layout::data_offset(t) - HEAD;
    let u = with_char(s, idx, ch).tail;
    let h1 = heap::with_store(h, o, with_char(s, idx, ch));
    vstd::arithmetic::power2::lemma2_to64_rest();
    vstd::arithmetic::power2::lemma2_to64();
    assert(0 <= idx * w && (idx + 1) * w <= len * w && (idx + 1) * w == idx * w + w)
        by (nonlinear_arith)
        requires
            idx + 1 <= len,
    ;
    bytes::lemma_le_bytes(ch as nat, w);
    bytes::lemma_word_beside(t, at + idx * w, bytes::le_bytes(ch as nat, w), 0, 8);
    bytes::lemma_word_beside(t, at + idx * w, bytes::le_bytes(ch as nat, w), 32 - HEAD, 4);
    assert(layout::text_len(u) == len && kind_at(with_char(s, idx, ch)) == kind_at(s));
    assert(layout::data_offset(u) == layout::data_offset(t));
    assert(8 * w == 8 || 8 * w == 16 || 8 * w == 32);
    bytes::lemma_word_put(t, at + idx * w, ch as nat, w);
    assert(mirror::exactly(h1, o, h1.facts.types.unicode_type));
    if other < len && other != idx {
        assert(0 <= other * w && (other + 1) * w <= len * w && (other + 1) * w == other * w + w)
            by (nonlinear_arith)
            requires
                other + 1 <= len,
        ;
        if other < idx {
            assert(other * w + w <= idx * w) by (nonlinear_arith)
                requires
                    other + 1 <= idx,
            ;
        } else {
            assert(idx * w + w <= other * w) by (nonlinear_arith)
                requires
                    idx + 1 <= other,
            ;
        }
        bytes::lemma_word_beside(
            t,
            at + idx * w,
            bytes::le_bytes(ch as nat, w),
            at + other * w,
            w as int,
        );
    }
}

// ---------------------------------------------------------------------------
// Copying and resizing
// ---------------------------------------------------------------------------

/// How many characters from the start are at most `limit`.
pub open spec fn fitting(cs: Seq<u32>, limit: u32) -> nat
    decreases cs.len(),
{
    if cs.len() == 0 || cs[0] > limit {
        0
    } else {
        1 + fitting(cs.drop_first(), limit)
    }
}

/// The text with characters from an index on.
pub open spec fn with_chars(s: StoreV, at: nat, cs: Seq<u32>) -> StoreV {
    let w = layout::unit_width(kind_at(s));
    StoreV {
        tail: bytes::put(
            s.tail,
            layout::data_offset(s.tail) - HEAD + at * w,
            bytes::flat(bytes::nats32(cs), w),
        ),
        ..s
    }
}

/// The text behind a mirror and the heap after it was read; no text where the
/// object is none.
pub open spec fn text_behind(h: HeapV, p: usize) -> (HeapV, Option<Seq<char>>) {
    if !h.mem.contains_key(p) {
        (h, None)
    } else {
        let (h1, v) = reading::native_at(h, p);
        (
            h1,
            match v.val {
                ObjV::Str(s) => Some(s),
                _ => None,
            },
        )
    }
}

fn read_behind(h: &mut Heap, p: usize) -> (r: Option<Vec<char>>)
    ensures
        final(h)@.facts == old(h)@.facts,
        final(h)@ == text_behind(old(h)@, p).0,
        match r {
            Some(s) => text_behind(old(h)@, p).1 == Some(s@),
            None => text_behind(old(h)@, p).1 is None,
        },
{
    if !h.mem.contains_key(&p) {
        return None;
    }
    let v: Native = read_mirror(h, p);
    match v.val {
        Object::Str(s) => Some(s),
        _ => None,
    }
}

/// What copying characters gives: the heap, and how many were copied or why not
/// all were. The target is looked at again after the source was read. The
/// characters before one that does not fit are copied.
pub open spec fn copied_chars(
    h: HeapV,
    to: usize,
    to_start: nat,
    from: usize,
    from_start: nat,
    n: nat,
) -> (HeapV, Result<nat, Seq<char>>) {
    if !writable(h, to) {
        (h, Err("PyUnicode_CopyCharacters: target is not a writable unicode buffer"@))
    } else if to_start + n > layout::text_len(h.mem[to].tail) {
        (h, Err("PyUnicode_CopyCharacters: target index out of range"@))
    } else {
        let (h1, source) = text_behind(h, from);
        match source {
            None => (h1, Err("PyUnicode_CopyCharacters: source is not a str"@)),
            Some(s) => if from_start + n > s.len() {
                (h1, Err("PyUnicode_CopyCharacters: source index out of range"@))
            } else if !writable(h1, to) || to_start + n > layout::text_len(h1.mem[to].tail) {
                (h1, Err("PyUnicode_CopyCharacters: target index out of range"@))
            } else {
                let cs = layout::cps_of(s).subrange(from_start as int, (from_start + n) as int);
                let k = fitting(cs, limit_at(h1.mem[to]));
                let h2 = heap::with_store(
                    h1,
                    to,
                    with_chars(h1.mem[to], to_start, cs.take(k as int)),
                );
                if k < n {
                    (
                        h2,
                        Err("PyUnicode_CopyCharacters: character does not fit in target storage"@),
                    )
                } else {
                    (h2, Ok(n))
                }
            },
        }
    }
}

/// The outcome of copying, with its text.
pub open spec fn outcome(r: Result<usize, Vec<char>>) -> Result<nat, Seq<char>> {
    match r {
        Ok(n) => Ok(n as nat),
        Err(m) => Err(m@),
    }
}

proof fn lemma_fitting(cs: Seq<u32>, limit: u32)
    ensures
        fitting(cs, limit) <= cs.len(),
        forall|i: int| 0 <= i < fitting(cs, limit) ==> cs[i] <= limit,
        fitting(cs, limit) < cs.len() ==> cs[fitting(cs, limit) as int] > limit,
    decreases cs.len(),
{
    if cs.len() > 0 && cs[0] <= limit {
        lemma_fitting(cs.drop_first(), limit);
        let k = fitting(cs.drop_first(), limit);
        assert forall|i: int| 0 <= i < fitting(cs, limit) implies cs[i] <= limit by {
            if i > 0 {
                assert(cs[i] == cs.drop_first()[i - 1]);
            }
        }
        if k < cs.drop_first().len() {
            assert(cs.drop_first()[k as int] == cs[k as int + 1]);
        }
    }
}

fn fitting_part(cps: &Vec<u32>, from: usize, n: usize, limit: u32) -> (r: Vec<u32>)
    requires
        from + n <= cps@.len(),
    ensures
        ({
            let cs = cps@.subrange(from as int, from + n);
            r@ == cs.take(fitting(cs, limit) as int)
        }),
{
    let mut out: Vec<u32> = Vec::new();
    let mut i: usize = 0;
    let total: usize = cps.len();
    let ghost cs = cps@.subrange(from as int, from + n);
    proof {
        lemma_fitting(cs, limit);
    }
    while i < n
        invariant
            i <= n,
            from + n <= total,
            total == cps@.len(),
            cs == cps@.subrange(from as int, from + n),
            i <= fitting(cs, limit) <= cs.len(),
            fitting(cs, limit) < cs.len() ==> cs[fitting(cs, limit) as int] > limit,
            forall|k: int| 0 <= k < fitting(cs, limit) ==> cs[k] <= limit,
            out@ == cs.take(i as int),
        decreases n - i,
    {
        let c: u32 = cps[from + i];
        assert(c == cs[i as int]);
        if c > limit {
            return out;
        }
        out.push(c);
        i = i + 1;
        assert(out@ =~= cs.take(i as int));
    }
    out
}

fn write_chars(h: &mut Heap, to: usize, info: TextInfo, at: usize, cs: &Vec<u32>)
    requires
        writable(old(h)@, to),
        at + cs@.len() <= layout::text_len(old(h)@.mem[to].tail),
        info.kind == kind_at(old(h)@.mem[to]),
        info.data_off == layout::data_offset(old(h)@.mem[to].tail),
    ensures
        final(h)@ == heap::with_store(
            old(h)@,
            to,
            with_chars(old(h)@.mem[to], at as nat, cs@),
        ),
{
    let ghost h0 = h@;
    if let Some(mut s) = h.take_store(to) {
        let w: usize = width_of(info.kind);
        let size: usize = s.tail.len();
        let off: usize = info.data_off - HEAD;
        proof {
            let len = layout::text_len(h0.mem[to].tail);
            assert(at * w + cs@.len() * w <= len * w) by (nonlinear_arith)
                requires
                    at + cs@.len() <= len,
            ;
            assert(0 <= at * w && 0 <= cs@.len() * w) by (nonlinear_arith);
        }
        put_units(&mut s.tail, off + at * w, cs, w);
        h.put_store(to, s);
        assert(h@.mem =~= h0.mem.insert(to, s@));
    }
}

/// Copy characters into a text under construction from any text.
pub fn unicode_copy_characters(
    h: &mut Heap,
    to: usize,
    to_start: usize,
    from: usize,
    from_start: usize,
    how_many: usize,
) -> (r: Result<usize, Vec<char>>)
    ensures
        (final(h)@, outcome(r)) == copied_chars(
            old(h)@,
            to,
            to_start as nat,
            from,
            from_start as nat,
            how_many as nat,
        ),
{
    match writable_info(h, to) {
        Some(i) => {
            if to_start > i.len || how_many > i.len - to_start {
                return Err(text("PyUnicode_CopyCharacters: target index out of range"));
            }
        },
        None => {
            return Err(
                text("PyUnicode_CopyCharacters: target is not a writable unicode buffer"),
            );
        },
    }
    let source: Vec<char> = match read_behind(h, from) {
        Some(s) => s,
        None => {
            return Err(text("PyUnicode_CopyCharacters: source is not a str"));
        },
    };
    if from_start > source.len() || how_many > source.len() - from_start {
        return Err(text("PyUnicode_CopyCharacters: source index out of range"));
    }
    let info: TextInfo = match writable_info(h, to) {
        Some(i) => {
            if to_start > i.len || how_many > i.len - to_start {
                return Err(text("PyUnicode_CopyCharacters: target index out of range"));
            }
            i
        },
        None => {
            return Err(text("PyUnicode_CopyCharacters: target index out of range"));
        },
    };
    let all: Vec<u32> = codepoints(&source);
    let limit: u32 = kind_maxchar(info.kind, info.ascii);
    let part: Vec<u32> = fitting_part(&all, from_start, how_many, limit);
    proof {
        lemma_fitting(all@.subrange(from_start as int, from_start + how_many), limit);
    }
    write_chars(h, to, info, to_start, &part);
    if part.len() < how_many {
        return Err(text("PyUnicode_CopyCharacters: character does not fit in target storage"));
    }
    Ok(how_many)
}

/// The largest character that the block of a text can hold, where the object has
/// such a block.
pub open spec fn limit_of(h: HeapV, p: usize) -> Option<u32> {
    if mirror::exactly(h, p, h.facts.types.unicode_type) && h.mem.contains_key(p)
        && h.mem[p].tail.len() >= 24 {
        Some(limit_at(h.mem[p]))
    } else {
        None
    }
}

fn mirror_str_maxchar(h: &Heap, p: usize) -> (r: Option<u32>)
    ensures
        r == limit_of(h@, p),
{
    if !is_mirror(h, p) || h.get_type(p) != h.facts.types.unicode_type {
        return None;
    }
    match h.store(p) {
        Some(s) => {
            if s.tail.len() < 24 {
                return None;
            }
            let state: u32 = get_half(s.tail.as_slice(), 32);
            Some(kind_maxchar((state / 4) % 8, (state / 64) % 2 == 1))
        },
        None => None,
    }
}

/// A text of another length with the characters of a text, as far as they fit
/// into that length, and room for the same characters; NULL where the object is
/// no text or the new one does not fit.
pub open spec fn resized(h: HeapV, p: usize, n: nat) -> (HeapV, usize) {
    let (h1, source) = text_behind(h, p);
    match source {
        None => (h1, 0),
        Some(s) => {
            let cps = layout::cps_of(s);
            let limit = match limit_of(h1, p) {
                Some(l) => l,
                None => layout::max_cp(cps),
            };
            let (h2, q) = made(h1, n, limit);
            if q == 0 {
                (h2, 0)
            } else {
                let keep = if cps.len() <= n {
                    cps
                } else {
                    cps.take(n as int)
                };
                (heap::with_store(h2, q, with_chars(h2.mem[q], 0, keep)), q)
            }
        },
    }
}

/// Make a text of another length with the characters of a text.
pub fn resize_unicode(h: &mut Heap, p: usize, newlen: usize) -> (r: usize)
    requires
        old(h)@.facts.types.unicode_type != 0,
    ensures
        (final(h)@, r) == resized(old(h)@, p, newlen as nat),
{
    let source: Vec<char> = match read_behind(h, p) {
        Some(s) => s,
        None => {
            return 0;
        },
    };
    let limit: u32 = match mirror_str_maxchar(h, p) {
        Some(l) => l,
        None => str_maxchar(&source),
    };
    let ghost h1 = h@;
    let q: usize = new_unicode_mirror(h, newlen, limit);
    if q == 0 {
        return 0;
    }
    proof {
        law_new_text(h1, newlen as nat, limit);
    }
    let info: TextInfo = match writable_info(h, q) {
        Some(i) => i,
        None => {
            return q;
        },
    };
    let mut keep: Vec<u32> = codepoints(&source);
    if keep.len() > newlen {
        keep.truncate(newlen);
        assert(keep@ =~= layout::cps_of(source@).take(newlen as int));
    }
    write_chars(h, q, info, 0, &keep);
    q
}

/// The characters that fit come first, and the next one does not fit.
pub proof fn law_fitting(cs: Seq<u32>, limit: u32)
    ensures
        fitting(cs, limit) <= cs.len(),
        forall|i: int| 0 <= i < fitting(cs, limit) ==> #[trigger] cs[i] <= limit,
        fitting(cs, limit) < cs.len() ==> cs[fitting(cs, limit) as int] > limit,
    decreases cs.len(),
{
    if cs.len() > 0 && cs[0] <= limit {
        let rest = cs.drop_first();
        law_fitting(rest, limit);
        assert forall|i: int| 0 <= i < fitting(cs, limit) implies #[trigger] cs[i] <= limit by {
            if i > 0 {
                assert(rest[i - 1] == cs[i]);
            }
        }
    }
}

/// Characters that are written into a text are read back from where they were
/// written. The other characters and the length stay.
pub proof fn law_characters_are_written(h: HeapV, o: usize, at: nat, cs: Seq<u32>, i: nat)
    requires
        writable(h, o),
        at + cs.len() <= layout::text_len(h.mem[o].tail),
        forall|k: int| 0 <= k < cs.len() ==> #[trigger] cs[k] <= limit_at(h.mem[o]),
    ensures
        ({
            let h1 = heap::with_store(h, o, with_chars(h.mem[o], at, cs));
            &&& writable(h1, o)
            &&& layout::text_len(h1.mem[o].tail) == layout::text_len(h.mem[o].tail)
            &&& char_in(h1, o, i) == (if at <= i < at + cs.len() {
                Some(cs[i - at])
            } else {
                char_in(h, o, i)
            })
        }),
{
    let s = h.mem[o];
    let t = s.tail;
    let w = layout::unit_width(kind_at(s));
    let len = layout::text_len(t);
    let off = layout::data_offset(t) - HEAD;
    let u = bytes::nats32(cs);
    let data = bytes::flat(u, w);
    let after = with_chars(s, at, cs);
    let h1 = heap::with_store(h, o, after);
    vstd::arithmetic::power2::lemma2_to64();
    bytes::lemma_flat_len(u, w);
    assert(at * w + cs.len() * w <= len * w && 0 <= at * w && 0 <= cs.len() * w)
        by (nonlinear_arith)
        requires
            at + cs.len() <= len,
    ;
    bytes::lemma_word_beside(t, off + at * w, data, 0, 8);
    bytes::lemma_word_beside(t, off + at * w, data, 32 - HEAD, 4);
    assert(layout::text_len(after.tail) == len && kind_at(after) == kind_at(s));
    assert(layout::data_offset(after.tail) == layout::data_offset(t));
    assert(mirror::exactly(h1, o, h1.facts.types.unicode_type));
    assert(writable(h1, o));
    assert(8 * w == 8 || 8 * w == 16 || 8 * w == 32);
    if i < len {
        assert(0 <= i * w && i * w + w <= len * w) by (nonlinear_arith)
            requires
                i + 1 <= len,
        ;
        if i < at {
            assert(i * w + w <= at * w) by (nonlinear_arith)
                requires
                    i + 1 <= at,
            ;
            bytes::lemma_word_beside(t, off + at * w, data, off + i * w, w as int);
        } else if i >= at + cs.len() {
            assert(at * w + cs.len() * w <= i * w) by (nonlinear_arith)
                requires
                    at + cs.len() <= i,
            ;
            bytes::lemma_word_beside(t, off + at * w, data, off + i * w, w as int);
        } else {
            assert forall|k: int| 0 <= k < u.len() implies #[trigger] u[k] < vstd::arithmetic::power2::pow2(8 * w) by {
                assert(u[k] == cs[k] as nat);
            }
            bytes::lemma_units_put(t, off + at * w, u, w);
            let k = i - at;
            assert(bytes::units(after.tail, off + at * w, w, u.len())[k] == u[k]);
            assert(at * w + k * w == i * w) by (nonlinear_arith)
                requires
                    k == i - at,
            ;
        }
    }
}

/// Copying characters from one text into another succeeds exactly where all of them
/// were written: the target then reads at its own start what the source held at
/// its start, and all its other characters as before.
pub proof fn law_characters_are_copied(
    h: HeapV,
    to: usize,
    to_start: nat,
    from: usize,
    from_start: nat,
    n: nat,
    i: nat,
)
    requires
        copied_chars(h, to, to_start, from, from_start, n).1 is Ok,
    ensures
        ({
            let (g, r) = copied_chars(h, to, to_start, from, from_start, n);
            let (h1, source) = text_behind(h, from);
            &&& r == Ok::<nat, Seq<char>>(n)
            &&& source is Some
            &&& from_start + n <= source->Some_0.len()
            &&& to_start + n <= layout::text_len(h1.mem[to].tail)
            &&& char_in(g, to, i) == (if to_start <= i < to_start + n {
                Some(source->Some_0[from_start + i - to_start] as u32)
            } else {
                char_in(h1, to, i)
            })
        }),
{
    let (h1, source) = text_behind(h, from);
    let s = source->Some_0;
    let cs = layout::cps_of(s).subrange(from_start as int, (from_start + n) as int);
    law_fitting(cs, limit_at(h1.mem[to]));
    assert(cs.take(n as int) =~= cs);
    law_characters_are_written(h1, to, to_start, cs, i);
    if to_start <= i < to_start + n {
        assert(cs[i - to_start] == s[from_start + i - to_start] as u32);
    }
}

/// A resized text holds the characters in front that there is room for, and zeros
/// behind them.
pub proof fn law_resized_text(h: HeapV, p: usize, n: nat, i: nat)
    requires
        resized(h, p, n).1 != 0,
        h.facts.types.unicode_type != 0,
        text_behind(h, p).0.facts == h.facts,
        limit_of(text_behind(h, p).0, p) matches Some(l) ==> layout::max_cp(
            layout::cps_of(text_behind(h, p).1->Some_0),
        ) <= l,
        i < n,
    ensures
        ({
            let (g, q) = resized(h, p, n);
            let s = text_behind(h, p).1->Some_0;
            &&& text_behind(h, p).1 is Some
            &&& layout::text_len(g.mem[q].tail) == n
            &&& char_in(g, q, i) == (if i < s.len() {
                Some(s[i as int] as u32)
            } else {
                Some(0u32)
            })
        }),
{
    let (h1, source) = text_behind(h, p);
    let s = source->Some_0;
    let cps = layout::cps_of(s);
    let limit = match limit_of(h1, p) {
        Some(l) => l,
        None => layout::max_cp(cps),
    };
    let (h2, q) = made(h1, n, limit);
    let keep = if cps.len() <= n {
        cps
    } else {
        cps.take(n as int)
    };
    assert forall|k: int| 0 <= k < cps.len() implies #[trigger] cps[k] <= 0x10_ffff by {
        vstd::utf8::char_is_scalar(s[k]);
    }
    crate::fields::lemma_max_within(cps, 0x10_ffff);
    law_new_text(h1, n, limit);
    assert(limit <= 0x10_ffff);
    assert forall|k: int| 0 <= k < keep.len() implies #[trigger] keep[k] <= limit_at(
        h2.mem[q],
    ) by {
        assert(keep[k] == cps[k]);
        crate::fields::lemma_max_bounds(cps, k);
    }
    law_characters_are_written(h2, q, 0, keep, i);
    assert(char_in(h2, q, i) == Some(0u32));
    if i < s.len() {
        assert(keep[i as int] == s[i as int] as u32);
    }
}

// ---------------------------------------------------------------------------
// Functions of the API
// ---------------------------------------------------------------------------

/// `PyUnicode_New`: a text under construction; a negative length counts as zero.
pub fn PyUnicode_New(h: &mut Heap, size: isize, maxchar: u32) -> (r: usize)
    ensures
        (final(h)@, r) == made(
            old(h)@,
            if size < 0 {
                0
            } else {
                size as nat
            },
            maxchar,
        ),
{
    let n: usize = if size < 0 {
        0
    } else {
        size as usize
    };
    new_unicode_mirror(h, n, maxchar)
}

/// `PyUnicode_WriteChar`: write one character into a text under construction.
pub fn PyUnicode_WriteChar(h: &mut Heap, o: usize, idx: isize, ch: u32) -> (r: Result<(), Failure>)
    ensures
        o == 0 || idx < 0 ==> final(h)@ == old(h)@ && errors::raises(
            r,
            ExcKind::ValueError,
            "PyUnicode_WriteChar: invalid argument"@,
        ),
        o != 0 && idx >= 0 ==> match write_refusal(old(h)@, o, idx as nat, ch) {
            None => r is Ok && final(h)@ == heap::with_store(
                old(h)@,
                o,
                with_char(old(h)@.mem[o], idx as nat, ch),
            ),
            Some(m) => final(h)@ == old(h)@ && errors::raises(r, ExcKind::ValueError, m),
        },
{
    if o == 0 || idx < 0 {
        return Err(raise_str(ExcKind::ValueError, "PyUnicode_WriteChar: invalid argument"));
    }
    match unicode_write_char(h, o, idx as usize, ch) {
        Ok(_) => Ok(()),
        Err(m) => Err(raise(ExcKind::ValueError, m)),
    }
}

/// A negative number counts as zero.
pub open spec fn at_least_zero(n: isize) -> nat {
    if n < 0 {
        0
    } else {
        n as nat
    }
}

fn positive(n: isize) -> (r: usize)
    ensures
        r == at_least_zero(n),
{
    if n < 0 {
        0
    } else {
        n as usize
    }
}

/// `PyUnicode_CopyCharacters`: copy characters into a text under construction.
pub fn PyUnicode_CopyCharacters(
    h: &mut Heap,
    to: usize,
    to_start: isize,
    from: usize,
    from_start: isize,
    how_many: isize,
) -> (r: Result<usize, Failure>)
    ensures
        to == 0 || from == 0 ==> final(h)@ == old(h)@ && errors::raises(
            r,
            ExcKind::TypeError,
            "PyUnicode_CopyCharacters: expected str"@,
        ),
        to != 0 && from != 0 ==> {
            let (h1, out) = copied_chars(
                old(h)@,
                to,
                at_least_zero(to_start),
                from,
                at_least_zero(from_start),
                at_least_zero(how_many),
            );
            final(h)@ == h1 && match out {
                Ok(n) => r == Ok::<usize, Failure>(n as usize),
                Err(m) => errors::raises(r, ExcKind::ValueError, m),
            }
        },
{
    if to == 0 || from == 0 {
        return Err(raise_str(ExcKind::TypeError, "PyUnicode_CopyCharacters: expected str"));
    }
    match unicode_copy_characters(
        h,
        to,
        positive(to_start),
        from,
        positive(from_start),
        positive(how_many),
    ) {
        Ok(n) => Ok(n),
        Err(m) => Err(raise(ExcKind::ValueError, m)),
    }
}

} // verus!
