//! Texts and bytes as C code hands them over, and source text as it is read in.

use vstd::prelude::*;
use vstd::utf8::*;
use crate::pythonrun;
use crate::pythonrun::RunPlan;
use crate::strings;
use crate::strings::JoinItem;
use crate::errors::Failure;
use crate::value::Object;

verus! {

proof fn lemma_nul(b: Seq<u8>, i: int, n: int)
    requires
        0 <= i <= n < b.len(),
        forall|k: int| i <= k < n ==> #[trigger] b[k] != 0,
        b[n] == 0,
    ensures
        strings::nul_from(b, i) == n,
    decreases n - i,
{
    if i < n {
        lemma_nul(b, i + 1, n);
    }
}

/// A C text ends at its first zero, whatever follows.
pub proof fn law_c_text_ends_at_zero(b: Seq<u8>, rest: Seq<u8>)
    requires
        forall|i: int| 0 <= i < b.len() ==> #[trigger] b[i] != 0,
    ensures
        strings::nul_from(b.push(0) + rest, 0) == b.len(),
{
    let s = b.push(0) + rest;
    assert forall|k: int| 0 <= k < b.len() implies #[trigger] s[k] != 0 by {
        assert(s[k] == b[k]);
    }
    lemma_nul(s, 0, b.len() as int);
}

/// A text is read back from its UTF-8 encoding; bytes that encode no text are read
/// as the empty one.
pub proof fn law_decoding(s: Seq<char>, b: Seq<u8>)
    ensures
        strings::decoded(encode_utf8(s)) == s,
        !valid_utf8(b) ==> strings::decoded(b).len() == 0,
{
    encode_utf8_valid_utf8(s);
    encode_utf8_decode_utf8(s);
}

/// A new buffer has as many bytes as were asked for, none for a negative number. They
/// are the first ones of what it is made from, and zero where it is made from
/// nothing.
pub proof fn law_new_buffer(s: Option<&[u8]>, n: isize)
    requires
        s matches Some(b) ==> n <= b@.len(),
    ensures
        strings::filled(s, n).len() == (if n < 0 {
            0
        } else {
            n as int
        }),
        forall|i: int|
            0 <= i < n ==> #[trigger] strings::filled(s, n)[i] == (match s {
                Some(b) => b@[i],
                None => 0u8,
            }),
{
}

/// Resizing keeps the bytes in front and adds zeros.
pub proof fn law_resized_buffer(b: Seq<u8>, n: nat)
    ensures
        strings::resized(b, n).len() == n,
        n <= b.len() ==> strings::resized(b, n) == b.take(n as int),
        n >= b.len() ==> strings::resized(b, n).take(b.len() as int) == b,
        forall|i: int| b.len() <= i < n ==> #[trigger] strings::resized(b, n)[i] == 0,
{
    if n <= b.len() {
        assert(strings::resized(b, n) =~= b.take(n as int));
    } else {
        assert(strings::resized(b, n).take(b.len() as int) =~= b);
    }
}

proof fn lemma_other(v: Seq<JoinItem>, i: int, n: int)
    requires
        0 <= i <= n <= v.len(),
        forall|k: int| i <= k < n ==> #[trigger] v[k] is Str,
        n < v.len() ==> v[n] is Other,
    ensures
        strings::first_other(v, i) == n,
    decreases n - i,
{
    if i < n {
        assert(v[i] is Str);
        lemma_other(v, i + 1, n);
    }
}

/// The first item of a join that is no text is found behind the texts in front of
/// it. Where all are texts, there is none, and each is joined as itself.
pub proof fn law_first_that_is_no_text(v: Seq<JoinItem>, n: int)
    requires
        0 <= n <= v.len(),
        forall|k: int| 0 <= k < n ==> #[trigger] v[k] is Str,
        n < v.len() ==> v[n] is Other,
    ensures
        strings::first_other(v, 0) == n,
        strings::item_texts(v).len() == v.len(),
        forall|k: int|
            0 <= k < n ==> #[trigger] strings::item_texts(v)[k] == (match v[k] {
                JoinItem::Str(s) => s@,
                JoinItem::Other(s) => s@,
            }),
{
    lemma_other(v, 0, n);
    assert forall|k: int| 0 <= k < n implies #[trigger] strings::item_texts(v)[k] == (match v[k] {
        JoinItem::Str(s) => s@,
        JoinItem::Other(s) => s@,
    }) by {
        assert(v[k] is Str);
    }
}

/// A Latin-1 character is encoded as its code point, any other one as a question mark.
pub proof fn law_latin1(c: char)
    ensures
        (c as u32) < 256 ==> strings::latin1_byte(c) as char == c,
        (c as u32) >= 256 ==> strings::latin1_byte(c) == 63,
{
}

/// A code point becomes its character. One that no character has becomes the
/// replacement character.
pub proof fn law_code_point(c: char, cp: u32)
    ensures
        strings::scalar_or_replacement(c as u32) == c,
        0xd800 <= cp <= 0xdfff || cp > 0x10_ffff ==> strings::scalar_or_replacement(cp)
            == '\u{FFFD}',
{
    char_is_scalar(c);
    char_u32_cast(c, c as u32);
}

/// The part of a text between two indices, with what comes before it and what comes
/// after it, is the text. A bound below zero stands for zero, one behind the end
/// for the end.
pub proof fn law_substring(s: Seq<char>, start: isize, end: isize)
    ensures
        ({
            let e = strings::least(strings::size_of(end), s.len() as int);
            let b = strings::least(strings::size_of(start), e);
            &&& 0 <= b <= e <= s.len()
            &&& s.take(b) + s.subrange(b, e) + s.skip(e) == s
            &&& 0 <= start <= end <= s.len() ==> b == start && e == end
            &&& start < 0 ==> b == 0
            &&& end > s.len() ==> e == s.len()
            &&& end <= 0 || start >= end ==> s.subrange(b, e).len() == 0
        }),
{
    let e = strings::least(strings::size_of(end), s.len() as int);
    let b = strings::least(strings::size_of(start), e);
    assert(s.take(b) + s.subrange(b, e) + s.skip(e) =~= s);
}

/// Small integers are bytes.
pub proof fn law_element(i: i64)
    requires
        0 <= i < 256,
    ensures
        strings::element_byte(Object::Int(i)) == i,
{
}

/// An identifier stays one exactly with a letter, a digit or an underscore behind it.
/// One character is an identifier where it is a letter or an underscore. The empty
/// text is none.
pub proof fn law_identifier(s: Seq<char>, c: char)
    ensures
        !strings::identifier(Seq::empty()),
        strings::identifier(seq![c]) <==> strings::char_is_alphabetic(c) || c == '_',
        s.len() > 0 ==> (strings::identifier(s.push(c)) <==> strings::identifier(s) && (
        strings::char_is_alphanumeric(c) || c == '_')),
{
    let t = s.push(c);
    if s.len() > 0 {
        assert(t[0] == s[0]);
        if strings::identifier(t) {
            assert(t[s.len() as int] == c);
            assert forall|i: int| 1 <= i < s.len() implies strings::char_is_alphanumeric(
                #[trigger] s[i],
            ) || s[i] == '_' by {
                assert(t[i] == s[i]);
            }
        }
        if strings::identifier(s) && (strings::char_is_alphanumeric(c) || c == '_') {
            assert forall|i: int| 1 <= i < t.len() implies strings::char_is_alphanumeric(
                #[trigger] t[i],
            ) || t[i] == '_' by {
                if i < s.len() {
                    assert(t[i] == s[i]);
                }
            }
        }
    }
    assert(seq![c][0] == c);
}

// ---------------------------------------------------------------------------
// Source text
// ---------------------------------------------------------------------------

/// What the chunks of a stream hold, one behind the other.
pub open spec fn contents(chunks: Seq<Vec<u8>>) -> Seq<u8>
    decreases chunks.len(),
{
    if chunks.len() == 0 {
        Seq::empty()
    } else {
        chunks[0]@ + contents(chunks.drop_first())
    }
}

proof fn lemma_contents(chunks: Seq<Vec<u8>>, n: int)
    requires
        0 <= n < chunks.len(),
    ensures
        contents(chunks.take(n + 1)) == contents(chunks.take(n)) + chunks[n]@,
    decreases n,
{
    let a = chunks.take(n + 1);
    let b = chunks.take(n);
    if n == 0 {
        assert(a.drop_first() =~= Seq::<Vec<u8>>::empty());
        assert(b =~= Seq::<Vec<u8>>::empty());
        assert(contents(a.drop_first()) == Seq::<u8>::empty());
        assert(contents(a) =~= chunks[0]@);
        assert(contents(b) + chunks[n]@ =~= chunks[0]@);
    } else {
        let rest = chunks.drop_first();
        lemma_contents(rest, n - 1);
        assert(a.drop_first() =~= rest.take(n));
        assert(b.drop_first() =~= rest.take(n - 1));
        assert(rest[n - 1] == chunks[n]);
        assert(a[0] == chunks[0] && b[0] == chunks[0]);
        assert(contents(a) =~= contents(b) + chunks[n]@);
    }
}

/// A stream is all that its chunks hold, in their order.
pub proof fn law_whole_stream(chunks: Seq<Vec<u8>>, n: int)
    requires
        0 <= n <= chunks.len(),
    ensures
        pythonrun::joined(chunks, n) == contents(chunks.take(n)),
    decreases n,
{
    if n == 0 {
        assert(chunks.take(0) =~= Seq::<Vec<u8>>::empty());
    } else {
        law_whole_stream(chunks, n - 1);
        lemma_contents(chunks, n - 1);
    }
}

/// Some bytes end in a line feed.
pub open spec fn complete(b: Seq<u8>) -> bool {
    b.len() > 0 && b[b.len() - 1] == 10
}

proof fn lemma_line(chunks: Seq<Vec<u8>>, i: int, n: int)
    requires
        0 <= i <= n <= chunks.len(),
        forall|k: int| i < k < n ==> !complete(#[trigger] contents(chunks.take(k))),
        n == chunks.len() || (n > i && complete(contents(chunks.take(n)))),
    ensures
        pythonrun::line_chunks(chunks, i, contents(chunks.take(i))) == contents(chunks.take(n)),
    decreases n - i,
{
    if i < n {
        lemma_contents(chunks, i);
        if i + 1 == n {
            if !complete(contents(chunks.take(n))) {
                assert(n == chunks.len());
                assert(pythonrun::line_chunks(chunks, n, contents(chunks.take(n))) == contents(
                    chunks.take(n),
                ));
            }
        } else {
            assert(!complete(contents(chunks.take(i + 1))));
            lemma_line(chunks, i + 1, n);
        }
    }
}

/// A line is what the chunks hold up to the first one that ends in a line feed, or
/// all that they hold where none does.
pub proof fn law_line_ends_at_line_feed(chunks: Seq<Vec<u8>>, n: int)
    requires
        0 <= n <= chunks.len(),
        forall|k: int| 0 < k < n ==> !complete(#[trigger] contents(chunks.take(k))),
        n == chunks.len() || (n > 0 && complete(contents(chunks.take(n)))),
    ensures
        pythonrun::line_chunks(chunks, 0, Seq::empty()) == contents(chunks.take(n)),
{
    assert(chunks.take(0) =~= Seq::<Vec<u8>>::empty());
    lemma_line(chunks, 0, n);
}

/// A command is its text without the line feeds at its end.
pub proof fn law_command(s: Seq<char>, feeds: Seq<char>)
    requires
        s.len() > 0 ==> s[s.len() - 1] != '\n',
        forall|i: int| 0 <= i < feeds.len() ==> #[trigger] feeds[i] == '\n',
    ensures
        pythonrun::trimmed(s + feeds) == s,
    decreases feeds.len(),
{
    if feeds.len() == 0 {
        assert(s + feeds =~= s);
    } else {
        assert((s + feeds).drop_last() =~= s + feeds.drop_last());
        assert((s + feeds).last() == feeds[feeds.len() - 1]);
        assert forall|i: int| 0 <= i < feeds.drop_last().len() implies #[trigger] feeds.drop_last()[i]
            == '\n' by {
            assert(feeds.drop_last()[i] == feeds[i]);
        }
        law_command(s, feeds.drop_last());
    }
}

/// A second empty line in a row ends a command that is read line by line.
pub proof fn law_empty_lines(s: Seq<char>, line: Seq<char>)
    ensures
        pythonrun::blank(line) <==> line == seq!['\n'],
        pythonrun::ends_blank(s + seq!['\n', '\n']),
        s.len() > 0 && s[s.len() - 1] != '\n' ==> !pythonrun::ends_blank(s + seq!['\n']),
        s.len() > 0 && s[s.len() - 1] != '\n' ==> !pythonrun::ends_blank(s),
{
    if pythonrun::blank(line) {
        assert(line =~= seq!['\n']);
    }
    if s.len() > 0 {
        let t = s + seq!['\n'];
        assert(t[t.len() - 2] == s[s.len() - 1]);
    }
}

/// The start tokens 256, 257 and 258 ask for one command, a file and an expression.
/// No other one is known.
pub proof fn law_start_tokens(start: i32)
    ensures
        pythonrun::mode_of(256) == Some("single"@),
        pythonrun::mode_of(257) == Some("exec"@),
        pythonrun::mode_of(258) == Some("eval"@),
        start < 256 || start > 258 ==> pythonrun::mode_of(start) is None,
{
}

/// Source text is run exactly with a known start token and a dict of globals: under
/// its own name, in the mode of its token, with its flags, and in the globals
/// alone where no locals are given.
pub proof fn law_source_is_run(
    r: Result<RunPlan, Failure>,
    filename: Seq<char>,
    start: i32,
    globals: Option<&Object>,
    has_locals: bool,
    flags: i32,
)
    requires
        pythonrun::run_checked(r, filename, start, globals, has_locals, flags),
    ensures
        r is Ok <==> 256 <= start <= 258 && (globals matches Some(g) && g is Dict),
        r matches Ok(p) ==> {
            &&& p.filename@ == filename
            &&& Some(p.mode@) == pythonrun::mode_of(start)
            &&& p.flags == flags
            &&& p.globals_as_locals == !has_locals
        },
{
}

/// A process ends with the code that it is given: none is success, an integer is
/// itself and anything else is reported and failure.
pub proof fn law_exit_code(i: i32, code: Object)
    ensures
        pythonrun::exit_of(Object::PyNone) == (0i32, false),
        pythonrun::exit_of(Object::Int(i as i64)) == (i, false),
        pythonrun::exit_of(Object::Bool(false)) == (0i32, false),
        pythonrun::exit_of(Object::Bool(true)) == (1i32, false),
        !(code is PyNone || code is Int || code is Bool) ==> pythonrun::exit_of(code) == (
            1i32,
            true,
        ),
{
}

} // verus!
