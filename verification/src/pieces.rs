//! What searching, splitting, joining, replacing and counting have to do with each
//! other.

use vstd::prelude::*;
use crate::mypyc_tail;
use crate::search;
use crate::strings;
use crate::value::Object;

verus! {

// ---------------------------------------------------------------------------
// Joining
// ---------------------------------------------------------------------------

/// Joining no pieces gives nothing, joining one gives the piece, and joining two runs
/// of pieces gives what each run joins to with the separator between them.
pub proof fn law_join(sep: Seq<char>, a: Seq<Seq<char>>, b: Seq<Seq<char>>)
    ensures
        search::join_spec(sep, Seq::empty()) == Seq::<char>::empty(),
        a.len() == 1 ==> search::join_spec(sep, a) == a[0],
        a.len() > 0 && b.len() > 0 ==> search::join_spec(sep, a + b) == search::join_spec(sep, a)
            + sep + search::join_spec(sep, b),
    decreases b.len(),
{
    if a.len() > 0 && b.len() > 0 {
        assert((a + b).last() == b.last());
        assert((a + b).drop_last() =~= a + b.drop_last());
        if b.len() == 1 {
            assert(a + b.drop_last() =~= a);
        } else {
            law_join(sep, a, b.drop_last());
            assert(search::join_spec(sep, a + b) =~= search::join_spec(sep, a) + sep
                + search::join_spec(sep, b));
        }
    }
}

/// How many characters pieces have together.
pub open spec fn total(v: Seq<Seq<char>>) -> nat
    decreases v.len(),
{
    if v.len() == 0 {
        0
    } else {
        total(v.drop_last()) + v.last().len()
    }
}

/// What is joined is as long as the pieces and the separators between them.
pub proof fn law_joined_length(sep: Seq<char>, v: Seq<Seq<char>>)
    requires
        v.len() > 0,
    ensures
        search::join_spec(sep, v).len() == total(v) + (v.len() - 1) * sep.len(),
    decreases v.len(),
{
    if v.len() == 1 {
        assert(total(v.drop_last()) == 0);
    } else {
        law_joined_length(sep, v.drop_last());
        assert((v.len() - 2) * sep.len() + sep.len() == (v.len() - 1) * sep.len())
            by (nonlinear_arith);
    }
}

// ---------------------------------------------------------------------------
// Splitting
// ---------------------------------------------------------------------------

proof fn lemma_split_joins(h: Seq<char>, n: Seq<char>, start: int, from: int, limit: nat)
    requires
        0 <= start <= h.len(),
        start <= from,
    ensures
        search::split_from(h, n, start, from, limit).len() > 0,
        search::join_spec(n, search::split_from(h, n, start, from, limit)) == h.subrange(
            start,
            h.len() as int,
        ),
    decreases limit,
{
    search::law_find_is_least(h, n, from);
    if limit > 1 && from <= h.len() {
        match search::find_from(h, n, from) {
            Some(i) => {
                let rest = search::split_from(
                    h,
                    n,
                    i + n.len(),
                    search::resume(n, i),
                    (limit - 1) as nat,
                );
                lemma_split_joins(h, n, i + n.len(), search::resume(n, i), (limit - 1) as nat);
                law_join(n, seq![h.subrange(start, i)], rest);
                assert(h.subrange(i, i + n.len()) == n);
                assert(h.subrange(start, i) + n + h.subrange(i + n.len(), h.len() as int)
                    =~= h.subrange(start, h.len() as int));
            },
            None => {},
        }
    }
}

/// Splitting loses nothing: the pieces joined by what they were split at are the text.
pub proof fn law_split_joins_back(h: Seq<char>, n: Seq<char>, limit: nat)
    ensures
        search::join_spec(n, search::split_from(h, n, 0, 0, limit)) == h,
{
    lemma_split_joins(h, n, 0, 0, limit);
    assert(h.subrange(0, h.len() as int) =~= h);
}

/// The lesser of two numbers.
pub open spec fn lesser(a: int, b: int) -> int {
    if a <= b {
        a
    } else {
        b
    }
}

proof fn lemma_split_count(h: Seq<char>, n: Seq<char>, start: int, limit: nat)
    requires
        n.len() > 0,
        0 <= start <= h.len(),
        limit >= 1,
    ensures
        search::split_from(h, n, start, start, limit).len() == 1 + lesser(
            limit - 1,
            search::count_from(h, n, start) as int,
        ),
    decreases limit,
{
    search::law_find_is_least(h, n, start);
    if limit > 1 {
        match search::find_from(h, n, start) {
            Some(i) => {
                lemma_split_count(h, n, i + n.len(), (limit - 1) as nat);
            },
            None => {},
        }
    }
}

/// There is one piece more than there are matches, or as many as the limit says.
pub proof fn law_pieces_and_matches(h: Seq<char>, n: Seq<char>, limit: nat)
    requires
        n.len() > 0,
        limit >= 1,
    ensures
        search::split_from(h, n, 0, 0, limit).len() == 1 + lesser(
            limit - 1,
            search::count_from(h, n, 0) as int,
        ),
{
    lemma_split_count(h, n, 0, limit);
}

/// A piece ends where what it is split at comes first.
pub open spec fn ends_at_first(piece: Seq<char>, n: Seq<char>) -> bool {
    forall|j: int| 0 <= j < piece.len() ==> !#[trigger] search::occurs_at(piece + n, n, j)
}

proof fn lemma_pieces(h: Seq<char>, n: Seq<char>, start: int, limit: nat)
    requires
        n.len() > 0,
        0 <= start <= h.len(),
        limit >= 1,
    ensures
        ({
            let v = search::split_from(h, n, start, start, limit);
            &&& v.len() > 0
            &&& forall|k: int| 0 <= k < v.len() - 1 ==> ends_at_first(#[trigger] v[k], n)
            &&& v.len() < limit ==> forall|j: int| !#[trigger] search::occurs_at(v.last(), n, j)
        }),
    decreases limit,
{
    search::law_find_is_least(h, n, start);
    let v = search::split_from(h, n, start, start, limit);
    if limit > 1 {
        match search::find_from(h, n, start) {
            Some(i) => {
                let rest = search::split_from(
                    h,
                    n,
                    i + n.len(),
                    i + n.len(),
                    (limit - 1) as nat,
                );
                lemma_pieces(h, n, i + n.len(), (limit - 1) as nat);
                let first = h.subrange(start, i);
                assert(v == seq![first] + rest);
                assert(v.len() == 1 + rest.len());
                assert(v.last() == rest.last());
                assert forall|j: int| 0 <= j < first.len() implies !#[trigger] search::occurs_at(
                    first + n,
                    n,
                    j,
                ) by {
                    assert(first + n =~= h.subrange(start, i + n.len()));
                    assert((first + n).subrange(j, j + n.len()) =~= h.subrange(
                        start + j,
                        start + j + n.len(),
                    ));
                    assert(!search::occurs_at(h, n, start + j));
                }
                assert forall|k: int| 0 <= k < v.len() - 1 implies ends_at_first(
                    #[trigger] v[k],
                    n,
                ) by {
                    if k > 0 {
                        assert(v[k] == rest[k - 1]);
                    }
                }
            },
            None => {
                let last = h.subrange(start, h.len() as int);
                assert(v == seq![last]);
                assert(v.last() == last);
                assert forall|j: int| !#[trigger] search::occurs_at(last, n, j) by {
                    if 0 <= j && j + n.len() <= last.len() {
                        assert(last.subrange(j, j + n.len()) =~= h.subrange(
                            start + j,
                            start + j + n.len(),
                        ));
                        assert(!search::occurs_at(h, n, start + j));
                    }
                }
            },
        }
    }
}

/// Each piece but the last ends where what the text is split at comes first, and the
/// last piece is free of it unless the limit was reached.
pub proof fn law_pieces_end_at_matches(h: Seq<char>, n: Seq<char>, limit: nat)
    requires
        n.len() > 0,
        limit >= 1,
    ensures
        ({
            let v = search::split_from(h, n, 0, 0, limit);
            &&& v.len() > 0
            &&& forall|k: int| 0 <= k < v.len() - 1 ==> ends_at_first(#[trigger] v[k], n)
            &&& v.len() < limit ==> forall|j: int| !#[trigger] search::occurs_at(v.last(), n, j)
        }),
{
    lemma_pieces(h, n, 0, limit);
}

// ---------------------------------------------------------------------------
// Replacing
// ---------------------------------------------------------------------------

proof fn lemma_replace_joins(
    h: Seq<char>,
    n: Seq<char>,
    by: Seq<char>,
    start: int,
    from: int,
    limit: nat,
)
    requires
        0 <= start <= h.len(),
        start <= from,
    ensures
        search::replace_from(h, n, by, start, from, limit) == search::join_spec(
            by,
            search::split_from(h, n, start, from, limit + 1),
        ),
    decreases limit,
{
    search::law_find_is_least(h, n, from);
    if limit > 0 && from <= h.len() {
        match search::find_from(h, n, from) {
            Some(i) => {
                let rest = search::split_from(h, n, i + n.len(), search::resume(n, i), limit);
                lemma_split_joins(h, n, i + n.len(), search::resume(n, i), limit);
                lemma_replace_joins(
                    h,
                    n,
                    by,
                    i + n.len(),
                    search::resume(n, i),
                    (limit - 1) as nat,
                );
                law_join(by, seq![h.subrange(start, i)], rest);
            },
            None => {},
        }
    }
}

/// Replacing is joining by the replacement the pieces that splitting gives. So what is
/// not matched stays, and every match up to the limit becomes the replacement.
pub proof fn law_replace_joins_the_pieces(h: Seq<char>, n: Seq<char>, by: Seq<char>, limit: nat)
    ensures
        search::replace_from(h, n, by, 0, 0, limit) == search::join_spec(
            by,
            search::split_from(h, n, 0, 0, limit + 1),
        ),
{
    lemma_replace_joins(h, n, by, 0, 0, limit);
}

/// Replacing a text by itself changes nothing.
pub proof fn law_replace_by_itself(h: Seq<char>, n: Seq<char>, limit: nat)
    ensures
        search::replace_from(h, n, n, 0, 0, limit) == h,
{
    law_replace_joins_the_pieces(h, n, n, limit);
    law_split_joins_back(h, n, limit + 1);
}

/// Replacing changes the length by what each match that is replaced grows or shrinks:
/// as many matches as there are, or as the limit allows.
pub proof fn law_replaced_length(h: Seq<char>, n: Seq<char>, by: Seq<char>, limit: nat)
    requires
        n.len() > 0,
    ensures
        search::replace_from(h, n, by, 0, 0, limit).len() == h.len() + lesser(
            limit as int,
            search::count_from(h, n, 0) as int,
        ) * (by.len() - n.len()),
{
    let v = search::split_from(h, n, 0, 0, limit + 1);
    let k = lesser(limit as int, search::count_from(h, n, 0) as int);
    law_replace_joins_the_pieces(h, n, by, limit);
    law_split_joins_back(h, n, limit + 1);
    law_pieces_and_matches(h, n, limit + 1);
    law_joined_length(n, v);
    law_joined_length(by, v);
    assert(k * (by.len() - n.len()) == k * by.len() - k * n.len()) by (nonlinear_arith);
}

/// A text without a match is replaced by itself and counts none.
pub proof fn law_no_match(h: Seq<char>, n: Seq<char>, by: Seq<char>, limit: nat)
    requires
        forall|j: int| !#[trigger] search::occurs_at(h, n, j),
    ensures
        search::replace_from(h, n, by, 0, 0, limit) == h,
        search::split_from(h, n, 0, 0, limit) == seq![h],
        search::count_from(h, n, 0) == 0,
{
    search::law_find_is_least(h, n, 0);
    assert(h.subrange(0, h.len() as int) =~= h);
}

// ---------------------------------------------------------------------------
// Lines
// ---------------------------------------------------------------------------

/// The pieces one after the other.
pub open spec fn chained(v: Seq<Seq<char>>) -> Seq<char> {
    search::join_spec(Seq::empty(), v)
}

/// The character ends a line.
pub open spec fn breaks(c: char) -> bool {
    c == '\n' || c == '\r'
}

proof fn lemma_break(s: Seq<char>, from: int)
    requires
        0 <= from <= s.len(),
    ensures
        from <= search::break_from(s, from) <= s.len(),
        forall|i: int| from <= i < search::break_from(s, from) ==> !breaks(#[trigger] s[i]),
        search::break_from(s, from) < s.len() ==> breaks(s[search::break_from(s, from)]),
    decreases s.len() - from,
{
    if from < s.len() && !breaks(s[from]) {
        lemma_break(s, from + 1);
    }
}

/// A line with what ends it: it is not empty, and only its last character can end a
/// line.
pub open spec fn is_line(l: Seq<char>) -> bool {
    l.len() > 0 && forall|i: int| 0 <= i < l.len() - 1 ==> !breaks(#[trigger] l[i])
}

/// A line without what ends it.
pub open spec fn bare_line(l: Seq<char>) -> Seq<char> {
    if l.len() > 0 && breaks(l.last()) {
        l.drop_last()
    } else {
        l
    }
}

proof fn lemma_lines(s: Seq<char>, start: int)
    requires
        0 <= start <= s.len(),
    ensures
        ({
            let v = search::lines_from(s, true, start);
            let b = search::lines_from(s, false, start);
            &&& chained(v) == s.subrange(start, s.len() as int)
            &&& forall|i: int| 0 <= i < v.len() ==> is_line(#[trigger] v[i])
            &&& forall|i: int| 0 <= i < v.len() - 1 ==> breaks((#[trigger] v[i]).last())
            &&& b.len() == v.len()
            &&& forall|i: int| 0 <= i < v.len() ==> #[trigger] b[i] == bare_line(v[i])
        }),
    decreases s.len() - start,
{
    let v = search::lines_from(s, true, start);
    let b = search::lines_from(s, false, start);
    lemma_break(s, start);
    let k = search::break_from(s, start);
    if start >= s.len() {
        assert(s.subrange(start, s.len() as int) =~= Seq::<char>::empty());
    } else if k >= s.len() {
        let only = s.subrange(start, s.len() as int);
        assert(!breaks(s[s.len() - 1]));
        assert(only.last() == s[s.len() - 1]);
        assert(v =~= seq![only] && b =~= seq![only]);
    } else {
        let first = s.subrange(start, k + 1);
        lemma_lines(s, k + 1);
        let rest = search::lines_from(s, true, k + 1);
        let bare = search::lines_from(s, false, k + 1);
        assert(v == seq![first] + rest);
        assert(b == seq![s.subrange(start, k)] + bare);
        assert(first.last() == s[k]);
        assert(first.drop_last() =~= s.subrange(start, k));
        if rest.len() > 0 {
            law_join(Seq::empty(), seq![first], rest);
            assert(first + Seq::<char>::empty() =~= first);
        } else {
            assert(v =~= seq![first]);
            assert(s.subrange(k + 1, s.len() as int) =~= Seq::<char>::empty());
        }
        assert(first + s.subrange(k + 1, s.len() as int) =~= s.subrange(start, s.len() as int));
        assert forall|i: int| 0 <= i < v.len() implies is_line(#[trigger] v[i]) && b[i]
            == bare_line(v[i]) && (i < v.len() - 1 ==> breaks(v[i].last())) by {
            if i > 0 {
                assert(v[i] == rest[i - 1]);
                assert(b[i] == bare[i - 1]);
            }
        }
    }
}

/// The lines with what ends them are the text, one after the other. Each of them ends
/// at the first character that ends a line, the last one perhaps without one, and
/// without what ends them they are the lines that are not kept whole.
pub proof fn law_lines(s: Seq<char>)
    ensures
        ({
            let v = search::lines_from(s, true, 0);
            let b = search::lines_from(s, false, 0);
            &&& chained(v) == s
            &&& forall|i: int| 0 <= i < v.len() ==> is_line(#[trigger] v[i])
            &&& forall|i: int| 0 <= i < v.len() - 1 ==> breaks((#[trigger] v[i]).last())
            &&& b.len() == v.len()
            &&& forall|i: int| 0 <= i < v.len() ==> #[trigger] b[i] == bare_line(v[i])
        }),
{
    lemma_lines(s, 0);
    assert(s.subrange(0, s.len() as int) =~= s);
}

// ---------------------------------------------------------------------------
// Splitting from the right
// ---------------------------------------------------------------------------

proof fn lemma_rfind_fits(h: Seq<char>, n: Seq<char>)
    ensures
        search::rfind_spec(h, n) matches Some(i) ==> 0 <= i && i + n.len() <= h.len()
            && h.subrange(i, i + n.len()) == n,
{
    search::law_rfind_is_greatest(h, n);
}

/// The pieces joined by what they were split at are the text.
proof fn lemma_rsplit_joins(h: Seq<char>, n: Seq<char>, limit: nat)
    ensures
        mypyc_tail::rsplit_rev(h, n, limit).len() > 0,
        search::join_spec(n, mypyc_tail::rsplit_rev(h, n, limit).reverse()) == h,
    decreases limit,
{
    lemma_rfind_fits(h, n);
    let v = mypyc_tail::rsplit_rev(h, n, limit);
    if limit == 0 || search::rfind_spec(h, n) is None {
        assert(v.reverse() =~= seq![h]);
    } else {
        let i = search::rfind_spec(h, n)->0;
        let front = h.subrange(0, i);
        let last = h.subrange(i + n.len(), h.len() as int);
        let rest = mypyc_tail::rsplit_rev(front, n, (limit - 1) as nat);
        lemma_rsplit_joins(front, n, (limit - 1) as nat);
        assert(v.reverse() =~= rest.reverse() + seq![last]);
        law_join(n, rest.reverse(), seq![last]);
        law_join(n, seq![last], rest.reverse());
        assert(h =~= front + n + last);
    }
}

/// Splitting from the right loses nothing. It makes at most as many splits as are
/// allowed, each of its pieces but the first is free of what the text is split at, and
/// so is the first one unless the limit was reached.
pub proof fn law_rsplit(h: Seq<char>, n: Seq<char>, limit: nat)
    requires
        n.len() > 0,
    ensures
        ({
            let v = mypyc_tail::rsplit_rev(h, n, limit).reverse();
            &&& 0 < v.len() <= limit + 1
            &&& search::join_spec(n, v) == h
            &&& forall|k: int, j: int|
                0 < k < v.len() ==> !#[trigger] search::occurs_at(v[k], n, j)
            &&& v.len() < limit + 1 ==> forall|j: int| !#[trigger] search::occurs_at(v[0], n, j)
        }),
    decreases limit,
{
    lemma_rsplit_joins(h, n, limit);
    search::law_rfind_is_greatest(h, n);
    let r = mypyc_tail::rsplit_rev(h, n, limit);
    if limit == 0 || search::rfind_spec(h, n) is None {
        assert(r.reverse() =~= seq![h]);
    } else {
        let i = search::rfind_spec(h, n)->0;
        let front = h.subrange(0, i);
        let last = h.subrange(i + n.len(), h.len() as int);
        law_rsplit(front, n, (limit - 1) as nat);
        let rest = mypyc_tail::rsplit_rev(front, n, (limit - 1) as nat).reverse();
        let v = r.reverse();
        assert(v =~= rest + seq![last]);
        assert forall|j: int| !#[trigger] search::occurs_at(last, n, j) by {
            if 0 <= j && j + n.len() <= last.len() {
                assert(last.subrange(j, j + n.len()) =~= h.subrange(
                    i + n.len() + j,
                    i + n.len() + j + n.len(),
                ));
                assert(!search::occurs_at(h, n, i + n.len() + j));
            }
        }
        assert forall|k: int, j: int| 0 < k < v.len() implies !#[trigger] search::occurs_at(
            v[k],
            n,
            j,
        ) by {
            if k < rest.len() {
                assert(v[k] == rest[k]);
            } else {
                assert(v[k] == last);
            }
        }
        assert(v[0] == rest[0]);
    }
}

// ---------------------------------------------------------------------------
// Words
// ---------------------------------------------------------------------------

/// Every character is whitespace.
pub open spec fn blank(s: Seq<char>) -> bool {
    forall|i: int| 0 <= i < s.len() ==> strings::char_is_whitespace(#[trigger] s[i])
}

/// A run of characters that are no whitespace, one at least.
pub open spec fn is_word(s: Seq<char>) -> bool {
    s.len() > 0 && forall|i: int|
        0 <= i < s.len() ==> !strings::char_is_whitespace(#[trigger] s[i])
}

proof fn lemma_ws(s: Seq<char>, from: int, ws: bool)
    requires
        0 <= from <= s.len(),
    ensures
        from <= strings::ws_from(s, from, ws) <= s.len(),
        forall|i: int|
            from <= i < strings::ws_from(s, from, ws) ==> strings::char_is_whitespace(
                #[trigger] s[i],
            ) == !ws,
        strings::ws_from(s, from, ws) < s.len() ==> strings::char_is_whitespace(
            s[strings::ws_from(s, from, ws)],
        ) == ws,
    decreases s.len() - from,
{
    if from < s.len() && strings::char_is_whitespace(s[from]) != ws {
        lemma_ws(s, from + 1, ws);
    }
}

proof fn lemma_ws_is(s: Seq<char>, from: int, ws: bool, at: int)
    requires
        0 <= from <= at <= s.len(),
        forall|i: int|
            from <= i < at ==> strings::char_is_whitespace(#[trigger] s[i]) == !ws,
        at < s.len() ==> strings::char_is_whitespace(s[at]) == ws,
    ensures
        strings::ws_from(s, from, ws) == at,
    decreases at - from,
{
    if from < at {
        lemma_ws_is(s, from + 1, ws, at);
    }
}

/// Where the search starts does not matter, only what is left of the text.
proof fn lemma_words_shift(s: Seq<char>, k: int, from: int)
    requires
        0 <= k <= from <= s.len(),
    ensures
        strings::words_from(s, from) == strings::words_from(
            s.subrange(k, s.len() as int),
            from - k,
        ),
    decreases s.len() - from,
{
    let t = s.subrange(k, s.len() as int);
    lemma_ws(s, from, false);
    let a = strings::ws_from(s, from, false);
    lemma_ws(s, a, true);
    let b = strings::ws_from(s, a, true);
    assert forall|i: int| from - k <= i < a - k implies strings::char_is_whitespace(
        #[trigger] t[i],
    ) by {
        assert(t[i] == s[i + k]);
    }
    lemma_ws_is(t, from - k, false, a - k);
    assert forall|i: int| a - k <= i < b - k implies !strings::char_is_whitespace(
        #[trigger] t[i],
    ) by {
        assert(t[i] == s[i + k]);
    }
    lemma_ws_is(t, a - k, true, b - k);
    if a < s.len() {
        lemma_words_shift(s, k, b);
        assert(t.subrange(a - k, b - k) =~= s.subrange(a, b));
    }
}

/// Whitespace has no words. A text that is whitespace, a word, and then nothing or a
/// rest that starts with whitespace, has that word first and then the words of the rest.
pub proof fn law_words(space: Seq<char>, word: Seq<char>, rest: Seq<char>)
    requires
        blank(space),
        is_word(word),
        rest.len() > 0 ==> strings::char_is_whitespace(rest[0]),
    ensures
        strings::words_from(space, 0) == Seq::<Seq<char>>::empty(),
        strings::words_from(space + word + rest, 0) == seq![word] + strings::words_from(rest, 0),
{
    lemma_ws_is(space, 0, false, space.len() as int);
    let s = space + word + rest;
    let a = space.len() as int;
    let b = (space.len() + word.len()) as int;
    assert forall|i: int| 0 <= i < a implies strings::char_is_whitespace(#[trigger] s[i]) by {
        assert(s[i] == space[i]);
    }
    assert(s[a] == word[0]);
    lemma_ws_is(s, 0, false, a);
    assert forall|i: int| a <= i < b implies !strings::char_is_whitespace(#[trigger] s[i]) by {
        assert(s[i] == word[i - a]);
    }
    if rest.len() > 0 {
        assert(s[b] == rest[0]);
    }
    lemma_ws_is(s, a, true, b);
    assert(s.subrange(a, b) =~= word);
    lemma_words_shift(s, b, b);
    assert(s.subrange(b, s.len() as int) =~= rest);
}

/// Cutting whitespace off the end takes away whitespace only, and all of it.
pub proof fn law_trim_end(s: Seq<char>)
    ensures
        ({
            let t = strings::trim_end(s);
            &&& t.len() <= s.len()
            &&& t == s.take(t.len() as int)
            &&& blank(s.skip(t.len() as int))
            &&& t.len() > 0 ==> !strings::char_is_whitespace(t.last())
        }),
    decreases s.len(),
{
    let t = strings::trim_end(s);
    if s.len() > 0 && strings::char_is_whitespace(s.last()) {
        law_trim_end(s.drop_last());
        assert(s.drop_last().take(t.len() as int) =~= s.take(t.len() as int));
        assert forall|i: int| 0 <= i < s.skip(t.len() as int).len() implies
            strings::char_is_whitespace(#[trigger] s.skip(t.len() as int)[i]) by {
            if i + t.len() < s.len() - 1 {
                assert(s.drop_last().skip(t.len() as int)[i] == s.skip(t.len() as int)[i]);
            }
        }
    } else {
        assert(s.take(s.len() as int) =~= s);
    }
}

proof fn lemma_last_ws(s: Seq<char>, i: int)
    requires
        -1 <= i < s.len(),
    ensures
        -1 <= mypyc_tail::last_ws(s, i) <= i,
        mypyc_tail::last_ws(s, i) >= 0 ==> strings::char_is_whitespace(
            s[mypyc_tail::last_ws(s, i)],
        ),
        forall|j: int|
            mypyc_tail::last_ws(s, i) < j <= i ==> !strings::char_is_whitespace(#[trigger] s[j]),
    decreases i + 1,
{
    if i >= 0 && !strings::char_is_whitespace(s[i]) {
        lemma_last_ws(s, i - 1);
    }
}

/// From the right, with as many splits as are allowed: the last word comes first, then
/// the words of what is before it and its whitespace. What is left when no split is
/// allowed any more is one piece.
pub proof fn law_words_from_the_right(front: Seq<char>, space: Seq<char>, word: Seq<char>, limit: nat)
    requires
        blank(space),
        space.len() > 0,
        is_word(word),
        front.len() > 0 ==> !strings::char_is_whitespace(front.last()),
    ensures
        mypyc_tail::rwords_rev(Seq::empty(), limit) == Seq::<Seq<char>>::empty(),
        mypyc_tail::rwords_rev(word, limit) == seq![word],
        mypyc_tail::rwords_rev(front + space + word, 0) == seq![front + space + word],
        mypyc_tail::rwords_rev(front + space + word, limit + 1) == seq![word]
            + mypyc_tail::rwords_rev(front, limit),
{
    lemma_last_ws(word, word.len() - 1);
    if limit > 0 {
        let w = mypyc_tail::last_ws(word, word.len() - 1);
        assert(w < 0);
    }
    let s = front + space + word;
    lemma_last_ws(s, s.len() - 1);
    let i = mypyc_tail::last_ws(s, s.len() - 1);
    let at = front.len() + space.len() - 1;
    assert(s[at as int] == space[space.len() - 1]);
    assert(i >= at);
    if i > at {
        assert(s[i] == word[i - at - 1]);
    }
    assert(s.subrange(i + 1, s.len() as int) =~= word);
    let cut = s.subrange(0, i);
    law_trim_end(cut);
    let t = strings::trim_end(cut);
    if t.len() > front.len() {
        assert(t.last() == cut[t.len() - 1]);
        assert(cut[t.len() - 1] == space[t.len() - 1 - front.len()]);
        assert(false);
    }
    if t.len() < front.len() {
        assert(cut.skip(t.len() as int)[front.len() - 1 - t.len()] == front.last());
        assert(false);
    }
    assert(t =~= front);
}

// ---------------------------------------------------------------------------
// Parts of a text
// ---------------------------------------------------------------------------

/// Searching a part of a text finds what lies in that part, and an index in the part
/// counts from its start.
pub proof fn law_window(h: Seq<char>, n: Seq<char>, start: int, end: int, i: int)
    requires
        0 <= start,
        0 <= end,
    ensures
        start <= end && start <= h.len() ==> (search::occurs_at(
            strings::window(h, start, end),
            n,
            i,
        ) <==> 0 <= i && start + i + n.len() <= end && search::occurs_at(h, n, start + i)),
        start > end || start > h.len() ==> strings::window(h, start, end).len() == 0,
{
    let w = strings::window(h, start, end);
    if start <= end && start <= h.len() && 0 <= i && i + n.len() <= w.len() {
        assert(w.subrange(i, i + n.len()) =~= h.subrange(start + i, start + i + n.len()));
    }
}

/// A negative bound counts as zero.
pub proof fn law_size(n: isize)
    ensures
        n >= 0 ==> strings::size_of(n) == n,
        n < 0 ==> strings::size_of(n) == 0,
{
}

// ---------------------------------------------------------------------------
// Order
// ---------------------------------------------------------------------------

/// Texts are equal, or one starts with the other and is greater, or the first bytes in
/// which they differ decide.
pub proof fn law_order(common: Seq<u8>, a: Seq<u8>, b: Seq<u8>)
    ensures
        strings::lex(common, common) == 0,
        a.len() > 0 ==> strings::lex(common, common + a) == -1 && strings::lex(common + a, common)
            == 1,
        a.len() > 0 && b.len() > 0 && a[0] < b[0] ==> strings::lex(common + a, common + b) == -1
            && strings::lex(common + b, common + a) == 1,
    decreases common.len(),
{
    if common.len() > 0 {
        law_order(common.drop_first(), a, b);
        assert((common + a).drop_first() =~= common.drop_first() + a);
        assert((common + b).drop_first() =~= common.drop_first() + b);
    } else {
        assert(common + a =~= a);
        assert(common + b =~= b);
    }
}

/// The six comparisons of an order: less, at most, equal, different, greater and at
/// least, in this order.
pub proof fn law_rich(a: int, b: int)
    ensures
        strings::rich(a - b, 0) == (a < b),
        strings::rich(a - b, 1) == (a <= b),
        strings::rich(a - b, 2) == (a == b),
        strings::rich(a - b, 3) == (a != b),
        strings::rich(a - b, 4) == (a > b),
        strings::rich(a - b, 5) == (a >= b),
{
}

// ---------------------------------------------------------------------------
// Bytes
// ---------------------------------------------------------------------------

/// The bytes of an item.
pub open spec fn chunk(o: Object) -> Seq<u8> {
    match o {
        Object::Bytes(b) => b@,
        Object::ByteArray(b) => b@,
        _ => Seq::empty(),
    }
}

/// Joining no items gives nothing, joining one gives its bytes, and one item more adds
/// the separator and its bytes.
pub proof fn law_bytes_join(sep: Seq<u8>, items: Seq<Object>, n: int)
    requires
        0 <= n < items.len(),
        items[n] is Bytes || items[n] is ByteArray,
    ensures
        mypyc_tail::bytes_joined(sep, items, 0) == Seq::<u8>::empty(),
        n == 0 ==> mypyc_tail::bytes_joined(sep, items, n + 1) == chunk(items[n]),
        n > 0 ==> mypyc_tail::bytes_joined(sep, items, n + 1) == mypyc_tail::bytes_joined(
            sep,
            items,
            n,
        ) + sep + chunk(items[n]),
{
}

// ---------------------------------------------------------------------------
// Counting in a part of a text
// ---------------------------------------------------------------------------

/// Counting in a part of a text is counting in that part as a text of its own: bounds
/// may count from the end, and bounds beyond the text end with it.
pub proof fn law_count(h: Seq<char>, n: Seq<char>, start: int, end: int, beyond: nat)
    requires
        n.len() > 0,
        0 <= start <= end <= h.len(),
    ensures
        mypyc_tail::count_spec(h, n, start, end) == search::split_from(
            h.subrange(start, end),
            n,
            0,
            0,
            h.len() + 2,
        ).len() - 1,
        end < h.len() ==> mypyc_tail::count_spec(h, n, start, end - h.len())
            == mypyc_tail::count_spec(h, n, start, end),
        start < h.len() ==> mypyc_tail::count_spec(h, n, start - h.len(), end)
            == mypyc_tail::count_spec(h, n, start, end),
        mypyc_tail::count_spec(h, n, start, (h.len() + beyond) as int) == mypyc_tail::count_spec(
            h,
            n,
            start,
            h.len() as int,
        ),
        mypyc_tail::count_spec(h, Seq::empty(), start, end) == end - start + 1,
{
    let w = h.subrange(start, end);
    lemma_count_bound(w, n, 0);
    law_pieces_and_matches(w, n, h.len() + 2);
    if start == end {
        assert(search::find_from(w, n, 0) is None);
    }
}

/// There are no more matches than characters.
proof fn lemma_count_bound(h: Seq<char>, n: Seq<char>, from: int)
    requires
        n.len() > 0,
        0 <= from <= h.len(),
    ensures
        search::count_from(h, n, from) <= h.len() - from,
    decreases h.len() - from,
{
    search::law_find_is_least(h, n, from);
    match search::find_from(h, n, from) {
        Some(i) => {
            lemma_count_bound(h, n, i + n.len());
        },
        None => {},
    }
}

} // verus!
