//! Substring search, splitting, replacing and joining over code points.

use vstd::prelude::*;
use crate::text::{push_all, slice_of};

verus! {

/// `n` occurs in `h` at index `i`.
pub open spec fn occurs_at(h: Seq<char>, n: Seq<char>, i: int) -> bool {
    0 <= i && i + n.len() <= h.len() && h.subrange(i, i + n.len()) == n
}

/// The least index at or after `from` where `n` occurs in `h`.
pub open spec fn find_from(h: Seq<char>, n: Seq<char>, from: int) -> Option<int>
    decreases h.len() + 1 - from,
{
    if from < 0 || from + n.len() > h.len() {
        None
    } else if occurs_at(h, n, from) {
        Some(from)
    } else {
        find_from(h, n, from + 1)
    }
}

/// The greatest index at or below `upto` where `n` occurs in `h`.
pub open spec fn rfind_upto(h: Seq<char>, n: Seq<char>, upto: int) -> Option<int>
    decreases upto + 1,
{
    if upto < 0 {
        None
    } else if occurs_at(h, n, upto) {
        Some(upto)
    } else {
        rfind_upto(h, n, upto - 1)
    }
}

/// The greatest index where `n` occurs in `h`.
pub open spec fn rfind_spec(h: Seq<char>, n: Seq<char>) -> Option<int> {
    rfind_upto(h, n, h.len() - n.len())
}

/// Searching forwards gives the least occurrence, and `None` exactly where
/// there is none.
pub proof fn law_find_is_least(h: Seq<char>, n: Seq<char>, from: int)
    requires
        0 <= from,
    ensures
        match find_from(h, n, from) {
            Some(i) => from <= i && occurs_at(h, n, i) && forall|j: int|
                from <= j < i ==> !occurs_at(h, n, j),
            None => forall|j: int| from <= j ==> !occurs_at(h, n, j),
        },
    decreases h.len() + 1 - from,
{
    if from + n.len() <= h.len() && !occurs_at(h, n, from) {
        law_find_is_least(h, n, from + 1);
    }
}

/// Searching backwards gives the greatest occurrence, and `None` exactly where
/// there is none.
pub proof fn law_rfind_is_greatest(h: Seq<char>, n: Seq<char>)
    ensures
        match rfind_spec(h, n) {
            Some(i) => occurs_at(h, n, i) && forall|j: int| i < j ==> !occurs_at(h, n, j),
            None => forall|j: int| !occurs_at(h, n, j),
        },
{
    lemma_rfind_upto(h, n, h.len() - n.len());
}

proof fn lemma_rfind_upto(h: Seq<char>, n: Seq<char>, upto: int)
    ensures
        match rfind_upto(h, n, upto) {
            Some(i) => 0 <= i <= upto && occurs_at(h, n, i) && forall|j: int|
                i < j <= upto ==> !occurs_at(h, n, j),
            None => forall|j: int| j <= upto ==> !occurs_at(h, n, j),
        },
    decreases upto + 1,
{
    if upto >= 0 && !occurs_at(h, n, upto) {
        lemma_rfind_upto(h, n, upto - 1);
    }
}

/// Whether `n` occurs in `h` at `i`.
pub fn occurs(h: &[char], n: &[char], i: usize) -> (r: bool)
    ensures
        r == occurs_at(h@, n@, i as int),
{
    if i > h.len() || n.len() > h.len() - i {
        return false;
    }
    let mut k: usize = 0;
    while k < n.len()
        invariant
            k <= n.len(),
            i + n.len() <= h.len(),
            forall|q: int| 0 <= q < k ==> h@[i + q] == n@[q],
        decreases n.len() - k,
    {
        if h[i + k] != n[k] {
            assert(h@.subrange(i as int, i + n@.len())[k as int] != n@[k as int]);
            return false;
        }
        k = k + 1;
    }
    assert(h@.subrange(i as int, i + n@.len()) =~= n@);
    true
}

/// The least index at or after `from` where `n` occurs in `h`.
pub fn find(h: &[char], n: &[char], from: usize) -> (r: Option<usize>)
    ensures
        match r {
            Some(i) => find_from(h@, n@, from as int) == Some(i as int) && from <= i && i
                + n@.len() <= h@.len(),
            None => find_from(h@, n@, from as int) is None,
        },
{
    let mut i: usize = from;
    if n.len() > h.len() {
        return None;
    }
    let last: usize = h.len() - n.len();
    while i <= last
        invariant
            from <= i,
            last == h@.len() - n@.len(),
            find_from(h@, n@, from as int) == find_from(h@, n@, i as int),
        decreases last + 1 - i,
    {
        if occurs(h, n, i) {
            return Some(i);
        }
        if i == last {
            assert(find_from(h@, n@, i + 1) is None);
            return None;
        }
        i = i + 1;
    }
    None
}

/// The greatest index where `n` occurs in `h`.
pub fn rfind(h: &[char], n: &[char]) -> (r: Option<usize>)
    ensures
        match r {
            Some(i) => rfind_spec(h@, n@) == Some(i as int) && i + n@.len() <= h@.len(),
            None => rfind_spec(h@, n@) is None,
        },
{
    if n.len() > h.len() {
        return None;
    }
    let mut i: usize = h.len() - n.len();
    loop
        invariant
            i <= h@.len() - n@.len(),
            rfind_spec(h@, n@) == rfind_upto(h@, n@, i as int),
        decreases i,
    {
        if occurs(h, n, i) {
            return Some(i);
        }
        if i == 0 {
            assert(rfind_upto(h@, n@, -1) is None);
            return None;
        }
        i = i - 1;
    }
}

/// The number of matches of a non-empty `n` in `h` from `from` on, each search
/// starting where the match before it ended.
pub open spec fn count_from(h: Seq<char>, n: Seq<char>, from: int) -> nat
    decreases h.len() - from,
{
    if n.len() == 0 || from < 0 || from > h.len() {
        0
    } else {
        match find_from(h, n, from) {
            Some(i) => if from <= i && i + n.len() <= h.len() {
                1 + count_from(h, n, i + n.len())
            } else {
                0
            },
            None => 0,
        }
    }
}

/// Count the non-overlapping matches of a non-empty `n` in `h`.
pub fn count(h: &[char], n: &[char]) -> (r: usize)
    requires
        n@.len() > 0,
    ensures
        r == count_from(h@, n@, 0),
        r <= h@.len(),
{
    let mut total: usize = 0;
    let mut at: usize = 0;
    let end: usize = h.len();
    loop
        invariant
            n@.len() > 0,
            end == h@.len(),
            at <= h@.len(),
            total <= at,
            count_from(h@, n@, 0) == total + count_from(h@, n@, at as int),
        decreases h@.len() - at,
    {
        match find(h, n, at) {
            Some(i) => {
                total = total + 1;
                at = i + n.len();
            },
            None => {
                return total;
            },
        }
    }
}

/// Where the search goes on after a match of `n` at `i`: an empty pattern
/// matches once at every boundary.
pub open spec fn resume(n: Seq<char>, i: int) -> int {
    if n.len() == 0 {
        i + 1
    } else {
        i + n.len()
    }
}

/// The pieces of `h[start..]` between the first `limit - 1` matches of `n`
/// that start at or after `from`.
pub open spec fn split_from(
    h: Seq<char>,
    n: Seq<char>,
    start: int,
    from: int,
    limit: nat,
) -> Seq<Seq<char>>
    decreases limit,
{
    if limit <= 1 || from < 0 || from > h.len() {
        seq![h.subrange(start, h.len() as int)]
    } else {
        match find_from(h, n, from) {
            Some(i) => if from <= i {
                seq![h.subrange(start, i)] + split_from(
                    h,
                    n,
                    i + n.len(),
                    resume(n, i),
                    (limit - 1) as nat,
                )
            } else {
                Seq::empty()
            },
            None => seq![h.subrange(start, h.len() as int)],
        }
    }
}

/// The views of a vector of texts.
pub open spec fn texts(v: Seq<Vec<char>>) -> Seq<Seq<char>> {
    v.map_values(|t: Vec<char>| t@)
}

proof fn lemma_texts_push(v: Seq<Vec<char>>, t: Vec<char>)
    ensures
        texts(v.push(t)) == texts(v).push(t@),
{
    assert(texts(v.push(t)) =~= texts(v).push(t@));
}

/// Append a piece.
pub fn push_piece(out: &mut Vec<Vec<char>>, t: Vec<char>)
    ensures
        texts(final(out)@) == texts(old(out)@).push(t@),
        final(out)@ == old(out)@.push(t),
{
    proof {
        lemma_texts_push(out@, t);
    }
    out.push(t);
}

/// Split `h` at matches of `n` into at most `limit` pieces.
pub fn splitn(h: &[char], n: &[char], limit: usize) -> (r: Vec<Vec<char>>)
    requires
        limit >= 1,
    ensures
        texts(r@) == split_from(h@, n@, 0, 0, limit as nat),
{
    let mut out: Vec<Vec<char>> = Vec::new();
    let mut start: usize = 0;
    let mut from: usize = 0;
    let mut left: usize = limit;
    let ghost whole = split_from(h@, n@, 0, 0, limit as nat);
    assert(texts(out@) =~= Seq::<Seq<char>>::empty());
    assert(texts(out@) + whole =~= whole);
    loop
        invariant
            left >= 1,
            start <= h@.len(),
            start <= from,
            whole == split_from(h@, n@, 0, 0, limit as nat),
            whole == texts(out@) + split_from(h@, n@, start as int, from as int, left as nat),
        decreases left,
    {
        let ghost rest = split_from(h@, n@, start as int, from as int, left as nat);
        if left <= 1 || from > h.len() {
            push_piece(&mut out, slice_of(h, start, h.len()));
            assert(texts(out@) =~= whole);
            return out;
        }
        match find(h, n, from) {
            Some(i) => {
                let ghost before = texts(out@);
                push_piece(&mut out, slice_of(h, start, i));
                let ghost next = split_from(
                    h@,
                    n@,
                    i + n@.len(),
                    resume(n@, i as int),
                    (left - 1) as nat,
                );
                assert(rest == seq![h@.subrange(start as int, i as int)] + next);
                assert(before + rest =~= texts(out@) + next);
                if n.len() == 0 && i == h.len() {
                    push_piece(&mut out, slice_of(h, i, i));
                    assert(texts(out@) =~= whole);
                    return out;
                }
                start = i + n.len();
                from = if n.len() == 0 {
                    i + 1
                } else {
                    i + n.len()
                };
                left = left - 1;
            },
            None => {
                push_piece(&mut out, slice_of(h, start, h.len()));
                assert(texts(out@) =~= whole);
                return out;
            },
        }
    }
}

/// `h[start..]` with the first `limit` matches of `n` from `from` on replaced
/// by `by`.
pub open spec fn replace_from(
    h: Seq<char>,
    n: Seq<char>,
    by: Seq<char>,
    start: int,
    from: int,
    limit: nat,
) -> Seq<char>
    decreases limit,
{
    if limit == 0 || from < 0 || from > h.len() {
        h.subrange(start, h.len() as int)
    } else {
        match find_from(h, n, from) {
            Some(i) => if from <= i {
                h.subrange(start, i) + by + replace_from(
                    h,
                    n,
                    by,
                    i + n.len(),
                    resume(n, i),
                    (limit - 1) as nat,
                )
            } else {
                Seq::empty()
            },
            None => h.subrange(start, h.len() as int),
        }
    }
}

/// Replace the first `limit` matches of `n` in `h` by `by`.
pub fn replacen(h: &[char], n: &[char], by: &[char], limit: usize) -> (r: Vec<char>)
    ensures
        r@ == replace_from(h@, n@, by@, 0, 0, limit as nat),
{
    let mut out: Vec<char> = Vec::new();
    let mut start: usize = 0;
    let mut from: usize = 0;
    let mut left: usize = limit;
    let ghost whole = replace_from(h@, n@, by@, 0, 0, limit as nat);
    assert(out@ + whole =~= whole);
    loop
        invariant
            start <= h@.len(),
            start <= from,
            whole == replace_from(h@, n@, by@, 0, 0, limit as nat),
            whole == out@ + replace_from(
                h@,
                n@,
                by@,
                start as int,
                from as int,
                left as nat,
            ),
        decreases left,
    {
        let ghost rest = replace_from(h@, n@, by@, start as int, from as int, left as nat);
        let ghost before = out@;
        if left == 0 || from > h.len() {
            push_all(&mut out, slice_of(h, start, h.len()).as_slice());
            return out;
        }
        match find(h, n, from) {
            Some(i) => {
                push_all(&mut out, slice_of(h, start, i).as_slice());
                push_all(&mut out, by);
                let ghost next = replace_from(
                    h@,
                    n@,
                    by@,
                    i + n@.len(),
                    resume(n@, i as int),
                    (left - 1) as nat,
                );
                assert(rest == h@.subrange(start as int, i as int) + by@ + next);
                assert(before + rest =~= out@ + next);
                if n.len() == 0 && i == h.len() {
                    assert(next =~= Seq::<char>::empty());
                    assert(out@ =~= whole);
                    return out;
                }
                start = i + n.len();
                from = if n.len() == 0 {
                    i + 1
                } else {
                    i + n.len()
                };
                left = left - 1;
            },
            None => {
                push_all(&mut out, slice_of(h, start, h.len()).as_slice());
                return out;
            },
        }
    }
}

/// The pieces with `sep` between each two.
pub open spec fn join_spec(sep: Seq<char>, v: Seq<Seq<char>>) -> Seq<char>
    decreases v.len(),
{
    if v.len() == 0 {
        Seq::empty()
    } else if v.len() == 1 {
        v[0]
    } else {
        join_spec(sep, v.drop_last()) + sep + v.last()
    }
}

/// Join texts with a separator.
pub fn join(sep: &[char], v: &Vec<Vec<char>>) -> (r: Vec<char>)
    ensures
        r@ == join_spec(sep@, texts(v@)),
{
    let mut out: Vec<char> = Vec::new();
    let mut i: usize = 0;
    assert(texts(v@).subrange(0, 0) =~= Seq::<Seq<char>>::empty());
    while i < v.len()
        invariant
            i <= v@.len(),
            out@ == join_spec(sep@, texts(v@).subrange(0, i as int)),
        decreases v.len() - i,
    {
        let ghost t = texts(v@).subrange(0, i + 1);
        assert(t.drop_last() =~= texts(v@).subrange(0, i as int));
        assert(t.last() == v@[i as int]@);
        if i > 0 {
            push_all(&mut out, sep);
        }
        push_all(&mut out, v[i].as_slice());
        assert(out@ =~= join_spec(sep@, t));
        i = i + 1;
    }
    assert(texts(v@).subrange(0, v@.len() as int) =~= texts(v@));
    out
}

/// The first line break (line feed or carriage return) at or after `from`.
pub open spec fn break_from(s: Seq<char>, from: int) -> int
    decreases s.len() - from,
{
    if from < 0 || from >= s.len() || s[from] == '\n' || s[from] == '\r' {
        from
    } else {
        break_from(s, from + 1)
    }
}

/// The lines of `s[start..]`, each kept with its break where `keep` is set. A
/// trailing run without a break is a line unless it is empty.
pub open spec fn lines_from(s: Seq<char>, keep: bool, start: int) -> Seq<Seq<char>>
    decreases s.len() - start,
{
    let k = break_from(s, start);
    if start < 0 || start >= s.len() || k < start {
        Seq::empty()
    } else if k >= s.len() {
        seq![s.subrange(start, s.len() as int)]
    } else {
        seq![s.subrange(start, if keep { k + 1 } else { k })] + lines_from(s, keep, k + 1)
    }
}

/// Split a text into lines.
pub fn lines(s: &[char], keep: bool) -> (r: Vec<Vec<char>>)
    ensures
        texts(r@) == lines_from(s@, keep, 0),
{
    let mut out: Vec<Vec<char>> = Vec::new();
    let mut start: usize = 0;
    let ghost whole = lines_from(s@, keep, 0);
    assert(texts(out@) + whole =~= whole);
    while start < s.len()
        invariant
            start <= s@.len(),
            whole == lines_from(s@, keep, 0),
            whole == texts(out@) + lines_from(s@, keep, start as int),
        decreases s.len() - start,
    {
        let ghost before = texts(out@);
        let mut k: usize = start;
        while k < s.len() && s[k] != '\n' && s[k] != '\r'
            invariant
                start <= k <= s@.len(),
                break_from(s@, start as int) == break_from(s@, k as int),
            decreases s.len() - k,
        {
            k = k + 1;
        }
        if k >= s.len() {
            push_piece(&mut out, slice_of(s, start, s.len()));
            assert(texts(out@) =~= whole);
            return out;
        }
        let end: usize = if keep {
            k + 1
        } else {
            k
        };
        push_piece(&mut out, slice_of(s, start, end));
        assert(before + lines_from(s@, keep, start as int) =~= texts(out@) + lines_from(
            s@,
            keep,
            k + 1,
        ));
        start = k + 1;
    }
    assert(texts(out@) =~= whole);
    out
}

} // verus!
