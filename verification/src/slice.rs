//! `PySlice_*`: resolving slice bounds.

use vstd::prelude::*;
use crate::bignum;
use crate::bignum::big_to_isize;
use crate::errors;
use crate::errors::{raise_str, ExcKind, Failure, FailureView};
use crate::heap::{Heap, HeapV};
use crate::object::{clone_object, into_owned};
use crate::outward;
use crate::publish;
use crate::reading;
use crate::value;
use crate::value::{NatV, Native, ObjV, Object};

verus! {

/// Whether the argument is a slice.
pub fn PySlice_Check(o: Option<&Object>) -> (r: bool)
    ensures
        r == (o matches Some(x) && x is Slice),
{
    match o {
        Some(Object::Slice(_)) => true,
        _ => false,
    }
}

/// What a bound of a new slice stands for; NULL is `None`.
pub open spec fn bound_at(h: HeapV, p: usize) -> (HeapV, NatV) {
    if p == 0 {
        (h, reading::none_nat())
    } else {
        let (h1, v) = reading::object_at(h, p);
        (reading::tidied(h1), v)
    }
}

fn read_bound(h: &mut Heap, p: usize) -> (r: Native)
    ensures
        (final(h)@, r@) == bound_at(old(h)@, p),
{
    if p == 0 {
        Native { id: 0, val: Object::PyNone }
    } else {
        clone_object(h, p)
    }
}

/// A new slice from three objects. `fresh` is the cell of the slice.
pub fn PySlice_New(h: &mut Heap, start: usize, stop: usize, step: usize, fresh: usize) -> (r: usize)
    ensures
        ({
            let (h1, a) = bound_at(old(h)@, start);
            let (h2, b) = bound_at(h1, stop);
            let (h3, c) = bound_at(h2, step);
            (final(h)@, r) == publish::handed(
                outward::out(h3, NatV { id: fresh, val: ObjV::Slice(seq![a, b, c]) }),
            )
        }),
{
    let a: Native = read_bound(h, start);
    let b: Native = read_bound(h, stop);
    let c: Native = read_bound(h, step);
    let mut parts: Vec<Native> = Vec::new();
    proof {
        value::lemma_seq_deep_push(parts@, a);
        value::lemma_seq_deep_push(parts@.push(a), b);
        value::lemma_seq_deep_push(parts@.push(a).push(b), c);
    }
    let ghost want = seq![a@, b@, c@];
    parts.push(a);
    parts.push(b);
    parts.push(c);
    assert(value::seq_deep(parts@) =~= want);
    into_owned(h, &Native { id: fresh, val: Object::Slice(parts) })
}

/// A builtin integer as an index; nothing where it does not fit.
pub open spec fn as_index(o: Object) -> Option<isize> {
    match o {
        Object::Int(i) => Some(i as isize),
        Object::Bool(b) => Some(
            if b {
                1
            } else {
                0
            },
        ),
        Object::Long(b) => if isize::MIN <= b.val() <= isize::MAX {
            Some(b.val() as isize)
        } else {
            None
        },
        _ => None,
    }
}

/// A slice bound: `None` is the default, an integer is itself, and anything
/// else is what its `__index__` gave (`index`).
pub open spec fn bound(o: Object, index: Option<&Object>, default: isize) -> Option<isize> {
    if o is PyNone {
        Some(default)
    } else if bignum::is_int(o) {
        as_index(o)
    } else {
        match index {
            Some(x) => as_index(*x),
            None => None,
        }
    }
}

fn index_value(o: &Object) -> (r: Option<isize>)
    ensures
        r == as_index(*o),
{
    match o {
        Object::Int(i) => Some(#[verifier::truncate] (*i as isize)),
        Object::Bool(b) => Some(
            if *b {
                1
            } else {
                0
            },
        ),
        Object::Long(b) => big_to_isize(b),
        _ => None,
    }
}

fn resolve(o: &Object, index: Option<&Object>, default: isize) -> (r: Option<isize>)
    ensures
        r == bound(*o, index, default),
{
    match o {
        Object::PyNone => Some(default),
        Object::Int(_) | Object::Bool(_) | Object::Long(_) => index_value(o),
        _ => match index {
            Some(x) => index_value(x),
            None => None,
        },
    }
}

/// The default start for a step.
pub open spec fn default_start(step: isize) -> isize {
    if step < 0 {
        isize::MAX
    } else {
        0
    }
}

/// The default stop for a step.
pub open spec fn default_stop(step: isize) -> isize {
    if step < 0 {
        isize::MIN
    } else {
        isize::MAX
    }
}

/// The bounds of a slice, unclamped: start, stop and step, or how reading them
/// fails. The three indices are what `__index__` gave for a bound that is no
/// builtin integer.
pub open spec fn unpacked(
    o: Option<&Object>,
    i_start: Option<&Object>,
    i_stop: Option<&Object>,
    i_step: Option<&Object>,
) -> Result<(isize, isize, isize), FailureView> {
    match o {
        None => Err(FailureView::Silent),
        Some(Object::Slice(p)) => match bound(p@[2].val, i_step, 1) {
            None => Err(
                FailureView::Raised(ExcKind::TypeError, "slice step must be an integer"@),
            ),
            Some(step) => if step == 0 {
                Err(FailureView::Raised(ExcKind::ValueError, "slice step cannot be zero"@))
            } else {
                match bound(p@[0].val, i_start, default_start(step)) {
                    None => Err(
                        FailureView::Raised(
                            ExcKind::TypeError,
                            "slice start must be an integer"@,
                        ),
                    ),
                    Some(start) => match bound(p@[1].val, i_stop, default_stop(step)) {
                        None => Err(
                            FailureView::Raised(
                                ExcKind::TypeError,
                                "slice stop must be an integer"@,
                            ),
                        ),
                        Some(stop) => Ok((start, stop, step)),
                    },
                }
            },
        },
        _ => Err(FailureView::Raised(ExcKind::TypeError, "PySlice_Unpack: expected a slice"@)),
    }
}

/// A slice object carries its start, stop and step.
pub open spec fn slice_wf(o: Option<&Object>) -> bool {
    o matches Some(Object::Slice(p)) ==> p@.len() == 3
}

/// Decode a slice into start, stop and step.
pub fn PySlice_Unpack(
    o: Option<&Object>,
    i_start: Option<&Object>,
    i_stop: Option<&Object>,
    i_step: Option<&Object>,
) -> (r: Result<(isize, isize, isize), Failure>)
    requires
        slice_wf(o),
    ensures
        errors::outcome(r, unpacked(o, i_start, i_stop, i_step)),
{
    let p = match o {
        None => {
            return Err(Failure::Silent);
        },
        Some(Object::Slice(p)) => p,
        _ => {
            return Err(raise_str(ExcKind::TypeError, "PySlice_Unpack: expected a slice"));
        },
    };
    let step: isize = match resolve(&p[2].val, i_step, 1) {
        Some(v) => v,
        None => {
            return Err(raise_str(ExcKind::TypeError, "slice step must be an integer"));
        },
    };
    if step == 0 {
        return Err(raise_str(ExcKind::ValueError, "slice step cannot be zero"));
    }
    let d_start: isize = if step < 0 {
        isize::MAX
    } else {
        0
    };
    let d_stop: isize = if step < 0 {
        isize::MIN
    } else {
        isize::MAX
    };
    let start: isize = match resolve(&p[0].val, i_start, d_start) {
        Some(v) => v,
        None => {
            return Err(raise_str(ExcKind::TypeError, "slice start must be an integer"));
        },
    };
    let stop: isize = match resolve(&p[1].val, i_stop, d_stop) {
        Some(v) => v,
        None => {
            return Err(raise_str(ExcKind::TypeError, "slice stop must be an integer"));
        },
    };
    Ok((start, stop, step))
}

/// One bound brought into the range of a sequence of `length` items: counted
/// from the end where it is negative, and clamped. Going backwards, the range
/// ends one before the first item.
pub open spec fn clamped(i: int, length: int, step: int) -> int {
    let j = if i < 0 {
        i + length
    } else {
        i
    };
    if j < 0 {
        if step < 0 {
            -1
        } else {
            0
        }
    } else if i >= length {
        if step < 0 {
            length - 1
        } else {
            length
        }
    } else {
        j
    }
}

/// The number of items from `start` towards `stop`, `step` at a time.
pub open spec fn step_count(start: int, stop: int, step: int) -> int {
    if step < 0 {
        if stop < start {
            (start - stop - 1) / (-step) + 1
        } else {
            0
        }
    } else if start < stop {
        (stop - start - 1) / step + 1
    } else {
        0
    }
}

/// Nothing overflows while bounds are adjusted, which can happen for a negative length
/// only.
pub open spec fn adjustable(length: isize, start: isize, stop: isize, step: isize) -> bool {
    let s = clamped(start as int, length as int, step as int);
    let e = clamped(stop as int, length as int, step as int);
    &&& step > isize::MIN
    &&& start < 0 ==> start + length >= isize::MIN
    &&& stop < 0 ==> stop + length >= isize::MIN
    &&& step < 0 ==> length > isize::MIN
    &&& e - s <= isize::MAX
    &&& s - e <= isize::MAX
}

/// Bounds can be adjusted to every length that is not negative.
pub proof fn lemma_adjustable(length: isize, start: isize, stop: isize, step: isize)
    requires
        length >= 0,
        step > isize::MIN,
    ensures
        step != 0 ==> adjustable(length, start, stop, step),
{
}

fn clamp(i: isize, length: isize, step: isize) -> (r: isize)
    requires
        i < 0 ==> i + length >= isize::MIN,
        step < 0 ==> length > isize::MIN,
    ensures
        r == clamped(i as int, length as int, step as int),
{
    if i < 0 {
        let j: isize = i + length;
        if j < 0 {
            if step < 0 {
                -1
            } else {
                0
            }
        } else {
            j
        }
    } else if i >= length {
        if step < 0 {
            length - 1
        } else {
            length
        }
    } else {
        i
    }
}

/// Clamp a slice's bounds to a length and count the items. A zero step leaves
/// the bounds alone and selects nothing.
pub fn PySlice_AdjustIndices(length: isize, start: isize, stop: isize, step: isize) -> (r: (
    isize,
    isize,
    isize,
))
    requires
        step != 0 ==> adjustable(length, start, stop, step),
    ensures
        step == 0 ==> r == (start, stop, 0isize),
        step != 0 ==> r.0 == clamped(start as int, length as int, step as int) && r.1 == clamped(
            stop as int,
            length as int,
            step as int,
        ) && r.2 == step_count(r.0 as int, r.1 as int, step as int),
{
    if step == 0 {
        return (start, stop, 0);
    }
    let s: isize = clamp(start, length, step);
    let e: isize = clamp(stop, length, step);
    let n: isize = if step < 0 {
        if e < s {
            quotient(s - e - 1, -step) + 1
        } else {
            0
        }
    } else if s < e {
        quotient(e - s - 1, step) + 1
    } else {
        0
    };
    (s, e, n)
}

fn quotient(a: isize, b: isize) -> (r: isize)
    requires
        a >= 0,
        b > 0,
    ensures
        r == a as int / b as int,
        0 <= r <= a,
{
    proof {
        let x = a as int;
        let y = b as int;
        assert(0 <= x / y <= x) by (nonlinear_arith)
            requires
                x >= 0,
                y > 0,
        ;
    }
    (a as usize / b as usize) as isize
}

/// Every index that an adjusted slice selects is in range: the items are at
/// `start`, `start + step`, and so on, `count` of them.
pub proof fn law_adjusted_indices_in_range(
    length: int,
    start: int,
    stop: int,
    step: int,
    k: int,
)
    requires
        length >= 0,
        step != 0,
        0 <= k < step_count(clamped(start, length, step), clamped(stop, length, step), step),
    ensures
        0 <= clamped(start, length, step) + k * step < length,
{
    let s = clamped(start, length, step);
    let e = clamped(stop, length, step);
    if step < 0 {
        let d = s - e - 1;
        let m = -step;
        assert(k <= d / m);
        assert(k * m <= d) by (nonlinear_arith)
            requires
                k <= d / m,
                m > 0,
                d >= 0,
        ;
        assert(k * step == -(k * m)) by (nonlinear_arith)
            requires
                m == -step,
        ;
        assert(k * m >= 0) by (nonlinear_arith)
            requires
                k >= 0,
                m > 0,
        ;
    } else {
        let d = e - s - 1;
        assert(k <= d / step);
        assert(k * step <= d) by (nonlinear_arith)
            requires
                k <= d / step,
                step > 0,
                d >= 0,
        ;
        assert(k * step >= 0) by (nonlinear_arith)
            requires
                k >= 0,
                step > 0,
        ;
    }
}

/// The bounds and count of a slice over `length` items: start, stop, step and
/// the number of items.
pub open spec fn indices(p: (isize, isize, isize), length: int) -> (int, int, int, int) {
    let s = clamped(p.0 as int, length, p.2 as int);
    let e = clamped(p.1 as int, length, p.2 as int);
    (s, e, p.2 as int, step_count(s, e, p.2 as int))
}

/// An index into a sequence is kept, a negative one counts from the end. A bound
/// beyond either end is brought to that end: going forwards to the first item or
/// behind the last one, going backwards to the last item or before the first one.
pub proof fn law_bound(i: int, length: int, step: int)
    requires
        length >= 0,
        step != 0,
    ensures
        0 <= i < length ==> clamped(i, length, step) == i,
        -length <= i < 0 ==> clamped(i, length, step) == length + i,
        i >= length && step > 0 ==> clamped(i, length, step) == length,
        i >= length && step < 0 ==> clamped(i, length, step) == length - 1,
        i < -length && step > 0 ==> clamped(i, length, step) == 0,
        i < -length && step < 0 ==> clamped(i, length, step) == -1,
{
}

/// A slice selects every item on its way and no other: the item `k` steps behind
/// the start is selected exactly where it comes before the stop.
pub proof fn law_selects_all_before_the_stop(start: int, stop: int, step: int, k: int)
    requires
        step != 0,
        k >= 0,
    ensures
        step_count(start, stop, step) >= 0,
        step > 0 ==> (k < step_count(start, stop, step) <==> start + k * step < stop),
        step < 0 ==> (k < step_count(start, stop, step) <==> start + k * step > stop),
{
    let m = if step < 0 {
        -step
    } else {
        step
    };
    let d = if step < 0 {
        start - stop - 1
    } else {
        stop - start - 1
    };
    assert(step < 0 ==> k * step == -(k * m)) by (nonlinear_arith)
        requires
            step < 0 ==> m == -step,
    ;
    assert(k * m >= 0) by (nonlinear_arith)
        requires
            k >= 0,
            m > 0,
    ;
    if d >= 0 {
        assert(d / m >= 0) by (nonlinear_arith)
            requires
                d >= 0,
                m > 0,
        ;
        assert(k <= d / m <==> k * m <= d) by (nonlinear_arith)
            requires
                m > 0,
                d >= 0,
                k >= 0,
        ;
    }
}

/// A slice of three machine integers is read as they stand; one with a zero step
/// is refused.
pub proof fn law_integers_are_kept(o: Object, a: i64, b: i64, c: i64)
    requires
        o matches Object::Slice(p) && p@.len() == 3 && p@[0].val == Object::Int(a) && p@[1].val
            == Object::Int(b) && p@[2].val == Object::Int(c),
        isize::MIN <= a <= isize::MAX,
        isize::MIN <= b <= isize::MAX,
        isize::MIN <= c <= isize::MAX,
    ensures
        c != 0 ==> unpacked(Some(&o), None, None, None) == Ok::<(isize, isize, isize), FailureView>(
            (a as isize, b as isize, c as isize),
        ),
        c == 0 ==> unpacked(Some(&o), None, None, None) is Err,
{
}

/// A slice without bounds selects all items: forwards from the first one, and with
/// the step -1 backwards from the last one.
pub proof fn law_no_bounds_select_all(o: Object, length: int)
    requires
        0 <= length <= isize::MAX,
        o matches Object::Slice(p) && p@.len() == 3 && p@[0].val is PyNone && p@[1].val is PyNone
            && (p@[2].val is PyNone || p@[2].val == Object::Int(1) || p@[2].val == Object::Int(
            (-1) as i64,
        )),
    ensures
        unpacked(Some(&o), None, None, None) is Ok,
        ({
            let t = indices(unpacked(Some(&o), None, None, None)->Ok_0, length);
            if o->Slice_0@[2].val == Object::Int((-1) as i64) {
                t == (length - 1, -1int, -1int, length)
            } else {
                t == (0int, length, 1int, length)
            }
        }),
{
    let t = unpacked(Some(&o), None, None, None)->Ok_0;
    assert(step_count(0, length, 1) == length);
    assert(step_count(length - 1, -1, -1) == length);
}

/// Decode a slice and clamp it: start, stop, step and the number of items.
pub fn PySlice_GetIndicesEx(
    o: Option<&Object>,
    i_start: Option<&Object>,
    i_stop: Option<&Object>,
    i_step: Option<&Object>,
    length: isize,
) -> (r: Result<(isize, isize, isize, isize), Failure>)
    requires
        slice_wf(o),
        unpacked(o, i_start, i_stop, i_step) matches Ok(p) ==> p.2 != 0 ==> adjustable(
            length,
            p.0,
            p.1,
            p.2,
        ),
    ensures
        match unpacked(o, i_start, i_stop, i_step) {
            Err(f) => r is Err && r->Err_0@ == f,
            Ok(p) => r is Ok && ({
                let q = r->Ok_0;
                (q.0 as int, q.1 as int, q.2 as int, q.3 as int) == indices(p, length as int)
            }),
        },
{
    match PySlice_Unpack(o, i_start, i_stop, i_step) {
        Err(e) => Err(e),
        Ok(p) => {
            let q = PySlice_AdjustIndices(length, p.0, p.1, p.2);
            Ok((q.0, q.1, p.2, q.2))
        },
    }
}

/// The legacy form of [`PySlice_GetIndicesEx`]: the bounds are not clamped to the
/// length.
pub fn PySlice_GetIndices(
    o: Option<&Object>,
    i_start: Option<&Object>,
    i_stop: Option<&Object>,
    i_step: Option<&Object>,
    _length: isize,
) -> (r: Result<(isize, isize, isize), Failure>)
    requires
        slice_wf(o),
    ensures
        match unpacked(o, i_start, i_stop, i_step) {
            Err(f) => r is Err && r->Err_0@ == f,
            Ok(p) => r is Ok && r->Ok_0 == p,
        },
{
    PySlice_Unpack(o, i_start, i_stop, i_step)
}

} // verus!
