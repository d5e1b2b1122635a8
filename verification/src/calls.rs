//! Calling a C function: the objects that it is handed, and what is given back
//! afterwards.

use vstd::prelude::*;
use crate::errors::PyError;
use crate::freeing;
use crate::heap;
use crate::heap::{Heap, HeapV};
use crate::lists::decref_one;
use crate::module::{bridge_result, CallOutcome, CallShape};
use crate::object;
use crate::object::into_owned;
use crate::outward;
use crate::pins;
use crate::pins::{enter_arg_pin, enter_intern_scope, ArgPinGuard, InternGuard};
use crate::publish;
use crate::publish::args_tuple_out;
use crate::reading;
use crate::reading::read_object;
use crate::search;
use crate::text::{copy_text, same};
use crate::value;
use crate::value::{copy_native, NatV, Native, ObjV, Object};

verus! {

broadcast use vstd::std_specs::hash::group_hash_axioms;

/// What a C function is called with.
#[derive(Debug)]
pub struct Frame {
    pub receiver: usize,
    /// The objects of the arguments, or the tuple of them. For a function without
    /// arguments it is `None`.
    pub argv: Vec<usize>,
    /// The number of positional arguments.
    pub nargs: usize,
    /// The tuple of the keywords, the dict of the keyword arguments, or NULL.
    pub keywords: usize,
}

/// The mathematical content of a [`Frame`].
pub struct FrameV {
    pub receiver: usize,
    pub argv: Seq<usize>,
    pub nargs: usize,
    pub keywords: usize,
}

impl View for Frame {
    type V = FrameV;

    open spec fn view(&self) -> FrameV {
        FrameV {
            receiver: self.receiver,
            argv: self.argv@,
            nargs: self.nargs,
            keywords: self.keywords,
        }
    }
}

// ---------------------------------------------------------------------------
// What the function is handed
// ---------------------------------------------------------------------------

/// A VM object crosses, and the lists that are due are published.
pub open spec fn handed_out(h: HeapV, n: NatV) -> (HeapV, usize) {
    publish::handed(outward::out(h, n))
}

/// VM objects cross one after the other.
pub open spec fn all_handed(h: HeapV, s: Seq<NatV>) -> (HeapV, Seq<usize>)
    decreases s.len(),
{
    if s.len() == 0 {
        (h, Seq::empty())
    } else {
        let (h1, front) = all_handed(h, s.drop_last());
        let (h2, p) = handed_out(h1, s.last());
        (h2, front.push(p))
    }
}

/// VM objects cross as arguments.
pub open spec fn arguments(h: HeapV, s: Seq<NatV>) -> (HeapV, Seq<usize>) {
    let (h1, ps) = all_handed(HeapV { arg_depth: pins::deeper(h.arg_depth), ..h }, s);
    (HeapV { arg_depth: pins::less(h1.arg_depth, 1), ..h1 }, ps)
}

/// New texts of the VM.
pub open spec fn new_texts(h: HeapV, names: Seq<Seq<char>>) -> (HeapV, Seq<NatV>)
    decreases names.len(),
{
    if names.len() == 0 {
        (h, Seq::empty())
    } else {
        let (h1, front) = new_texts(h, names.drop_last());
        let (h2, id) = heap::new_cell(h1);
        (h2, front.push(NatV { id, val: ObjV::Str(names.last()) }))
    }
}

/// The keywords cross as a tuple of interned texts; NULL where there are none.
pub open spec fn keyword_names(h: HeapV, names: Seq<Seq<char>>) -> (HeapV, usize) {
    if names.len() == 0 {
        (h, 0)
    } else {
        let (h1, vals) = new_texts(h, names);
        let (h2, id) = heap::new_cell(h1);
        let inside = HeapV { intern_depth: pins::deeper(h2.intern_depth), ..h2 };
        let (h3, p) = handed_out(inside, NatV { id, val: ObjV::Tuple(vals) });
        (HeapV { intern_depth: pins::less(h3.intern_depth, 1), ..h3 }, p)
    }
}

/// Where a dict has a name, from an entry on; the number of entries where it does not
/// have it.
pub open spec fn entry_of(e: Seq<NatV>, name: Seq<char>, i: int) -> int
    decreases e.len() / 2 - i,
{
    if i < 0 || i >= e.len() / 2 || e[2 * i].val == ObjV::Str(name) {
        i
    } else {
        entry_of(e, name, i + 1)
    }
}

/// A dict with a value under a name. A name that is there keeps its place and its
/// key; another one goes to the end.
pub open spec fn with_entry(e: Seq<NatV>, key: NatV, name: Seq<char>, v: NatV) -> Seq<NatV> {
    let i = entry_of(e, name, 0);
    if i < e.len() / 2 {
        e.update(2 * i + 1, v)
    } else {
        e.push(key).push(v)
    }
}

/// The entries of a dict of keyword arguments, set one after the other.
pub open spec fn entries(keys: Seq<NatV>, names: Seq<Seq<char>>, vals: Seq<NatV>) -> Seq<NatV>
    decreases names.len(),
{
    if names.len() == 0 {
        Seq::empty()
    } else {
        with_entry(
            entries(keys.drop_last(), names.drop_last(), vals.drop_last()),
            keys.last(),
            names.last(),
            vals.last(),
        )
    }
}

/// The keyword arguments cross as a dict of them; NULL where there are none.
pub open spec fn keyword_dict(h: HeapV, names: Seq<Seq<char>>, vals: Seq<NatV>) -> (
    HeapV,
    usize,
) {
    if names.len() == 0 {
        (h, 0)
    } else {
        let (h1, keys) = new_texts(h, names);
        let (h2, id) = heap::new_cell(h1);
        handed_out(h2, NatV { id, val: ObjV::Dict(entries(keys, names, vals)) })
    }
}

/// The receiver crosses; a function of a module without one is handed `None`.
pub open spec fn receiver_out(h: HeapV, receiver: Option<NatV>) -> (HeapV, usize) {
    match receiver {
        Some(n) => handed_out(h, n),
        None => (h, h.facts.singles.none.addr),
    }
}

/// The positional arguments cross as a tuple, and those of the keywords as a dict
/// where the function takes keywords.
#[verifier::opaque]
pub open spec fn tuple_opened(
    h: HeapV,
    me: usize,
    plain: Seq<NatV>,
    names: Seq<Seq<char>>,
    vals: Seq<NatV>,
    takes_keywords: bool,
) -> (HeapV, FrameV) {
    let (h1, id) = heap::new_cell(h);
    let (h2, tuple) = publish::handed(publish::args_out(h1, NatV { id, val: ObjV::Tuple(plain) }));
    let (h3, keywords) = if takes_keywords {
        keyword_dict(h2, names, vals)
    } else {
        (h2, 0)
    };
    (h3, FrameV { receiver: me, argv: seq![tuple], nargs: plain.len() as usize, keywords })
}

/// The receiver and the arguments of a call cross, the receiver first. `args` are
/// the positional arguments and behind them those of the keywords in `names`.
pub open spec fn opened(
    h: HeapV,
    shape: CallShape,
    receiver: Option<NatV>,
    args: Seq<NatV>,
    names: Seq<Seq<char>>,
) -> (HeapV, FrameV) {
    let n = (args.len() - names.len()) as nat;
    let plain = args.take(n as int);
    let (h1, me) = receiver_out(h, receiver);
    match shape {
        CallShape::NoArgs => (
            h1,
            FrameV {
                receiver: me,
                argv: seq![h1.facts.singles.none.addr],
                nargs: n as usize,
                keywords: 0,
            },
        ),
        CallShape::One => {
            let (h2, argv) = arguments(h1, plain);
            (h2, FrameV { receiver: me, argv, nargs: n as usize, keywords: 0 })
        },
        CallShape::Method(_) | CallShape::Fastcall(_) => {
            let (h2, argv) = arguments(h1, args);
            let (h3, keywords) = keyword_names(h2, names);
            (h3, FrameV { receiver: me, argv, nargs: n as usize, keywords })
        },
        CallShape::Tuple(takes_keywords) => tuple_opened(
            h1,
            me,
            plain,
            names,
            args.skip(n as int),
            takes_keywords,
        ),
    }
}

fn hand_all(h: &mut Heap, v: &Vec<Native>, n: usize) -> (r: Vec<usize>)
    requires
        n <= v@.len(),
    ensures
        (final(h)@, r@) == all_handed(old(h)@, value::seq_deep(v@).take(n as int)),
{
    let mut out: Vec<usize> = Vec::new();
    let mut i: usize = 0;
    let ghost all = value::seq_deep(v@);
    proof {
        value::lemma_seq_deep(v@);
    }
    assert(all.take(0) =~= Seq::<NatV>::empty());
    while i < n
        invariant
            i <= n <= v@.len(),
            all == value::seq_deep(v@),
            all.len() == v@.len(),
            (h@, out@) == all_handed(old(h)@, all.take(i as int)),
        decreases n - i,
    {
        proof {
            value::lemma_seq_deep(v@);
            assert(all[i as int] == v@[i as int]@);
            assert(all.take(i + 1).drop_last() =~= all.take(i as int));
        }
        let p: usize = into_owned(h, &v[i]);
        out.push(p);
        i = i + 1;
    }
    out
}

fn hand_arguments(h: &mut Heap, v: &Vec<Native>, n: usize) -> (r: Vec<usize>)
    requires
        n <= v@.len(),
    ensures
        (final(h)@, r@) == arguments(old(h)@, value::seq_deep(v@).take(n as int)),
{
    let scope: ArgPinGuard = enter_arg_pin(h);
    let out: Vec<usize> = hand_all(h, v, n);
    scope.leave(h);
    out
}

fn make_texts(h: &mut Heap, names: &Vec<Vec<char>>) -> (r: Vec<Native>)
    ensures
        (final(h)@, value::seq_deep(r@)) == new_texts(old(h)@, search::texts(names@)),
{
    let mut out: Vec<Native> = Vec::new();
    let mut i: usize = 0;
    let ghost all = search::texts(names@);
    assert(all.take(0) =~= Seq::<Seq<char>>::empty());
    assert(value::seq_deep(out@) =~= Seq::<NatV>::empty());
    while i < names.len()
        invariant
            i <= names@.len(),
            all == search::texts(names@),
            (h@, value::seq_deep(out@)) == new_texts(old(h)@, all.take(i as int)),
        decreases names.len() - i,
    {
        assert(all.take(i + 1).drop_last() =~= all.take(i as int));
        let id: usize = h.fresh_cell();
        let n = Native { id, val: Object::Str(copy_text(names[i].as_slice())) };
        proof {
            value::lemma_seq_deep_push(out@, n);
        }
        out.push(n);
        i = i + 1;
    }
    assert(all.take(all.len() as int) =~= all);
    out
}

fn hand_names(h: &mut Heap, names: &Vec<Vec<char>>) -> (r: usize)
    ensures
        (final(h)@, r) == keyword_names(old(h)@, search::texts(names@)),
{
    if names.len() == 0 {
        return 0;
    }
    let vals: Vec<Native> = make_texts(h, names);
    let id: usize = h.fresh_cell();
    let scope: InternGuard = enter_intern_scope(h);
    let p: usize = into_owned(h, &Native { id, val: Object::Tuple(vals) });
    scope.leave(h);
    p
}

fn find_entry(e: &Vec<Native>, name: &[char]) -> (r: usize)
    ensures
        r == entry_of(value::seq_deep(e@), name@, 0),
        r <= e@.len() / 2,
{
    let ghost all = value::seq_deep(e@);
    proof {
        value::lemma_seq_deep(e@);
    }
    let len: usize = e.len();
    let n: usize = len / 2;
    let mut i: usize = 0;
    while i < n
        invariant
            i <= n == e@.len() / 2,
            len == e@.len(),
            all == value::seq_deep(e@),
            all.len() == e@.len(),
            forall|k: int| 0 <= k < e@.len() ==> #[trigger] all[k] == value::nat_deep(e@[k]),
            entry_of(all, name@, 0) == entry_of(all, name@, i as int),
        decreases n - i,
    {
        let hit: bool = match &e[2 * i].val {
            Object::Str(s) => same(s.as_slice(), name),
            _ => false,
        };
        assert(all[2 * i as int] == value::nat_deep(e@[2 * i as int]));
        if hit {
            return i;
        }
        i = i + 1;
    }
    n
}

fn set_entry(e: &mut Vec<Native>, key: &Native, name: &[char], v: &Native)
    ensures
        value::seq_deep(final(e)@) == with_entry(value::seq_deep(old(e)@), key@, name@, v@),
{
    let ghost before = value::seq_deep(e@);
    proof {
        value::lemma_seq_deep(e@);
    }
    let i: usize = find_entry(e, name);
    if i < e.len() / 2 {
        let c: Native = copy_native(v);
        let ghost rows = e@;
        e.set(2 * i + 1, c);
        proof {
            value::lemma_seq_deep(e@);
            assert forall|k: int| 0 <= k < rows.len() implies value::seq_deep(e@)[k]
                == before.update(2 * i + 1, v@)[k] by {
                if k != 2 * i + 1 {
                    assert(e@[k] == rows[k]);
                }
            }
        }
        assert(value::seq_deep(e@) =~= before.update(2 * i + 1, v@));
    } else {
        let k: Native = copy_native(key);
        let c: Native = copy_native(v);
        proof {
            value::lemma_seq_deep_push(e@, k);
            value::lemma_seq_deep_push(e@.push(k), c);
        }
        e.push(k);
        e.push(c);
    }
}

/// A new dict of keyword arguments crosses to C code; NULL where there are none. A
/// name that is given twice is there once, where it came first and with its last
/// value.
pub fn build_kwargs_dict(h: &mut Heap, names: &Vec<Vec<char>>, vals: &Vec<Native>) -> (r: usize)
    requires
        names@.len() == vals@.len(),
    ensures
        (final(h)@, r) == keyword_dict(
            old(h)@,
            search::texts(names@),
            value::seq_deep(vals@),
        ),
{
    if names.len() == 0 {
        return 0;
    }
    let keys: Vec<Native> = make_texts(h, names);
    let ghost ks = value::seq_deep(keys@);
    let ghost ns = search::texts(names@);
    let ghost vs = value::seq_deep(vals@);
    proof {
        value::lemma_seq_deep(keys@);
        value::lemma_seq_deep(vals@);
        lemma_new_texts_len(old(h)@, ns);
    }
    let mut e: Vec<Native> = Vec::new();
    let mut i: usize = 0;
    assert(value::seq_deep(e@) =~= Seq::<NatV>::empty());
    while i < names.len()
        invariant
            i <= names@.len(),
            names@.len() == vals@.len() == keys@.len(),
            ks == value::seq_deep(keys@),
            ns == search::texts(names@),
            vs == value::seq_deep(vals@),
            ks.len() == keys@.len(),
            vs.len() == vals@.len(),
            forall|k: int| 0 <= k < keys@.len() ==> #[trigger] ks[k] == value::nat_deep(keys@[k]),
            forall|k: int| 0 <= k < vals@.len() ==> #[trigger] vs[k] == value::nat_deep(vals@[k]),
            value::seq_deep(e@) == entries(
                ks.take(i as int),
                ns.take(i as int),
                vs.take(i as int),
            ),
        decreases names.len() - i,
    {
        assert(ks.take(i + 1).drop_last() =~= ks.take(i as int));
        assert(ns.take(i + 1).drop_last() =~= ns.take(i as int));
        assert(vs.take(i + 1).drop_last() =~= vs.take(i as int));
        assert(ks[i as int] == value::nat_deep(keys@[i as int]));
        assert(vs[i as int] == value::nat_deep(vals@[i as int]));
        set_entry(&mut e, &keys[i], names[i].as_slice(), &vals[i]);
        i = i + 1;
    }
    assert(ks.take(ks.len() as int) =~= ks);
    assert(ns.take(ns.len() as int) =~= ns);
    assert(vs.take(vs.len() as int) =~= vs);
    let id: usize = h.fresh_cell();
    into_owned(h, &Native { id, val: Object::Dict(e) })
}

proof fn lemma_new_texts_len(h: HeapV, names: Seq<Seq<char>>)
    ensures
        new_texts(h, names).1.len() == names.len(),
        forall|i: int|
            0 <= i < names.len() ==> (#[trigger] new_texts(h, names).1[i]).val == ObjV::Str(
                names[i],
            ),
    decreases names.len(),
{
    if names.len() > 0 {
        lemma_new_texts_len(h, names.drop_last());
    }
}

fn part_of(v: &Vec<Native>, from: usize, to: usize) -> (r: Vec<Native>)
    requires
        from <= to <= v@.len(),
    ensures
        value::seq_deep(r@) == value::seq_deep(v@).subrange(from as int, to as int),
        r@.len() == to - from,
{
    let mut out: Vec<Native> = Vec::new();
    let mut i: usize = from;
    let ghost all = value::seq_deep(v@);
    proof {
        value::lemma_seq_deep(v@);
    }
    assert(value::seq_deep(out@) =~= all.subrange(from as int, from as int));
    while i < to
        invariant
            from <= i <= to <= v@.len(),
            all == value::seq_deep(v@),
            all.len() == v@.len(),
            out@.len() == i - from,
            value::seq_deep(out@) == all.subrange(from as int, i as int),
        decreases to - i,
    {
        let c: Native = copy_native(&v[i]);
        proof {
            value::lemma_seq_deep(v@);
            value::lemma_seq_deep_push(out@, c);
            assert(all[i as int] == v@[i as int]@);
        }
        out.push(c);
        i = i + 1;
        assert(value::seq_deep(out@) =~= all.subrange(from as int, i as int));
    }
    out
}

fn open_tuple(
    h: &mut Heap,
    me: usize,
    plain: Vec<Native>,
    names: &Vec<Vec<char>>,
    vals: &Vec<Native>,
    takes_keywords: bool,
) -> (r: Frame)
    requires
        names@.len() == vals@.len(),
    ensures
        (final(h)@, r@) == tuple_opened(
            old(h)@,
            me,
            value::seq_deep(plain@),
            search::texts(names@),
            value::seq_deep(vals@),
            takes_keywords,
        ),
{
    proof {
        reveal(tuple_opened);
        value::lemma_seq_deep(plain@);
    }
    let nargs: usize = plain.len();
    let id: usize = h.fresh_cell();
    let tuple: usize = args_tuple_out(h, &Native { id, val: Object::Tuple(plain) });
    let mut argv: Vec<usize> = Vec::new();
    argv.push(tuple);
    assert(argv@ =~= seq![tuple]);
    let keywords: usize = if takes_keywords {
        build_kwargs_dict(h, names, vals)
    } else {
        0
    };
    Frame { receiver: me, argv, nargs, keywords }
}

/// The text of a key.
pub open spec fn key_text(e: Seq<NatV>, j: int) -> Seq<char> {
    e[2 * j].val->Str_0
}

/// Where a name comes first, from an index on; the number of names where it does not
/// come.
pub open spec fn first_at(names: Seq<Seq<char>>, name: Seq<char>, i: int) -> int
    decreases names.len() - i,
{
    if i < 0 || i >= names.len() || names[i] == name {
        i
    } else {
        first_at(names, name, i + 1)
    }
}

/// Where a name comes last; minus one where it does not come.
pub open spec fn last_at(names: Seq<Seq<char>>, name: Seq<char>) -> int
    decreases names.len(),
{
    if names.len() == 0 {
        -1
    } else if names.last() == name {
        names.len() - 1
    } else {
        last_at(names.drop_last(), name)
    }
}

proof fn lemma_entry_of(e: Seq<NatV>, name: Seq<char>, i: int)
    requires
        0 <= i <= e.len() / 2,
    ensures
        i <= entry_of(e, name, i) <= e.len() / 2,
        entry_of(e, name, i) < e.len() / 2 ==> e[2 * entry_of(e, name, i)].val == ObjV::Str(name),
    decreases e.len() / 2 - i,
{
    if i < e.len() / 2 && e[2 * i].val != ObjV::Str(name) {
        lemma_entry_of(e, name, i + 1);
    }
}

proof fn lemma_entry_found(e: Seq<NatV>, name: Seq<char>, j: int, i: int)
    requires
        0 <= i <= j < e.len() / 2,
        e[2 * j].val == ObjV::Str(name),
    ensures
        entry_of(e, name, i) <= j,
    decreases j - i,
{
    if i < j && e[2 * i].val != ObjV::Str(name) {
        lemma_entry_found(e, name, j, i + 1);
    }
}

proof fn lemma_first_at(names: Seq<Seq<char>>, name: Seq<char>, i: int)
    requires
        0 <= i <= names.len(),
    ensures
        i <= first_at(names, name, i) <= names.len(),
        first_at(names, name, i) < names.len() ==> names[first_at(names, name, i)] == name,
        first_at(names, name, i) == names.len() ==> forall|k: int|
            i <= k < names.len() ==> #[trigger] names[k] != name,
    decreases names.len() - i,
{
    if i < names.len() && names[i] != name {
        lemma_first_at(names, name, i + 1);
    }
}

/// A name that came before comes first where it did.
proof fn lemma_first_kept(names: Seq<Seq<char>>, name: Seq<char>, i: int)
    requires
        names.len() > 0,
        0 <= i < names.len(),
        first_at(names.drop_last(), name, i) < names.len() - 1,
    ensures
        first_at(names, name, i) == first_at(names.drop_last(), name, i),
    decreases names.len() - i,
{
    if i < names.len() - 1 && names[i] != name {
        lemma_first_kept(names, name, i + 1);
    }
}

/// A name that did not come before comes first at the end.
proof fn lemma_first_new(names: Seq<Seq<char>>, i: int)
    requires
        names.len() > 0,
        0 <= i < names.len(),
        forall|k: int| i <= k < names.len() - 1 ==> #[trigger] names[k] != names.last(),
    ensures
        first_at(names, names.last(), i) == names.len() - 1,
    decreases names.len() - i,
{
    if i < names.len() - 1 {
        lemma_first_new(names, i + 1);
    }
}

/// A call with a dict of keyword arguments: the dict that crosses has these entries.
/// Each name is there once, in the order in which the names came first, with the value
/// that came with it last.
pub proof fn law_keywords_are_kept(keys: Seq<NatV>, names: Seq<Seq<char>>, vals: Seq<NatV>)
    requires
        keys.len() == names.len(),
        vals.len() == names.len(),
        forall|i: int| 0 <= i < names.len() ==> (#[trigger] keys[i]).val == ObjV::Str(names[i]),
    ensures
        ({
            let e = entries(keys, names, vals);
            &&& e.len() % 2 == 0
            &&& forall|i: int|
                0 <= i < names.len() ==> entry_of(e, #[trigger] names[i], 0) < e.len() / 2
            &&& forall|j: int|
                0 <= j < e.len() / 2 ==> {
                    let f = first_at(names, #[trigger] key_text(e, j), 0);
                    let l = last_at(names, key_text(e, j));
                    &&& 0 <= f <= l < names.len()
                    &&& e[2 * j] == keys[f]
                    &&& e[2 * j + 1] == vals[l]
                }
            &&& forall|j: int, k: int|
                0 <= j < k < e.len() / 2 ==> first_at(names, #[trigger] key_text(e, j), 0)
                    < first_at(names, #[trigger] key_text(e, k), 0)
        }),
    decreases names.len(),
{
    if names.len() > 0 {
        let ks = keys.drop_last();
        let ns = names.drop_last();
        let vs = vals.drop_last();
        assert forall|i: int| 0 <= i < ns.len() implies (#[trigger] ks[i]).val == ObjV::Str(
            ns[i],
        ) by {
            assert(keys[i].val == ObjV::Str(names[i]));
        }
        law_keywords_are_kept(ks, ns, vs);
        let b = entries(ks, ns, vs);
        let e = entries(keys, names, vals);
        let n = names.last();
        let at = entry_of(b, n, 0);
        lemma_entry_of(b, n, 0);
        let last = names.len() - 1;
        assert(names[last] == n);
        assert(keys[last].val == ObjV::Str(n));
        assert forall|j: int| 0 <= j < b.len() / 2 implies ({
            let t = #[trigger] key_text(b, j);
            &&& key_text(e, j) == t
            &&& e[2 * j] == b[2 * j]
            &&& first_at(names, t, 0) == first_at(ns, t, 0)
            &&& last_at(names, t) == if t == n {
                last
            } else {
                last_at(ns, t)
            }
        }) by {
            let t = key_text(b, j);
            lemma_first_kept(names, t, 0);
        }
        if at >= b.len() / 2 {
            assert(e =~= b.push(keys.last()).push(vals.last()));
            let j = (b.len() / 2) as int;
            assert(2 * j == b.len());
            assert(key_text(e, j) == n);
            if first_at(ns, n, 0) < ns.len() {
                lemma_first_at(ns, n, 0);
                assert(entry_of(b, ns[first_at(ns, n, 0)], 0) < b.len() / 2);
            }
            lemma_first_at(ns, n, 0);
            assert forall|k: int| 0 <= k < names.len() - 1 implies #[trigger] names[k] != n by {
                assert(ns[k] == names[k]);
            }
            lemma_first_new(names, 0);
        } else {
            assert(e =~= b.update(2 * at + 1, vals.last()));
        }
        assert forall|i: int| 0 <= i < names.len() implies entry_of(e, #[trigger] names[i], 0)
            < e.len() / 2 by {
            if i < last {
                assert(ns[i] == names[i]);
                lemma_entry_of(b, ns[i], 0);
                let j = entry_of(b, ns[i], 0);
                assert(key_text(b, j) == ns[i]);
                assert(e[2 * j].val == ObjV::Str(names[i]));
                lemma_entry_found(e, names[i], j, 0);
            } else if at < b.len() / 2 {
                assert(e[2 * at].val == ObjV::Str(n));
                lemma_entry_found(e, n, at, 0);
            } else {
                let j = (b.len() / 2) as int;
                assert(e[2 * j].val == ObjV::Str(n));
                lemma_entry_found(e, n, j, 0);
            }
        }
        assert forall|j: int| 0 <= j < e.len() / 2 implies ({
            let f = first_at(names, #[trigger] key_text(e, j), 0);
            let l = last_at(names, key_text(e, j));
            &&& 0 <= f <= l < names.len()
            &&& e[2 * j] == keys[f]
            &&& e[2 * j + 1] == vals[l]
        }) by {
            if j < b.len() / 2 {
                let t = key_text(b, j);
                assert(b[2 * j] == ks[first_at(ns, t, 0)]);
                if t == n {
                    lemma_entry_found(b, n, j, 0);
                    assert(at <= j);
                    if at < j {
                        assert(key_text(b, at) == n);
                        assert(first_at(ns, key_text(b, at), 0) < first_at(ns, key_text(b, j), 0));
                    }
                } else {
                    assert(at != j || at >= b.len() / 2);
                    assert(b[2 * j + 1] == vs[last_at(ns, t)]);
                }
            }
        }
        assert forall|j: int, k: int| 0 <= j < k < e.len() / 2 implies first_at(
            names,
            #[trigger] key_text(e, j),
            0,
        ) < first_at(names, #[trigger] key_text(e, k), 0) by {
            assert(key_text(b, j) == key_text(e, j));
            if k < b.len() / 2 {
                assert(key_text(b, k) == key_text(e, k));
                assert(first_at(ns, key_text(b, j), 0) < first_at(ns, key_text(b, k), 0));
            }
        }
    }
}

/// The receiver and the arguments of a call cross to C code.
pub fn open_call(
    h: &mut Heap,
    shape: &CallShape,
    receiver: Option<&Native>,
    args: &Vec<Native>,
    names: &Vec<Vec<char>>,
) -> (r: Frame)
    requires
        names@.len() <= args@.len(),
    ensures
        (final(h)@, r@) == opened(
            old(h)@,
            *shape,
            match receiver {
                Some(n) => Some(n@),
                None => None,
            },
            value::seq_deep(args@),
            search::texts(names@),
        ),
{
    proof {
        value::lemma_seq_deep(args@);
    }
    let n: usize = args.len() - names.len();
    let me: usize = match receiver {
        Some(o) => into_owned(h, o),
        None => h.facts.singles.none.addr,
    };
    match shape {
        CallShape::NoArgs => {
            let mut argv: Vec<usize> = Vec::new();
            argv.push(h.facts.singles.none.addr);
            let f = Frame { receiver: me, argv, nargs: n, keywords: 0 };
            assert(f.argv@ =~= seq![h@.facts.singles.none.addr]);
            f
        },
        CallShape::One => {
            let argv: Vec<usize> = hand_arguments(h, args, n);
            Frame { receiver: me, argv, nargs: n, keywords: 0 }
        },
        CallShape::Method(_) | CallShape::Fastcall(_) => {
            assert(value::seq_deep(args@).take(args@.len() as int) =~= value::seq_deep(args@));
            let argv: Vec<usize> = hand_arguments(h, args, args.len());
            let keywords: usize = hand_names(h, names);
            Frame { receiver: me, argv, nargs: n, keywords }
        },
        CallShape::Tuple(takes_keywords) => {
            let plain: Vec<Native> = part_of(args, 0, n);
            let vals: Vec<Native> = part_of(args, n, args.len());
            assert(value::seq_deep(plain@) =~= value::seq_deep(args@).take(n as int));
            assert(value::seq_deep(vals@) =~= value::seq_deep(args@).skip(n as int));
            open_tuple(h, me, plain, names, &vals, *takes_keywords)
        },
    }
}

// ---------------------------------------------------------------------------
// What is given back
// ---------------------------------------------------------------------------

/// References are released one after the other, the first one first.
pub open spec fn given_back(h: HeapV, ps: Seq<usize>) -> HeapV
    decreases ps.len(),
{
    if ps.len() == 0 {
        h
    } else {
        freeing::released(given_back(h, ps.drop_last()), seq![ps.last()])
    }
}

/// The references that a call owns, in the order in which they are released. The
/// receiver comes last; `None` is not released.
pub open spec fn owned_by(h: HeapV, shape: CallShape, f: FrameV) -> Seq<usize> {
    let own = match shape {
        CallShape::NoArgs => Seq::empty(),
        CallShape::One => f.argv,
        CallShape::Method(_) | CallShape::Fastcall(_) => f.argv.push(f.keywords),
        CallShape::Tuple(_) => seq![f.keywords] + f.argv,
    };
    if f.receiver == h.facts.singles.none.addr {
        own
    } else {
        own.push(f.receiver)
    }
}

/// A call is over: the heap, and the object that it returned.
pub open spec fn closed(h: HeapV, shape: CallShape, f: FrameV, result: usize) -> (HeapV, Option<NatV>) {
    let h1 = given_back(h, owned_by(h, shape, f));
    if result == 0 {
        (h1, None)
    } else {
        let (h2, v) = reading::object_at(h1, result);
        (freeing::released(h2, seq![result]), Some(v))
    }
}

/// A call that takes no arguments and returns nothing leaves the heap as it was:
/// the reference to the receiver that the function was handed is given back.
pub proof fn law_receiver_is_given_back(h: HeapV, id: usize, p: usize)
    requires
        p != 0,
        p != h.facts.singles.none.addr,
        h.heads.contains_key(p),
        0 < h.heads[p].ob_refcnt,
        !object::immortal(h.heads[p].ob_refcnt),
        !object::immortal((h.heads[p].ob_refcnt + 1) as i64),
        h.due.len() == 0,
        h.pending.len() == 0,
        h.mem.dom().finite(),
    ensures
        ({
            let receiver = Some(NatV { id, val: ObjV::Foreign(p) });
            let (g, f) = opened(h, CallShape::NoArgs, receiver, Seq::empty(), Seq::empty());
            &&& f.receiver == p
            &&& f.argv == seq![h.facts.singles.none.addr]
            &&& g.heads[p].ob_refcnt == h.heads[p].ob_refcnt + 1
            &&& closed(g, CallShape::NoArgs, f, 0) == (h, None::<NatV>)
        }),
{
    let receiver = Some(NatV { id, val: ObjV::Foreign(p) });
    let (g, f) = opened(h, CallShape::NoArgs, receiver, Seq::empty(), Seq::empty());
    assert(g == heap::increfed(h, p));
    let own = owned_by(g, CallShape::NoArgs, f);
    assert(own =~= seq![p]);
    assert(own.drop_last() =~= Seq::<usize>::empty());
    reveal_with_fuel(given_back, 2);
    object::law_take_and_give_back(h, p);
}

/// How a call ended.
#[derive(Debug)]
pub enum Called {
    Returned(Native),
    /// The pending exception is what the call raised.
    Pending,
    /// The function broke its contract.
    Failed(PyError),
}

fn give_back(h: &mut Heap, ps: &Vec<usize>)
    ensures
        final(h)@ == given_back(old(h)@, ps@),
{
    let mut i: usize = 0;
    assert(ps@.take(0) =~= Seq::<usize>::empty());
    while i < ps.len()
        invariant
            i <= ps@.len(),
            h@ == given_back(old(h)@, ps@.take(i as int)),
        decreases ps.len() - i,
    {
        assert(ps@.take(i + 1).drop_last() =~= ps@.take(i as int));
        decref_one(h, ps[i]);
        i = i + 1;
    }
    assert(ps@.take(ps@.len() as int) =~= ps@);
}

fn owned_refs(h: &Heap, shape: &CallShape, f: &Frame) -> (r: Vec<usize>)
    ensures
        r@ == owned_by(h@, *shape, f@),
{
    let mut out: Vec<usize> = Vec::new();
    match shape {
        CallShape::NoArgs => {},
        CallShape::One => {
            push_slots(&mut out, &f.argv);
        },
        CallShape::Method(_) | CallShape::Fastcall(_) => {
            push_slots(&mut out, &f.argv);
            out.push(f.keywords);
        },
        CallShape::Tuple(_) => {
            out.push(f.keywords);
            push_slots(&mut out, &f.argv);
        },
    }
    let ghost own = match *shape {
        CallShape::NoArgs => Seq::<usize>::empty(),
        CallShape::One => f.argv@,
        CallShape::Method(_) | CallShape::Fastcall(_) => f.argv@.push(f.keywords),
        CallShape::Tuple(_) => seq![f.keywords] + f.argv@,
    };
    assert(out@ =~= own);
    if f.receiver != h.facts.singles.none.addr {
        out.push(f.receiver);
    }
    out
}

fn push_slots(out: &mut Vec<usize>, ps: &Vec<usize>)
    ensures
        final(out)@ == old(out)@ + ps@,
{
    let mut i: usize = 0;
    assert(out@ =~= old(out)@ + ps@.take(0));
    while i < ps.len()
        invariant
            i <= ps@.len(),
            out@ == old(out)@ + ps@.take(i as int),
        decreases ps.len() - i,
    {
        out.push(ps[i]);
        i = i + 1;
        assert(out@ =~= old(out)@ + ps@.take(i as int));
    }
    assert(ps@.take(ps@.len() as int) =~= ps@);
}

/// End a call that returned `result`: what was handed out is given back, and the
/// object that was returned is read and released. A NULL result is an exception,
/// whether or not the function set one.
pub fn close_call(
    h: &mut Heap,
    shape: &CallShape,
    f: &Frame,
    name: &[char],
    result: usize,
    pending: bool,
) -> (r: Called)
    ensures
        final(h)@ == closed(old(h)@, *shape, f@, result).0,
        match r {
            Called::Returned(v) => closed(old(h)@, *shape, f@, result).1 == Some(v@),
            Called::Pending => result == 0 && pending,
            Called::Failed(e) => result == 0 && !pending && e.kind is TypeError && e.msg@ == name@
                + "() returned NULL without setting an exception"@,
        },
{
    let refs: Vec<usize> = owned_refs(h, shape, f);
    give_back(h, &refs);
    match bridge_result(name, result, pending) {
        CallOutcome::Value(p) => {
            let v: Native = read_object(h, p);
            decref_one(h, p);
            Called::Returned(v)
        },
        CallOutcome::Pending => Called::Pending,
        CallOutcome::Failed(e) => Called::Failed(e),
    }
}

} // verus!
