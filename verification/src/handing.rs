//! What a C function is handed, and that a call gives back every reference that it
//! took.

use vstd::prelude::*;
use crate::calls;
use crate::calls::FrameV;
use crate::crossing;
use crate::fields;
use crate::flat;
use crate::freeing;
use crate::growth;
use crate::heap;
use crate::heap::HeapV;
use crate::mirror;
use crate::module::CallShape;
use crate::object;
use crate::outward;
use crate::pins;
use crate::reading;
use crate::tethers;
use crate::trips;
use crate::value::{NatV, ObjV};

verus! {

/// How often an address stands in a row.
pub open spec fn times(s: Seq<usize>, p: usize) -> nat
    decreases s.len(),
{
    if s.len() == 0 {
        0
    } else {
        times(s.drop_last(), p) + (if s.last() == p {
            1nat
        } else {
            0nat
        })
    }
}

/// The two heaps differ in reference counts only: each object has as many more
/// references in the second one as its address stands in a row.
pub open spec fn raised(h: HeapV, g: HeapV, ps: Seq<usize>) -> bool {
    &&& g == HeapV { heads: g.heads, ..h }
    &&& g.heads.dom() == h.heads.dom()
    &&& forall|p: usize| #[trigger]
        g.heads.contains_key(p) ==> g.heads[p].ob_type == h.heads[p].ob_type
            && g.heads[p].ob_refcnt == h.heads[p].ob_refcnt + times(ps, p)
}

/// Objects of an extension whose counts have room for some more references.
pub open spec fn countable(h: HeapV, ps: Seq<usize>, room: int) -> bool {
    forall|i: int|
        0 <= i < ps.len() ==> {
            let p = #[trigger] ps[i];
            &&& p != 0
            &&& h.heads.contains_key(p)
            &&& 0 < h.heads[p].ob_refcnt < 0x8000_0000 - room
        }
}

/// VM objects that stand for the objects of an extension.
pub open spec fn foreign(s: Seq<NatV>, ps: Seq<usize>) -> bool {
    &&& s.len() == ps.len()
    &&& forall|i: int| 0 <= i < s.len() ==> (#[trigger] s[i]).val == ObjV::Foreign(ps[i])
}

proof fn lemma_times(s: Seq<usize>, p: usize)
    ensures
        times(s, p) <= s.len(),
    decreases s.len(),
{
    if s.len() > 0 {
        lemma_times(s.drop_last(), p);
    }
}

proof fn lemma_handed(h: HeapV, s: Seq<NatV>, ps: Seq<usize>)
    requires
        foreign(s, ps),
        countable(h, ps, ps.len() as int),
        h.due.len() == 0,
    ensures
        calls::all_handed(h, s).1 == ps,
        raised(h, calls::all_handed(h, s).0, ps),
    decreases s.len(),
{
    if s.len() == 0 {
        assert(ps =~= Seq::<usize>::empty());
    } else {
        let t = s.drop_last();
        let qs = ps.drop_last();
        assert forall|i: int| 0 <= i < t.len() implies (#[trigger] t[i]).val == ObjV::Foreign(
            qs[i],
        ) by {
            assert(s[i].val == ObjV::Foreign(ps[i]));
        }
        assert forall|i: int| 0 <= i < qs.len() implies {
            let p = #[trigger] qs[i];
            &&& p != 0
            &&& h.heads.contains_key(p)
            &&& 0 < h.heads[p].ob_refcnt < 0x8000_0000 - qs.len()
        } by {
            assert(qs[i] == ps[i]);
        }
        lemma_handed(h, t, qs);
        let (g, front) = calls::all_handed(h, t);
        let p = ps.last();
        assert(p == ps[ps.len() - 1]);
        assert(s.last() == s[s.len() - 1]);
        assert(s.last().val == ObjV::Foreign(p));
        lemma_times(qs, p);
        let n = g.heads[p].ob_refcnt;
        assert(0 < n < 0x8000_0000);
        assert(!object::immortal(n));
        assert(calls::handed_out(g, s.last()) == (heap::increfed(g, p), p));
        let g2 = heap::increfed(g, p);
        assert(g2.heads.dom() =~= g.heads.dom());
        assert(front.push(p) =~= ps);
        assert forall|q: usize| #[trigger] g2.heads.contains_key(q) implies g2.heads[q].ob_type
            == h.heads[q].ob_type && g2.heads[q].ob_refcnt == h.heads[q].ob_refcnt + times(
            ps,
            q,
        ) by {
            assert(g.heads.contains_key(q));
        }
    }
}

proof fn lemma_given_back(h: HeapV, g: HeapV, ps: Seq<usize>, rest: Seq<usize>)
    requires
        countable(h, ps, (ps.len() + rest.len()) as int),
        countable(h, rest, (ps.len() + rest.len()) as int),
        raised(h, g, ps + rest),
        h.pending.len() == 0,
        h.mem.dom().finite(),
    ensures
        raised(h, calls::given_back(g, ps), rest),
    decreases ps.len(),
{
    if ps.len() == 0 {
        assert(ps + rest =~= rest);
    } else {
        let qs = ps.drop_last();
        let p = ps.last();
        let more = seq![p] + rest;
        assert(p == ps[ps.len() - 1]);
        assert(qs + more =~= ps + rest);
        assert forall|i: int| 0 <= i < more.len() implies {
            let x = #[trigger] more[i];
            &&& x != 0
            &&& h.heads.contains_key(x)
            &&& 0 < h.heads[x].ob_refcnt < 0x8000_0000 - (qs.len() + more.len())
        } by {
            if i > 0 {
                assert(more[i] == rest[i - 1]);
            }
        }
        assert forall|i: int| 0 <= i < qs.len() implies {
            let x = #[trigger] qs[i];
            &&& x != 0
            &&& h.heads.contains_key(x)
            &&& 0 < h.heads[x].ob_refcnt < 0x8000_0000 - (qs.len() + more.len())
        } by {
            assert(qs[i] == ps[i]);
        }
        lemma_given_back(h, g, qs, more);
        let k = calls::given_back(g, qs);
        lemma_first(p, rest);
        lemma_times(rest, p);
        let n = k.heads[p].ob_refcnt;
        assert(k.heads.contains_key(p));
        assert(n == h.heads[p].ob_refcnt + times(rest, p) + 1);
        assert(!object::immortal(n));
        let (k2, last) = freeing::decrefed(k, p);
        assert(!last);
        freeing::lemma_release_one(k, p);
        assert(calls::given_back(g, ps) == k2);
        assert(k2.heads.dom() =~= k.heads.dom());
        assert forall|q: usize| #[trigger] k2.heads.contains_key(q) implies k2.heads[q].ob_type
            == h.heads[q].ob_type && k2.heads[q].ob_refcnt == h.heads[q].ob_refcnt + times(
            rest,
            q,
        ) by {
            assert(k.heads.contains_key(q));
            lemma_first_other(p, rest, q);
        }
    }
}

proof fn lemma_first(p: usize, rest: Seq<usize>)
    ensures
        times(seq![p] + rest, p) == times(rest, p) + 1,
    decreases rest.len(),
{
    let s = seq![p] + rest;
    if rest.len() == 0 {
        assert(s.drop_last() =~= Seq::<usize>::empty());
        assert(s.last() == p);
        assert(times(s.drop_last(), p) == 0);
    } else {
        assert(s.drop_last() =~= seq![p] + rest.drop_last());
        assert(s.last() == rest.last());
        lemma_first(p, rest.drop_last());
    }
}

proof fn lemma_first_other(p: usize, rest: Seq<usize>, q: usize)
    ensures
        q != p ==> times(seq![p] + rest, q) == times(rest, q),
    decreases rest.len(),
{
    let s = seq![p] + rest;
    if rest.len() == 0 {
        assert(s.drop_last() =~= Seq::<usize>::empty());
        assert(s.last() == p);
        assert(times(s.drop_last(), q) == 0);
    } else {
        assert(s.drop_last() =~= seq![p] + rest.drop_last());
        assert(s.last() == rest.last());
        lemma_first_other(p, rest.drop_last(), q);
    }
}

/// Giving back the references that were taken leaves the heap as it was.
proof fn lemma_all_given_back(h: HeapV, g: HeapV, ps: Seq<usize>)
    requires
        countable(h, ps, ps.len() as int),
        raised(h, g, ps),
        h.pending.len() == 0,
        h.mem.dom().finite(),
    ensures
        calls::given_back(g, ps) == h,
{
    assert(ps + Seq::<usize>::empty() =~= ps);
    lemma_given_back(h, g, ps, Seq::empty());
    let k = calls::given_back(g, ps);
    assert(k.heads =~= h.heads) by {
        assert forall|q: usize| #[trigger] k.heads.contains_key(q) implies k.heads[q]
            == h.heads[q] by {
            assert(times(Seq::empty(), q) == 0);
        }
    }
}

/// A function whose arguments are handed over one by one gets the receiver and the
/// arguments themselves, in their order, with one more reference for each time
/// that one of them is handed over. When the call is over, the heap is as it was.
pub proof fn law_arguments_are_handed_over(
    h: HeapV,
    shape: CallShape,
    id: usize,
    me: usize,
    args: Seq<NatV>,
    ps: Seq<usize>,
)
    requires
        shape is One || shape is Fastcall || shape is Method,
        foreign(args, ps),
        ps.len() < 0x4000_0000,
        countable(h, ps.push(me), (ps.len() + 1) as int),
        me != h.facts.singles.none.addr,
        h.due.len() == 0,
        h.pending.len() == 0,
        h.mem.dom().finite(),
        h.arg_depth < usize::MAX,
    ensures
        ({
            let receiver = Some(NatV { id, val: ObjV::Foreign(me) });
            let (g, f) = calls::opened(h, shape, receiver, args, Seq::empty());
            &&& f == FrameV { receiver: me, argv: ps, nargs: ps.len() as usize, keywords: 0 }
            &&& g.heads[me].ob_refcnt == h.heads[me].ob_refcnt + 1 + times(ps, me)
            &&& forall|i: int|
                0 <= i < ps.len() && ps[i] != me ==> g.heads[#[trigger] ps[i]].ob_refcnt
                    == h.heads[ps[i]].ob_refcnt + times(ps, ps[i])
            &&& calls::closed(g, shape, f, 0) == (h, None::<NatV>)
        }),
{
    let receiver = Some(NatV { id, val: ObjV::Foreign(me) });
    let all = ps.push(me);
    assert(all.drop_last() =~= ps);
    assert(all[ps.len() as int] == me);
    let h1 = heap::increfed(h, me);
    assert(!object::immortal(h.heads[me].ob_refcnt));
    assert(args.take(args.len() as int) =~= args);
    assert(calls::receiver_out(h, receiver) == (h1, me));
    let inside = HeapV { arg_depth: pins::deeper(h.arg_depth), ..h1 };
    assert forall|i: int| 0 <= i < ps.len() implies {
        let p = #[trigger] ps[i];
        &&& p != 0
        &&& inside.heads.contains_key(p)
        &&& 0 < inside.heads[p].ob_refcnt < 0x8000_0000 - ps.len()
    } by {
        assert(all[i] == ps[i]);
    }
    lemma_handed(inside, args, ps);
    let k = calls::all_handed(inside, args).0;
    let g = HeapV { arg_depth: pins::less(k.arg_depth, 1), ..k };
    assert(calls::arguments(h1, args) == (g, ps));
    assert(g.heads.dom() =~= h.heads.dom());
    assert forall|q: usize| #[trigger] g.heads.contains_key(q) implies g.heads[q].ob_type
        == h.heads[q].ob_type && g.heads[q].ob_refcnt == h.heads[q].ob_refcnt + times(all, q) by {
        assert(k.heads.contains_key(q));
    }
    assert(g == HeapV { heads: g.heads, ..h });
    assert(raised(h, g, all));
    let f = FrameV { receiver: me, argv: ps, nargs: ps.len() as usize, keywords: 0 };
    assert(calls::opened(h, shape, receiver, args, Seq::empty()) == (g, f));
    assert(g.heads.contains_key(me));
    assert forall|i: int| 0 <= i < ps.len() && ps[i] != me implies g.heads[#[trigger] ps[i]].ob_refcnt
        == h.heads[ps[i]].ob_refcnt + times(ps, ps[i]) by {
        assert(all[i] == ps[i]);
        assert(g.heads.contains_key(ps[i]));
    }
    lemma_all_given_back(h, g, all);
    let own = calls::owned_by(g, shape, f);
    if shape is One {
        assert(own =~= all);
    } else {
        let with_null = ps.push(0usize);
        assert(own =~= with_null.push(me));
        assert(own.drop_last() =~= with_null);
        assert(with_null.drop_last() =~= ps);
        let x = calls::given_back(g, ps);
        assert(ps + seq![me] =~= all);
        assert forall|i: int| 0 <= i < ps.len() implies {
            let p = #[trigger] ps[i];
            &&& p != 0
            &&& h.heads.contains_key(p)
            &&& 0 < h.heads[p].ob_refcnt < 0x8000_0000 - (ps.len() + 1)
        } by {
            assert(all[i] == ps[i]);
        }
        lemma_given_back(h, g, ps, seq![me]);
        freeing::lemma_release_one(x, 0);
        assert(freeing::released(x, seq![0usize]) == x);
        assert(calls::given_back(g, with_null) == x);
        assert(calls::given_back(g, own) == calls::given_back(g, all));
    }
}

proof fn lemma_new_texts(h: HeapV, names: Seq<Seq<char>>, i: int)
    requires
        0 <= i < names.len(),
    ensures
        calls::new_texts(h, names).1.len() == names.len(),
        calls::new_texts(h, names).1[i].val == ObjV::Str(names[i]),
    decreases names.len(),
{
    let front = names.drop_last();
    if front.len() == 0 {
        assert(calls::new_texts(h, front).1 =~= Seq::<NatV>::empty());
    } else if i < front.len() {
        lemma_new_texts(h, front, i);
    } else {
        lemma_new_texts(h, front, 0);
    }
}

/// The keywords of a call become texts of the VM, each under its own name, in their order.
pub proof fn law_keywords_become_texts(h: HeapV, names: Seq<Seq<char>>, i: int)
    requires
        0 <= i < names.len(),
    ensures
        calls::new_texts(h, names).1.len() == names.len(),
        calls::new_texts(h, names).1[i].val == ObjV::Str(names[i]),
{
    lemma_new_texts(h, names, i);
}

/// A function that takes a tuple is handed one object for all positional arguments, with
/// their number, and a dict of the keyword arguments only where it takes keywords and
/// there are some.
pub proof fn law_tuple_of_arguments(
    h: HeapV,
    receiver: Option<NatV>,
    args: Seq<NatV>,
    names: Seq<Seq<char>>,
    takes_keywords: bool,
)
    requires
        names.len() <= args.len() <= usize::MAX,
    ensures
        ({
            let (g, f) = calls::opened(h, CallShape::Tuple(takes_keywords), receiver, args, names);
            &&& f.argv.len() == 1
            &&& f.nargs == args.len() - names.len()
            &&& !takes_keywords || names.len() == 0 ==> f.keywords == 0
            &&& receiver is None ==> f.receiver == h.facts.singles.none.addr
        }),
{
    reveal(calls::tuple_opened);
}

proof fn lemma_foreign_out(h: HeapV, s: Seq<NatV>, ps: Seq<usize>)
    requires
        foreign(s, ps),
    ensures
        outward::outs(h, s).1 == ps,
        outward::outs(h, s).0 == (HeapV { heads: outward::outs(h, s).0.heads, ..h }),
    decreases s.len(),
{
    if s.len() == 0 {
        assert(ps =~= Seq::<usize>::empty());
    } else {
        let t = s.drop_last();
        let qs = ps.drop_last();
        assert forall|i: int| 0 <= i < t.len() implies (#[trigger] t[i]).val == ObjV::Foreign(
            qs[i],
        ) by {
            assert(s[i].val == ObjV::Foreign(ps[i]));
        }
        lemma_foreign_out(h, t, qs);
        assert(s[s.len() - 1].val == ObjV::Foreign(ps[s.len() - 1]));
        let (h1, front) = outward::outs(h, t);
        assert(outward::out(h1, s.last()) == (heap::increfed(h1, ps.last()), ps.last()));
        assert(outward::outs(h, s) == (heap::increfed(h1, ps.last()), front.push(ps.last())));
        assert(qs.push(ps.last()) =~= ps);
    }
}

/// The tuple that a function is handed holds the arguments themselves, in their order.
pub proof fn law_tuple_holds_the_arguments(
    h: HeapV,
    id: usize,
    me: usize,
    args: Seq<NatV>,
    ps: Seq<usize>,
    takes_keywords: bool,
)
    requires
        foreign(args, ps),
        args.len() <= isize::MAX,
        h.due.len() == 0,
        crossing::can_open(h, ObjV::Tuple(args)),
    ensures
        ({
            let receiver = Some(NatV { id, val: ObjV::Foreign(me) });
            let (g, f) = calls::opened(
                h,
                CallShape::Tuple(takes_keywords),
                receiver,
                args,
                Seq::empty(),
            );
            &&& f.receiver == me
            &&& f.argv.len() == 1
            &&& f.nargs == ps.len()
            &&& f.keywords == 0
            &&& g.mem.contains_key(f.argv[0])
            &&& mirror::tuple_ptrs_of(g.mem[f.argv[0]]) == ps
            &&& g.mem[f.argv[0]].obj.val == ObjV::Tuple(args)
        }),
{
    reveal(calls::tuple_opened);
    let receiver = Some(NatV { id, val: ObjV::Foreign(me) });
    let h0 = heap::increfed(h, me);
    assert(args.take(args.len() as int) =~= args);
    assert(calls::receiver_out(h, receiver) == (h0, me));
    let (h1, cell) = heap::new_cell(h0);
    let n = NatV { id: cell, val: ObjV::Tuple(args) };
    let inside = HeapV { arg_depth: pins::deeper(h1.arg_depth), ..h1 };
    let ty = crossing::type_for(h1, n);
    assert(crossing::can_open(inside, n.val));
    trips::law_new_mirror(inside, n, ty, false);
    let (g1, p) = outward::fresh_out(inside, n, ty, false);
    let (h2, place) = crossing::opened(inside, n, ty, false);
    let (h3, kids) = outward::kids_out(h2, n.val);
    lemma_foreign_out(h2, args, ps);
    assert(kids == ps);
    fields::law_tuple_body(g1.mem[p], args, crossing::env_at(h3, n, place), kids);
    assert(g1.due == h.due) by {
        reveal(crossing::opened);
        reveal(crossing::filled_in);
        lemma_incref_due(h3, crossing::own_refs(h3, n, kids));
    }
}

proof fn lemma_incref_due(h: HeapV, ps: Seq<usize>)
    ensures
        heap::all_increfed(h, ps).due == h.due,
    decreases ps.len(),
{
    if ps.len() > 0 {
        lemma_incref_due(h, ps.drop_last());
    }
}

/// A call that was handed a tuple owns the tuple, the keywords and the receiver, each
/// once; `None` in place of a receiver is not its own.
pub proof fn law_references_of_a_call(h: HeapV, takes_keywords: bool, f: FrameV, q: usize)
    requires
        f.argv.len() == 1,
    ensures
        times(calls::owned_by(h, CallShape::Tuple(takes_keywords), f), q) == (if f.argv[0] == q {
            1int
        } else {
            0
        }) + (if f.keywords == q {
            1int
        } else {
            0
        }) + (if f.receiver == q && f.receiver != h.facts.singles.none.addr {
            1int
        } else {
            0
        }),
        f.receiver == h.facts.singles.none.addr ==> calls::owned_by(h, CallShape::NoArgs, f).len()
            == 0,
        f.receiver != h.facts.singles.none.addr ==> calls::owned_by(h, CallShape::NoArgs, f)
            == seq![f.receiver],
{
    reveal_with_fuel(times, 4);
    let own = seq![f.keywords] + f.argv;
    assert(own =~= seq![f.keywords, f.argv[0]]);
    assert(own.drop_last() =~= seq![f.keywords]);
    assert(seq![f.keywords].drop_last() =~= Seq::<usize>::empty());
    assert(own.push(f.receiver).drop_last() =~= own);
    assert(Seq::<usize>::empty().push(f.receiver) =~= seq![f.receiver]);
}

/// An object of an extension that a call returned comes back as itself, and the reference
/// that came with it is given back.
pub proof fn law_returned_object(h: HeapV, f: FrameV, p: usize)
    requires
        f.receiver == h.facts.singles.none.addr,
        flat::ordinary(h, p),
        !h.minted.contains(p),
        !h.raw_longs.contains(p),
        !h.facts.codes@.contains_key(p),
        h.heads.contains_key(p),
        1 < h.heads[p].ob_refcnt < 0x8000_0000,
        h.pending.len() == 0,
        h.mem.dom().finite(),
    ensures
        ({
            let (g, v) = calls::closed(h, CallShape::NoArgs, f, p);
            &&& v == Some(NatV { id: p, val: ObjV::Foreign(p) })
            &&& g.heads[p].ob_refcnt == h.heads[p].ob_refcnt - 1
            &&& g.mem == h.mem
        }),
{
    let own = calls::owned_by(h, CallShape::NoArgs, f);
    assert(own =~= Seq::<usize>::empty());
    assert(calls::given_back(h, own) == h);
    assert(reading::object_at(h, p) == (h, NatV { id: p, val: ObjV::Foreign(p) })) by {
        reveal(reading::object_at);
    }
    freeing::lemma_release_one(h, p);
    assert(!object::immortal(h.heads[p].ob_refcnt));
}

/// One more reference to the last of some addresses raises its count by one.
proof fn lemma_one_more(h: HeapV, g: HeapV, ps: Seq<usize>)
    requires
        ps.len() > 0,
        raised(h, g, ps.drop_last()),
        ps.last() != 0,
        h.heads.contains_key(ps.last()),
        0 < h.heads[ps.last()].ob_refcnt < 0x8000_0000 - ps.len(),
    ensures
        raised(h, heap::increfed(g, ps.last()), ps),
{
    let p = ps.last();
    let g2 = heap::increfed(g, p);
    lemma_times(ps.drop_last(), p);
    assert(g.heads.contains_key(p));
    let n = g.heads[p].ob_refcnt;
    assert(0 < n < 0x8000_0000);
    assert(!object::immortal(n));
    assert(g2.heads.dom() =~= g.heads.dom());
    assert forall|q: usize| #[trigger] g2.heads.contains_key(q) implies g2.heads[q].ob_type
        == h.heads[q].ob_type && g2.heads[q].ob_refcnt == h.heads[q].ob_refcnt + times(ps, q) by {
        assert(g.heads.contains_key(q));
    }
}

proof fn lemma_fewer(h: HeapV, ps: Seq<usize>)
    requires
        ps.len() > 0,
        countable(h, ps, ps.len() as int),
    ensures
        countable(h, ps.drop_last(), ps.drop_last().len() as int),
        ps.last() != 0,
        h.heads.contains_key(ps.last()),
        0 < h.heads[ps.last()].ob_refcnt < 0x8000_0000 - ps.len(),
{
    let qs = ps.drop_last();
    assert(ps.last() == ps[ps.len() - 1]);
    assert forall|i: int| 0 <= i < qs.len() implies {
        let p = #[trigger] qs[i];
        &&& p != 0
        &&& h.heads.contains_key(p)
        &&& 0 < h.heads[p].ob_refcnt < 0x8000_0000 - qs.len()
    } by {
        assert(qs[i] == ps[i]);
    }
}

proof fn lemma_all_raised(h: HeapV, ps: Seq<usize>)
    requires
        countable(h, ps, ps.len() as int),
    ensures
        raised(h, heap::all_increfed(h, ps), ps),
    decreases ps.len(),
{
    if ps.len() > 0 {
        lemma_fewer(h, ps);
        lemma_all_raised(h, ps.drop_last());
        lemma_one_more(h, heap::all_increfed(h, ps.drop_last()), ps);
    }
}

proof fn lemma_outs_raised(h: HeapV, s: Seq<NatV>, ps: Seq<usize>)
    requires
        foreign(s, ps),
        countable(h, ps, ps.len() as int),
    ensures
        raised(h, outward::outs(h, s).0, ps),
        outward::outs(h, s).1 == ps,
    decreases s.len(),
{
    lemma_foreign_out(h, s, ps);
    if s.len() > 0 {
        let t = s.drop_last();
        let qs = ps.drop_last();
        assert forall|i: int| 0 <= i < t.len() implies (#[trigger] t[i]).val == ObjV::Foreign(
            qs[i],
        ) by {
            assert(s[i].val == ObjV::Foreign(ps[i]));
        }
        lemma_fewer(h, ps);
        lemma_outs_raised(h, t, qs);
        assert(s[s.len() - 1].val == ObjV::Foreign(ps[s.len() - 1]));
        let (h1, front) = outward::outs(h, t);
        assert(outward::out(h1, s.last()) == (heap::increfed(h1, ps.last()), ps.last()));
        assert(outward::outs(h, s) == (heap::increfed(h1, ps.last()), front.push(ps.last())));
        lemma_one_more(h, h1, ps);
    }
}

proof fn lemma_same_times(s: Seq<usize>, p: usize)
    ensures
        times(s, p) == pins::times(s, p),
    decreases s.len(),
{
    if s.len() > 0 {
        lemma_same_times(s.drop_last(), p);
    }
}

/// A new tuple lets go of as many references to an object, when it is freed, as it took
/// when it was made.
pub proof fn law_tuple_gives_back_what_it_took(
    h: HeapV,
    id: usize,
    args: Seq<NatV>,
    ps: Seq<usize>,
    ty: usize,
    q: usize,
)
    requires
        foreign(args, ps),
        args.len() <= isize::MAX,
        ps.len() < 0x4000_0000,
        countable(h, ps, (2 * ps.len()) as int),
        !h.heads.contains_key(h.next),
        crossing::can_open(h, ObjV::Tuple(args)),
        ({
            let n = NatV { id, val: ObjV::Tuple(args) };
            let (g, p) = outward::fresh_out(h, n, ty, false);
            mirror::tuple_at(g, p) && !mirror::list_at(g, p)
        }),
        h.heads.contains_key(q),
        q != 0,
    ensures
        ({
            let n = NatV { id, val: ObjV::Tuple(args) };
            let (g, p) = outward::fresh_out(h, n, ty, false);
            &&& g.heads[p].ob_refcnt == 1
            &&& g.heads[q].ob_refcnt - h.heads[q].ob_refcnt == pins::times(
                freeing::owned_refs(g, p),
                q,
            )
        }),
{
    let n = NatV { id, val: ObjV::Tuple(args) };
    trips::law_new_mirror(h, n, ty, false);
    let (g, p) = outward::fresh_out(h, n, ty, false);
    let (h1, place) = crossing::opened(h, n, ty, false);
    assert(p == h.next && place.at == p && h1.heads.contains_key(p) && h1.heads[p].ob_refcnt == 1
        && (forall|x: usize|
        h.heads.contains_key(x) ==> h1.heads.contains_key(x) && #[trigger] h1.heads[x]
            == h.heads[x])) by {
        reveal(crossing::opened);
    }
    assert forall|i: int| 0 <= i < ps.len() implies {
        let x = #[trigger] ps[i];
        &&& x != 0
        &&& h1.heads.contains_key(x)
        &&& 0 < h1.heads[x].ob_refcnt < 0x8000_0000 - ps.len()
    } by {
        assert(h1.heads[ps[i]] == h.heads[ps[i]]);
    }
    let (h2, kids) = outward::kids_out(h1, n.val);
    lemma_outs_raised(h1, args, ps);
    assert(kids == ps);
    assert forall|i: int| 0 <= i < ps.len() implies {
        let x = #[trigger] ps[i];
        &&& x != 0
        &&& h2.heads.contains_key(x)
        &&& 0 < h2.heads[x].ob_refcnt < 0x8000_0000 - ps.len()
    } by {
        assert(h1.heads[ps[i]] == h.heads[ps[i]]);
        assert(h2.heads.contains_key(ps[i]));
        lemma_times(ps, ps[i]);
    }
    lemma_all_raised(h2, ps);
    assert(g.heads == heap::all_increfed(h2, ps).heads) by {
        reveal(crossing::filled_in);
    }
    fields::law_tuple_body(g.mem[p], args, crossing::env_at(h2, n, place), kids);
    tethers::law_references_of_an_object(g, p, q);
    lemma_same_times(ps, q);
    assert(h1.heads[q] == h.heads[q]);
    assert(h2.heads.contains_key(q));
    assert(h2.heads.contains_key(p));
    assert(g.heads.contains_key(q));
    assert(g.heads.contains_key(p));
    assert(!ps.contains(p)) by {
        if ps.contains(p) {
            let i = choose|i: int| 0 <= i < ps.len() && ps[i] == p;
            assert(h.heads.contains_key(ps[i]));
        }
    }
    lemma_absent(ps, p);
}

proof fn lemma_absent(s: Seq<usize>, p: usize)
    requires
        !s.contains(p),
    ensures
        times(s, p) == 0,
    decreases s.len(),
{
    if s.len() > 0 {
        let t = s.drop_last();
        if t.contains(p) {
            let i = choose|i: int| 0 <= i < t.len() && t[i] == p;
            assert(s[i] == p);
        }
        assert(s.last() == s[s.len() - 1]);
        lemma_absent(t, p);
    }
}

/// A new list lets go of as many references to an object, when it is freed, as it took
/// when it was made.
pub proof fn law_list_gives_back_what_it_took(
    h: HeapV,
    id: usize,
    args: Seq<NatV>,
    ps: Seq<usize>,
    ty: usize,
    q: usize,
)
    requires
        foreign(args, ps),
        0 < args.len() <= isize::MAX,
        ps.len() < 0x4000_0000,
        countable(h, ps, ps.len() as int),
        !h.heads.contains_key(h.next),
        crossing::can_open(h, ObjV::List(args)),
        ({
            let n = NatV { id, val: ObjV::List(args) };
            let (g, p) = outward::fresh_out(h, n, ty, true);
            mirror::list_at(g, p)
        }),
        h.heads.contains_key(q),
        q != 0,
    ensures
        ({
            let n = NatV { id, val: ObjV::List(args) };
            let (g, p) = outward::fresh_out(h, n, ty, true);
            &&& mirror::list_ptrs_of(g.mem[p]) == ps
            &&& g.heads[q].ob_refcnt - h.heads[q].ob_refcnt == pins::times(
                freeing::owned_refs(g, p),
                q,
            )
        }),
{
    let n = NatV { id, val: ObjV::List(args) };
    trips::law_new_mirror(h, n, ty, true);
    let (g, p) = outward::fresh_out(h, n, ty, true);
    let (h1, place) = crossing::opened(h, n, ty, true);
    assert(place.aux != 0 && (forall|x: usize|
        h.heads.contains_key(x) ==> h1.heads.contains_key(x) && #[trigger] h1.heads[x]
            == h.heads[x])) by {
        reveal(crossing::opened);
    }
    assert forall|i: int| 0 <= i < ps.len() implies {
        let x = #[trigger] ps[i];
        &&& x != 0
        &&& h1.heads.contains_key(x)
        &&& 0 < h1.heads[x].ob_refcnt < 0x8000_0000 - ps.len()
    } by {
        assert(h1.heads[ps[i]] == h.heads[ps[i]]);
    }
    let (h2, kids) = outward::kids_out(h1, n.val);
    lemma_outs_raised(h1, args, ps);
    assert(kids == ps);
    assert(g.heads == h2.heads) by {
        reveal(crossing::filled_in);
        assert(crossing::own_refs(h2, n, kids) =~= Seq::<usize>::empty());
    }
    fields::law_list_body(g.mem[p], args, crossing::env_at(h2, n, place), kids);
    assert(mirror::word_at(g.mem[p].tail, 24) != 0);
    tethers::law_references_of_a_list(g, p, q);
    lemma_same_times(ps, q);
    assert(h1.heads[q] == h.heads[q]);
    assert(h2.heads.contains_key(q));
}

proof fn lemma_texts_take_cells(h: HeapV, names: Seq<Seq<char>>)
    ensures
        calls::new_texts(h, names).0 == (HeapV {
            next_id: calls::new_texts(h, names).0.next_id,
            ..h
        }),
        calls::new_texts(h, names).1.len() == names.len(),
    decreases names.len(),
{
    if names.len() > 0 {
        lemma_texts_take_cells(h, names.drop_last());
    }
}

proof fn lemma_texts_are_quiet(h: HeapV, names: Seq<Seq<char>>)
    ensures
        growth::quiet_all(calls::new_texts(h, names).1),
    decreases names.len(),
{
    if names.len() > 0 {
        let front = calls::new_texts(h, names.drop_last()).1;
        lemma_texts_are_quiet(h, names.drop_last());
        let all = calls::new_texts(h, names).1;
        assert(all.drop_last() =~= front);
        assert(growth::quiet(all.last()));
    }
}

/// The keywords that a function is handed are a new tuple of their names, in their order.
pub proof fn law_keyword_names(h: HeapV, names: Seq<Seq<char>>, i: int)
    requires
        0 <= i < names.len(),
        h.arg_depth == 0,
        growth::bytes_apart(h),
        crossing::can_open(h, ObjV::Tuple(calls::new_texts(h, names).1)),
    ensures
        ({
            let (h1, vals) = calls::new_texts(h, names);
            let (h2, id) = heap::new_cell(h1);
            let inside = HeapV { intern_depth: pins::deeper(h2.intern_depth), ..h2 };
            let m = outward::out(inside, NatV { id, val: ObjV::Tuple(vals) }).0;
            let p = calls::keyword_names(h, names).1;
            &&& p == h.next
            &&& m.mem[p].obj.val == ObjV::Tuple(vals)
            &&& vals.len() == names.len()
            &&& vals[i].val == ObjV::Str(names[i])
        }),
        calls::keyword_names(h, Seq::empty()) == (h, 0usize),
{
    lemma_new_texts(h, names, i);
    lemma_texts_take_cells(h, names);
    let (h1, vals) = calls::new_texts(h, names);
    let (h2, id) = heap::new_cell(h1);
    let inside = HeapV { intern_depth: pins::deeper(h2.intern_depth), ..h2 };
    let n = NatV { id, val: ObjV::Tuple(vals) };
    let ty = crossing::type_for(inside, n);
    reveal(crossing::known);
    assert(crossing::known(inside, n, ty) is None);
    assert(crossing::can_open(inside, n.val));
    trips::law_new_mirror(inside, n, ty, false);
    let (g, p) = outward::fresh_out(inside, n, ty, false);
    lemma_texts_are_quiet(h, names);
    assert(growth::quiet(n));
    growth::lemma_fresh_grew(inside, n, ty, false);
    reveal(crossing::kept);
    assert(outward::mirrored(inside, n, ty) == (g, p));
    assert(outward::out(inside, n) == (g, p));
}

/// The keyword arguments of a function that takes a tuple are a new dict of them.
pub proof fn law_keyword_arguments_are_a_dict(
    h: HeapV,
    names: Seq<Seq<char>>,
    vals: Seq<NatV>,
    i: int,
)
    requires
        0 <= i < names.len(),
        vals.len() == names.len(),
        h.arg_depth == 0,
        crossing::can_open(
            h,
            ObjV::Dict(calls::entries(calls::new_texts(h, names).1, names, vals)),
        ),
    ensures
        ({
            let (h1, keys) = calls::new_texts(h, names);
            let (h2, id) = heap::new_cell(h1);
            let e = calls::entries(keys, names, vals);
            let m = outward::out(h2, NatV { id, val: ObjV::Dict(e) }).0;
            let p = calls::keyword_dict(h, names, vals).1;
            &&& p == h.next
            &&& m.mem[p].obj.val == ObjV::Dict(e)
            &&& keys.len() == names.len()
            &&& keys[i].val == ObjV::Str(names[i])
        }),
        calls::keyword_dict(h, Seq::empty(), vals) == (h, 0usize),
{
    lemma_new_texts(h, names, i);
    lemma_texts_take_cells(h, names);
    let (h1, keys) = calls::new_texts(h, names);
    let (h2, id) = heap::new_cell(h1);
    let n = NatV { id, val: ObjV::Dict(calls::entries(keys, names, vals)) };
    let ty = crossing::type_for(h2, n);
    reveal(crossing::known);
    assert(crossing::known(h2, n, ty) is None);
    assert(crossing::can_open(h2, n.val));
    trips::law_new_mirror(h2, n, ty, false);
    let (g, p) = outward::fresh_out(h2, n, ty, false);
    reveal(crossing::kept);
    assert(outward::mirrored(h2, n, ty) == (g, p));
    assert(outward::out(h2, n) == (g, p));
}

} // verus!
