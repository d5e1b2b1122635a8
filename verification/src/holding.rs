//! Pinning keeps what the tables say.

use vstd::prelude::*;
use crate::argpins;
use crate::freeing;
use crate::heap;
use crate::heap::{HeapV, ScalarPinKey, StoreV};
use crate::mirror;
use crate::pins;
use crate::steady;
use crate::tables;
use crate::tables::{goes, moves, settles, stays, tables_hold};

verus! {

broadcast use vstd::std_specs::hash::group_hash_axioms;

/// No key and no object occurs twice.
pub open spec fn pairwise(pins: Seq<(ScalarPinKey, usize)>) -> bool {
    forall|i: int, j: int|
        0 <= i < j < pins.len() ==> (#[trigger] pins[i]).0 != (#[trigger] pins[j]).0 && pins[i].1
            != pins[j].1
}

/// Every pin is one of these.
pub open spec fn among(
    some: Seq<(ScalarPinKey, usize)>,
    all: Seq<(ScalarPinKey, usize)>,
) -> bool {
    forall|i: int| 0 <= i < some.len() ==> all.contains(#[trigger] some[i])
}

proof fn lemma_without(pins: Seq<(ScalarPinKey, usize)>, key: ScalarPinKey)
    requires
        pairwise(pins),
    ensures
        pairwise(pins::pins_without(pins, key)),
        among(pins::pins_without(pins, key), pins),
        forall|i: int|
            0 <= i < pins::pins_without(pins, key).len() ==> (#[trigger] pins::pins_without(
                pins,
                key,
            )[i]).0 != key,
    decreases pins.len(),
{
    if pins.len() > 0 {
        let front = pins.drop_last();
        lemma_without(front, key);
        let w = pins::pins_without(front, key);
        let r = pins::pins_without(pins, key);
        assert forall|i: int| 0 <= i < w.len() implies pins.contains(#[trigger] w[i]) && w[i].0
            != pins.last().0 && w[i].1 != pins.last().1 by {
            let j = choose|j: int| 0 <= j < front.len() && front[j] == w[i];
            assert(pins[j] == w[i]);
        }
        assert forall|i: int| 0 <= i < r.len() implies pins.contains(#[trigger] r[i]) by {
            if i < w.len() {
                assert(r[i] == w[i]);
            } else {
                assert(pins[pins.len() - 1] == r[i]);
            }
        }
    }
}

pub proof fn lemma_dead(h: HeapV, pins: Seq<(ScalarPinKey, usize)>)
    ensures
        among(pins::dead_pins(h, pins), pins),
    decreases pins.len(),
{
    if pins.len() > 0 {
        let front = pins.drop_last();
        lemma_dead(h, front);
        let d = pins::dead_pins(h, front);
        let r = pins::dead_pins(h, pins);
        assert forall|i: int| 0 <= i < r.len() implies pins.contains(#[trigger] r[i]) by {
            if i < d.len() {
                assert(r[i] == d[i]);
                let j = choose|j: int| 0 <= j < front.len() && front[j] == d[i];
                assert(pins[j] == d[i]);
            } else {
                assert(pins[pins.len() - 1] == r[i]);
            }
        }
    }
}

/// What is found under a key is in the table.
pub proof fn lemma_pin_found(pins: Seq<(ScalarPinKey, usize)>, key: ScalarPinKey)
    ensures
        pins::pin_at(pins, key) matches Some(p) ==> pins.contains((key, p)),
    decreases pins.len(),
{
    if pins.len() > 0 {
        let front = pins.drop_last();
        lemma_pin_found(front, key);
        assert(pins[pins.len() - 1] == pins.last());
        match pins::pin_at(front, key) {
            Some(p) => {
                let j = choose|j: int| 0 <= j < front.len() && front[j] == (key, p);
                assert(pins[j] == (key, p));
            },
            None => {},
        }
    }
}

/// The pins are pairwise different, and no text is among them.
pub proof fn lemma_pins_apart(h: HeapV)
    requires
        tables_hold(h),
    ensures
        pairwise(h.pins),
        forall|e: (ScalarPinKey, usize)| #[trigger]
            h.pins.contains(e) ==> tables::pin_ok(h, e) && mirror::mirror_at(h, e.1)
                && tables::held(h, e.1),
        forall|e: (ScalarPinKey, usize), i: int|
            #![trigger h.pins.contains(e), h.interned[i]]
            h.pins.contains(e) && 0 <= i < h.interned.len() ==> h.interned[i].1 != e.1,
        forall|e: (ScalarPinKey, usize), o: (ScalarPinKey, usize)|
            #![trigger h.pins.contains(e), h.pins.contains(o)]
            h.pins.contains(e) && h.pins.contains(o) && e.1 == o.1 ==> e == o,
{
    reveal(tables_hold);
    assert forall|e: (ScalarPinKey, usize)| #[trigger] h.pins.contains(e) implies tables::pin_ok(
        h,
        e,
    ) && mirror::mirror_at(h, e.1) by {
        let j = choose|j: int| 0 <= j < h.pins.len() && h.pins[j] == e;
        assert(tables::pin_ok(h, h.pins[j]));
    }
    assert forall|e: (ScalarPinKey, usize), i: int|
        #![trigger h.pins.contains(e), h.interned[i]]
        h.pins.contains(e) && 0 <= i < h.interned.len() implies h.interned[i].1 != e.1 by {
        let j = choose|j: int| 0 <= j < h.pins.len() && h.pins[j] == e;
        assert(h.pins[j].1 != h.interned[i].1);
    }
    assert forall|e: (ScalarPinKey, usize), o: (ScalarPinKey, usize)|
        #![trigger h.pins.contains(e), h.pins.contains(o)]
        h.pins.contains(e) && h.pins.contains(o) && e.1 == o.1 implies e == o by {
        let j = choose|j: int| 0 <= j < h.pins.len() && h.pins[j] == e;
        let k = choose|k: int| 0 <= k < h.pins.len() && h.pins[k] == o;
        if j < k {
            assert(h.pins[j].1 != h.pins[k].1);
        } else if k < j {
            assert(h.pins[k].1 != h.pins[j].1);
        }
    }
}

/// The table of pins becomes another one, whose pins are all right.
proof fn lemma_repinned(h: HeapV, g: HeapV)
    requires
        tables_hold(h),
        g == (HeapV { pins: g.pins, pin_bytes: g.pin_bytes, ..h }),
        pairwise(g.pins),
        forall|i: int|
            0 <= i < g.pins.len() ==> tables::pin_ok(h, #[trigger] g.pins[i]),
        forall|i: int, j: int|
            0 <= i < g.pins.len() && 0 <= j < h.interned.len() ==> (#[trigger] g.pins[i]).1 != (
            #[trigger] h.interned[j]).1,
    ensures
        goes(h, g),
        tables::firm(h, g),
{
    reveal(tables_hold);
    reveal(moves);
    reveal(settles);
    reveal(tables::firm);
    assert forall|q: usize| q >= g.next implies #[trigger] tables::unused(g, q) by {
        assert(tables::unused(h, q));
    }
    assert forall|q: usize| #[trigger] tables::fits(h, q) implies tables::fits(g, q) by {
        assert(heap::type_at(g, q) == heap::type_at(h, q));
    }
    assert forall|i: int| 0 <= i < g.pins.len() implies tables::pin_ok(g, #[trigger] g.pins[i]) by {
        assert(tables::pin_ok(h, g.pins[i]));
    }
    assert forall|i: int| 0 <= i < g.interned.len() implies tables::text_ok(
        g,
        #[trigger] g.interned[i],
    ) by {
        assert(tables::text_ok(h, h.interned[i]));
    }
    assert forall|id: usize| #[trigger] g.sets.contains_key(id) implies tables::set_ok(
        g,
        id,
        g.sets[id],
    ) by {
        assert(tables::set_ok(h, id, h.sets[id]));
    }
    assert forall|id: usize| #[trigger] g.bytearrays.contains_key(id) implies tables::bytearray_ok(
        g,
        id,
        g.bytearrays[id],
    ) by {
        assert(tables::bytearray_ok(h, id, h.bytearrays[id]));
    }
    assert forall|id: usize| #[trigger] g.builtins.contains_key(id) implies tables::builtin_ok(
        g,
        id,
        g.builtins[id],
    ) by {
        assert(tables::builtin_ok(h, id, h.builtins[id]));
    }
    assert forall|id: usize| #[trigger] g.c_body.contains_key(id) implies tables::body_ok(
        g,
        id,
        g.c_body[id],
    ) by {
        assert(tables::body_ok(h, id, h.c_body[id]));
    }
    assert forall|id: usize| #[trigger] g.lists.contains_key(id) implies tables::list_ok(
        g,
        id,
        g.lists[id],
    ) by {
        assert(tables::list_ok(h, id, h.lists[id]));
    }
}

/// The table loses a key.
proof fn lemma_cut(h: HeapV, key: ScalarPinKey, bytes: usize)
    requires
        tables_hold(h),
    ensures
        ({
            let g = HeapV { pins: pins::pins_without(h.pins, key), pin_bytes: bytes, ..h };
            &&& goes(h, g)
            &&& tables::firm(h, g)
            &&& among(g.pins, h.pins)
            &&& forall|i: int| 0 <= i < g.pins.len() ==> (#[trigger] g.pins[i]).0 != key
        }),
{
    let g = HeapV { pins: pins::pins_without(h.pins, key), pin_bytes: bytes, ..h };
    lemma_pins_apart(h);
    lemma_without(h.pins, key);
    assert forall|i: int| 0 <= i < g.pins.len() implies tables::pin_ok(h, #[trigger] g.pins[i]) by {
        assert(h.pins.contains(g.pins[i]));
    }
    assert forall|i: int, j: int|
        0 <= i < g.pins.len() && 0 <= j < h.interned.len() implies (#[trigger] g.pins[i]).1 != (
    #[trigger] h.interned[j]).1 by {
        assert(h.pins.contains(g.pins[i]));
    }
    lemma_repinned(h, g);
}

/// A mirror is freed, and everything that comes of it.
proof fn lemma_mirror_freed(h: HeapV, p: usize)
    requires
        tables_hold(h),
        h.mem.contains_key(p),
        mirror::mirror_at(h, p),
        tables::unlisted(h, p),
    ensures
        goes(h, freeing::mirror_freed(h, p)),
        freeing::mirror_freed(h, p).pins == h.pins,
        freeing::mirror_freed(h, p).interned == h.interned,
        freeing::mirror_freed(h, p).due == h.due,
        forall|q: usize|
            q != p && #[trigger] tables::held(h, q) ==> tables::held(
                freeing::mirror_freed(h, p),
                q,
            ),
{
    let (h1, more) = freeing::freed_mirror(h, p);
    steady::lemma_freed_mirror(h, p);
    steady::lemma_worked(h1, more.reverse());
    let g = freeing::worked(h1, more.reverse());
    tables::lemma_then(h, h1, g);
    assert forall|q: usize| q != p && #[trigger] tables::held(h, q) implies tables::held(g, q) by {
        assert(tables::held(h1, q));
        steady::lemma_held_below(h1, q);
        reveal(tables::firm);
    }
}

/// The flag of an object that no table leads to is cleared.
proof fn lemma_unflagged(h: HeapV, p: usize)
    requires
        tables_hold(h),
        h.mem.contains_key(p),
        tables::unlisted(h, p),
    ensures
        goes(h, pins::flagged(h, p, false)),
        tables::unlisted(pins::flagged(h, p, false), p),
        forall|q: usize|
            q != p && #[trigger] tables::held(h, q) ==> tables::held(
                pins::flagged(h, p, false),
                q,
            ),
{
    tables::lemma_store(h, p, StoreV { scalar_pinned: false, ..h.mem[p] });
}

/// One pin is swept.
proof fn lemma_swept_one(h: HeapV, key: ScalarPinKey, p: usize)
    requires
        tables_hold(h),
        h.mem.contains_key(p) ==> mirror::mirror_at(h, p),
        forall|i: int| 0 <= i < h.pins.len() && (#[trigger] h.pins[i]).1 == p ==> h.pins[i].0 == key,
        forall|i: int| 0 <= i < h.interned.len() ==> (#[trigger] h.interned[i]).1 != p,
    ensures
        goes(h, pins::swept_one(h, key, p)),
        among(pins::swept_one(h, key, p).pins, h.pins),
        pins::swept_one(h, key, p).interned == h.interned,
        pins::swept_one(h, key, p).due == h.due,
        forall|q: usize|
            q != p && #[trigger] tables::held(h, q) ==> tables::held(
                pins::swept_one(h, key, p),
                q,
            ),
{
    lemma_cut(h, key, h.pin_bytes);
    let g = pins::swept_one(h, key, p);
    let h0 = HeapV { pins: pins::pins_without(h.pins, key), pin_bytes: h.pin_bytes, ..h };
    if h.mem.contains_key(p) {
        let bytes = pins::less(h.pin_bytes, pins::capped(pins::payload(h.mem[p].obj)));
        lemma_cut(h, key, bytes);
        let h1 = HeapV { pins: pins::pins_without(h.pins, key), pin_bytes: bytes, ..h };
        assert forall|i: int| 0 <= i < h1.pins.len() implies (#[trigger] h1.pins[i]).1 != p by {
            assert(h.pins.contains(h1.pins[i]));
            let j = choose|j: int| 0 <= j < h.pins.len() && h.pins[j] == h1.pins[i];
            assert(h.pins[j].1 == p ==> h.pins[j].0 == key);
        }
        lemma_unflagged(h1, p);
        let h2 = pins::flagged(h1, p, false);
        assert(mirror::mirror_at(h2, p));
        tables::lemma_then(h, h1, h2);
        lemma_mirror_freed(h2, p);
        assert(g == freeing::mirror_freed(h2, p));
        tables::lemma_then(h, h2, g);
        assert forall|q: usize| q != p && #[trigger] tables::held(h, q) implies tables::held(
            g,
            q,
        ) by {
            steady::lemma_held_below(h, q);
            assert(tables::held(h1, q)) by {
                reveal(tables::firm);
            }
            assert(tables::held(h2, q));
        }
    } else {
        assert(g == h0);
        assert forall|q: usize| q != p && #[trigger] tables::held(h, q) implies tables::held(
            g,
            q,
        ) by {
            steady::lemma_held_below(h, q);
            reveal(tables::firm);
        }
    }
}

/// Pins are swept.
pub proof fn lemma_swept(h: HeapV, dead: Seq<(ScalarPinKey, usize)>)
    requires
        tables_hold(h),
        among(dead, h.pins),
    ensures
        goes(h, pins::swept(h, dead)),
        among(pins::swept(h, dead).pins, h.pins),
        pins::swept(h, dead).interned == h.interned,
        pins::swept(h, dead).due == h.due,
        forall|q: usize| #[trigger]
            tables::held(h, q) && (forall|i: int| 0 <= i < dead.len() ==> (#[trigger] dead[i]).1
                != q) ==> tables::held(pins::swept(h, dead), q),
    decreases dead.len(),
{
    if dead.len() == 0 {
        tables::lemma_same(h);
        assert forall|i: int| 0 <= i < h.pins.len() implies h.pins.contains(
            #[trigger] h.pins[i],
        ) by {}
    } else {
        let front = dead.drop_last();
        assert forall|i: int| 0 <= i < front.len() implies h.pins.contains(#[trigger] front[i]) by {
            assert(h.pins.contains(dead[i]));
        }
        lemma_swept(h, front);
        let h1 = pins::swept(h, front);
        let (key, p) = dead.last();
        assert(h.pins.contains(dead[dead.len() - 1]));
        lemma_pins_apart(h);
        assert forall|i: int| 0 <= i < h1.pins.len() && (#[trigger] h1.pins[i]).1 == p implies
            h1.pins[i].0 == key by {
            assert(h.pins.contains(h1.pins[i]));
            assert(h.pins.contains((key, p)));
        }
        assert(tables::pin_ok(h, (key, p)));
        if h1.mem.contains_key(p) {
            steady::lemma_type_stays(h, h1, p);
        }
        lemma_swept_one(h1, key, p);
        let g = pins::swept(h, dead);
        tables::lemma_then(h, h1, g);
        assert forall|i: int| 0 <= i < g.pins.len() implies h.pins.contains(
            #[trigger] g.pins[i],
        ) by {
            assert(h1.pins.contains(g.pins[i]));
            let j = choose|j: int| 0 <= j < h1.pins.len() && h1.pins[j] == g.pins[i];
            assert(h.pins.contains(h1.pins[j]));
        }
        assert forall|q: usize| #[trigger]
            tables::held(h, q) && (forall|i: int| 0 <= i < dead.len() ==> (#[trigger] dead[i]).1
                != q) implies tables::held(g, q) by {
            assert forall|i: int| 0 <= i < front.len() implies (#[trigger] front[i]).1 != q by {
                assert(dead[i].1 != q);
            }
            assert(tables::held(h1, q));
            assert(dead[dead.len() - 1].1 != q);
        }
    }
}

/// An object is pinned under its key.
pub proof fn lemma_pinned(h: HeapV, key: ScalarPinKey, p: usize)
    requires
        tables_hold(h),
        tables::fits(h, p),
        mirror::mirror_at(h, p),
        tables::keyed(key, h.mem[p].obj),
        pins::pin_key(h.mem[p].obj) == Some(key),
        tables::unlisted(h, p),
    ensures
        goes(h, pins::pinned(h, key, p)),
        tables::held(pins::pinned(h, key, p), p),
        pins::pinned(h, key, p).interned == h.interned,
        pins::pinned(h, key, p).due == h.due,
{
    reveal(pins::pinned);
    let h1 = pins::flagged(h, p, true);
    tables::lemma_store(h, p, StoreV { scalar_pinned: true, ..h.mem[p] });
    assert(tables::held(h1, p));
    let n = pins::capped(pins::payload(h1.mem[p].obj));
    let dead = pins::dead_pins(h1, h1.pins);
    lemma_dead(h1, h1.pins);
    lemma_swept(h1, dead);
    tables::lemma_same(h1);
    let h2 = if pins::sweep_due(h1, n) {
        pins::swept(h1, dead)
    } else {
        h1
    };
    assert(among(h2.pins, h1.pins));
    assert forall|i: int| 0 <= i < dead.len() implies (#[trigger] dead[i]).1 != p by {
        assert(h1.pins.contains(dead[i]));
        let j = choose|j: int| 0 <= j < h1.pins.len() && h1.pins[j] == dead[i];
        assert(h.pins[j].1 != p);
    }
    assert(tables::held(h2, p));
    tables::lemma_then(h, h1, h2);
    lemma_obj_stays(h1, h2, p);
    let h3 = HeapV {
        pins: pins::pins_without(h2.pins, key).push((key, p)),
        pin_bytes: pins::capped((h2.pin_bytes + n) as nat),
        ..h2
    };
    lemma_pins_apart(h2);
    lemma_without(h2.pins, key);
    let w = pins::pins_without(h2.pins, key);
    assert forall|i: int| 0 <= i < w.len() implies (#[trigger] w[i]).1 != p by {
        assert(h2.pins.contains(w[i]));
        let k = choose|k: int| 0 <= k < h2.pins.len() && h2.pins[k] == w[i];
        assert(h1.pins.contains(h2.pins[k]));
        let j = choose|j: int| 0 <= j < h1.pins.len() && h1.pins[j] == h2.pins[k];
        assert(h.pins[j].1 != p);
    }
    assert(pairwise(h3.pins));
    assert forall|i: int| 0 <= i < h3.pins.len() implies tables::pin_ok(
        h2,
        #[trigger] h3.pins[i],
    ) by {
        if i < w.len() {
            assert(h3.pins[i] == w[i]);
            assert(h2.pins.contains(w[i]));
        }
    }
    assert forall|i: int, j: int|
        0 <= i < h3.pins.len() && 0 <= j < h2.interned.len() implies (#[trigger] h3.pins[i]).1 != (
    #[trigger] h2.interned[j]).1 by {
        if i < w.len() {
            assert(h3.pins[i] == w[i]);
            assert(h2.pins.contains(w[i]));
        } else {
            assert(h.interned[j].1 != p);
        }
    }
    lemma_repinned(h2, h3);
    tables::lemma_then(h, h2, h3);
    assert(tables::held(h3, p));
    lemma_pin_found(h2.pins, key);
    match pins::pin_at(h2.pins, key) {
        None => {},
        Some(q) => {
            if q == p {
                let h4 = HeapV { pin_bytes: pins::less(h3.pin_bytes, n), ..h3 };
                tables::lemma_touch(h3, h4);
                tables::lemma_then(h, h3, h4);
            } else if h3.mem.contains_key(q) {
                let h4 = HeapV {
                    pin_bytes: pins::less(
                        h3.pin_bytes,
                        pins::capped(pins::payload(h3.mem[q].obj)),
                    ),
                    ..h3
                };
                tables::lemma_touch(h3, h4);
                tables::lemma_then(h, h3, h4);
                assert(h2.pins.contains((key, q)));
                assert forall|i: int| 0 <= i < h4.pins.len() implies (#[trigger] h4.pins[i]).1
                    != q by {
                    if i < w.len() {
                        assert(h4.pins[i] == w[i]);
                        assert(h2.pins.contains(w[i]));
                    }
                }
                assert forall|i: int| 0 <= i < h4.interned.len() implies (#[trigger] h4.interned[i]).1
                    != q by {
                    assert(h2.interned[i].1 != q);
                }
                lemma_unflagged(h4, q);
                let h5 = pins::flagged(h4, q, false);
                tables::lemma_then(h, h4, h5);
                assert(tables::held(h4, p));
                assert(tables::held(h5, p));
                assert(mirror::mirror_at(h5, q));
                if heap::refcnt_at(h5, q) <= 0 {
                    lemma_mirror_freed(h5, q);
                    tables::lemma_then(h, h5, freeing::mirror_freed(h5, q));
                }
            }
        },
    }
}

/// An object that stays stands for what it stood for.
pub proof fn lemma_obj_stays(h: HeapV, g: HeapV, p: usize)
    requires
        tables_hold(h),
        goes(h, g),
        tables::fits(h, p),
        g.mem.contains_key(p),
    ensures
        tables::fits(g, p),
        tables::same_store(h.mem[p], g.mem[p]),
        heap::type_at(g, p) == heap::type_at(h, p),
{
    steady::lemma_type_stays(h, g, p);
    reveal(moves);
    assert(tables::follows(h, g, p));
}

// ---------------------------------------------------------------------------
// Instances that cross as arguments
// ---------------------------------------------------------------------------

proof fn lemma_all_freed(h: HeapV, ps: Seq<usize>)
    requires
        tables_hold(h),
    ensures
        stays(h, argpins::all_freed(h, ps)),
    decreases ps.len(),
{
    tables::lemma_same(h);
    if ps.len() > 0 {
        lemma_all_freed(h, ps.drop_last());
        let h1 = argpins::all_freed(h, ps.drop_last());
        steady::lemma_dropped(h1, ps.last());
        let (h2, more) = freeing::dropped(h1, ps.last());
        tables::lemma_then(h, h1, h2);
        steady::lemma_worked(h2, more.reverse());
        tables::lemma_then(h, h2, freeing::worked(h2, more.reverse()));
    }
}

pub proof fn lemma_arg_pinned(h: HeapV, p: usize)
    requires
        tables_hold(h),
    ensures
        stays(h, argpins::pinned_if_arg(h, p)),
{
    reveal(argpins::arg_pinned);
    tables::lemma_same(h);
    let stay = argpins::sorted_out(h, h.arg_pins, false);
    let h1 = HeapV {
        arg_pins: if stay.contains(p) {
            stay
        } else {
            stay.push(p)
        },
        ..h
    };
    tables::lemma_touch(h, h1);
    let go = argpins::sorted_out(h, h.arg_pins, true);
    lemma_all_freed(h1, go);
    tables::lemma_then(h, h1, argpins::all_freed(h1, go));
    tables::lemma_touch(h, HeapV { arg_pins: h.arg_pins.push(p), ..h });
}

} // verus!
