//! Crossing keeps what the tables say.

use vstd::prelude::*;
use crate::argpins;
use crate::crossing;
use crate::crossing::{Lane, Place, BOX_SIZE};
use crate::descriptors;
use crate::flat;
use crate::heap;
use crate::heap::{HeapV, StoreV};
use crate::holding;
use crate::layout;
use crate::mirror;
use crate::object;
use crate::object::{ExcFields, PyObject};
use crate::outward;
use crate::pins;
use crate::steady;
use crate::tables;
use crate::tables::{goes, moves, settles, stays, tables_hold};
use crate::value;
use crate::value::{NatV, ObjV};

verus! {

broadcast use vstd::std_specs::hash::group_hash_axioms;

/// The address is that of an object of this type that is being made.
pub open spec fn vacant(h: HeapV, p: usize, ty: usize) -> bool {
    &&& p < h.next
    &&& !h.mem.contains_key(p)
    &&& !h.minted.contains(p)
    &&& !h.raw_longs.contains(p)
    &&& flat::ordinary(h, p)
    &&& heap::type_at(h, p) == ty
}

/// The entries that lead to an address are those of this list.
pub open spec fn leads(h: HeapV, p: usize, n: NatV) -> bool {
    forall|id: usize| #[trigger]
        h.lists.contains_key(id) && h.lists[id] == p ==> id == n.id && n.val is List
}

/// Two heaps whose tables are the same.
pub open spec fn same_tables(h: HeapV, g: HeapV) -> bool {
    &&& g.facts == h.facts
    &&& g.lists == h.lists
    &&& g.sets == h.sets
    &&& g.bytearrays == h.bytearrays
    &&& g.builtins == h.builtins
    &&& g.c_body == h.c_body
    &&& g.pins == h.pins
    &&& g.interned == h.interned
}

/// What the tables say still holds where every object that fits still does.
pub proof fn lemma_carried(h: HeapV, g: HeapV)
    requires
        tables_hold(h),
        same_tables(h, g),
        forall|q: usize| q >= g.next ==> #[trigger] tables::unused(g, q),
        forall|q: usize| #[trigger] g.raw_longs.contains(q) ==> !g.mem.contains_key(q),
        forall|q: usize| #[trigger]
            tables::fits(h, q) ==> tables::fits(g, q) && g.mem[q] == h.mem[q] && heap::type_at(g, q)
                == heap::type_at(h, q),
        forall|id: usize| #[trigger]
            h.lists.contains_key(id) && !h.mem.contains_key(h.lists[id]) ==> tables::list_ok(
                g,
                id,
                h.lists[id],
            ),
    ensures
        tables_hold(g),
{
    reveal(tables_hold);
    assert forall|i: int| 0 <= i < g.pins.len() implies tables::pin_ok(g, #[trigger] g.pins[i]) by {
        assert(tables::pin_ok(h, h.pins[i]));
    }
    assert forall|i: int| 0 <= i < g.interned.len() implies tables::text_ok(
        g,
        #[trigger] g.interned[i],
    ) by {
        assert(tables::text_ok(h, h.interned[i]));
    }
    assert forall|id: usize| #[trigger] g.sets.contains_key(id) implies tables::set_ok(
        g,
        id,
        g.sets[id],
    ) by {
        assert(tables::set_ok(h, id, h.sets[id]));
    }
    assert forall|id: usize| #[trigger] g.bytearrays.contains_key(id) implies tables::bytearray_ok(
        g,
        id,
        g.bytearrays[id],
    ) by {
        assert(tables::bytearray_ok(h, id, h.bytearrays[id]));
    }
    assert forall|id: usize| #[trigger] g.builtins.contains_key(id) implies tables::builtin_ok(
        g,
        id,
        g.builtins[id],
    ) by {
        assert(tables::builtin_ok(h, id, h.builtins[id]));
    }
    assert forall|id: usize| #[trigger] g.c_body.contains_key(id) implies tables::body_ok(
        g,
        id,
        g.c_body[id],
    ) by {
        assert(tables::body_ok(h, id, h.c_body[id]));
    }
    assert forall|id: usize| #[trigger] g.lists.contains_key(id) implies tables::list_ok(
        g,
        id,
        g.lists[id],
    ) by {
        assert(tables::list_ok(h, id, h.lists[id]));
    }
}

/// A block that was just taken gets a head.
proof fn lemma_headed(h0: HeapV, h: HeapV, p: usize, head: PyObject)
    requires
        tables_hold(h),
        moves(h0, h),
        h0.next <= p < h.next,
        vacant(h, p, 0),
    ensures
        ({
            let g = HeapV { heads: h.heads.insert(p, head), ..h };
            &&& tables_hold(g)
            &&& moves(h0, g)
            &&& vacant(g, p, head.ob_type)
            &&& forall|id: usize| #[trigger] g.lists.contains_key(id) ==> g.lists[id] != p
        }),
{
    let g = HeapV { heads: h.heads.insert(p, head), ..h };
    assert(forall|id: usize| #[trigger] h.lists.contains_key(id) ==> h.lists[id] != p) by {
        reveal(tables_hold);
        assert forall|id: usize| #[trigger] h.lists.contains_key(id) implies h.lists[id] != p by {
            assert(tables::list_ok(h, id, h.lists[id]));
        }
    }
    assert(tables_hold(g)) by {
        reveal(tables_hold);
        assert forall|q: usize| q >= g.next implies #[trigger] tables::unused(g, q) by {
            assert(tables::unused(h, q));
        }
        assert forall|id: usize| #[trigger]
            h.lists.contains_key(id) && !h.mem.contains_key(h.lists[id]) implies tables::list_ok(
            g,
            id,
            h.lists[id],
        ) by {
            assert(tables::list_ok(h, id, h.lists[id]));
        }
        lemma_carried(h, g);
    }
    assert(moves(h0, g)) by {
        reveal(moves);
        assert forall|q: usize| q < h0.next implies #[trigger] tables::follows(h0, g, q) by {
            assert(tables::follows(h0, h, q));
        }
    }
}

/// An object that is being made gets its storage.
proof fn lemma_placed(h0: HeapV, h: HeapV, g: HeapV, p: usize, s: StoreV)
    requires
        tables_hold(h),
        moves(h0, h),
        h0.next <= p,
        vacant(h, p, heap::type_at(h, p)),
        g == (HeapV {
            mem: h.mem.insert(p, s),
            minted: h.minted.insert(p),
            cells: g.cells,
            ..h
        }),
        leads(h, p, s.obj),
        s.link is Unlinked,
        !s.str_buffer,
        !s.bytes_buffer,
        s.obj.val is List ==> heap::type_at(h, p) == h.facts.types.list_type,
    ensures
        tables_hold(g),
        moves(h0, g),
        tables::unlisted(g, p),
        tables::suits(h.facts, s.obj.val, heap::type_at(h, p)) ==> tables::fits(g, p),
        tables::firm(h0, h) ==> tables::firm(h0, g),
{
    assert(tables_hold(g) && tables::unlisted(g, p)) by {
        reveal(tables_hold);
        assert forall|q: usize| q >= g.next implies #[trigger] tables::unused(g, q) by {
            assert(tables::unused(h, q));
        }
        assert forall|id: usize| #[trigger]
            h.lists.contains_key(id) && !h.mem.contains_key(h.lists[id]) implies tables::list_ok(
            g,
            id,
            h.lists[id],
        ) by {
            assert(tables::list_ok(h, id, h.lists[id]));
        }
        lemma_carried(h, g);
        assert forall|i: int| 0 <= i < h.pins.len() implies (#[trigger] h.pins[i]).1 != p by {
            assert(tables::pin_ok(h, h.pins[i]));
        }
        assert forall|i: int| 0 <= i < h.interned.len() implies (#[trigger] h.interned[i]).1
            != p by {
            assert(tables::text_ok(h, h.interned[i]));
        }
    }
    assert(moves(h0, g)) by {
        reveal(moves);
        assert forall|q: usize| q < h0.next implies #[trigger] tables::follows(h0, g, q) by {
            assert(tables::follows(h0, h, q));
        }
    }
    if tables::firm(h0, h) {
        reveal(tables::firm);
        assert forall|q: usize| q < h0.next && #[trigger] tables::held(h0, q) implies tables::held(
            g,
            q,
        ) by {
            assert(tables::held(h, q));
        }
    }
}

/// The tables of sets, byte arrays, builtins and instances change, and what they
/// say still holds.
proof fn lemma_entered(h: HeapV, g: HeapV)
    requires
        tables_hold(h),
        g == (HeapV {
            sets: g.sets,
            bytearrays: g.bytearrays,
            builtins: g.builtins,
            c_body: g.c_body,
            ..h
        }),
        forall|id: usize| #[trigger]
            g.sets.contains_key(id) ==> h.sets.contains_key(id) && h.sets[id] == g.sets[id]
                || tables::set_ok(h, id, g.sets[id]),
        forall|id: usize| #[trigger]
            g.bytearrays.contains_key(id) ==> h.bytearrays.contains_key(id) && h.bytearrays[id]
                == g.bytearrays[id] || tables::bytearray_ok(h, id, g.bytearrays[id]),
        forall|id: usize| #[trigger]
            g.builtins.contains_key(id) ==> h.builtins.contains_key(id) && h.builtins[id]
                == g.builtins[id] || tables::builtin_ok(h, id, g.builtins[id]),
        forall|id: usize| #[trigger]
            g.c_body.contains_key(id) ==> h.c_body.contains_key(id) && h.c_body[id] == g.c_body[id]
                || tables::body_ok(h, id, g.c_body[id]),
    ensures
        stays(h, g),
{
    reveal(tables_hold);
    reveal(moves);
    reveal(settles);
    reveal(tables::firm);
    assert forall|q: usize| q >= g.next implies #[trigger] tables::unused(g, q) by {
        assert(tables::unused(h, q));
    }
    assert forall|q: usize| #[trigger] tables::fits(h, q) implies tables::fits(g, q) by {
        assert(heap::type_at(g, q) == heap::type_at(h, q));
    }
    assert forall|i: int| 0 <= i < g.pins.len() implies tables::pin_ok(g, #[trigger] g.pins[i]) by {
        assert(tables::pin_ok(h, h.pins[i]));
    }
    assert forall|i: int| 0 <= i < g.interned.len() implies tables::text_ok(
        g,
        #[trigger] g.interned[i],
    ) by {
        assert(tables::text_ok(h, h.interned[i]));
    }
    assert forall|id: usize| #[trigger] g.sets.contains_key(id) implies tables::set_ok(
        g,
        id,
        g.sets[id],
    ) by {
        assert(tables::set_ok(h, id, g.sets[id]));
    }
    assert forall|id: usize| #[trigger] g.bytearrays.contains_key(id) implies tables::bytearray_ok(
        g,
        id,
        g.bytearrays[id],
    ) by {
        assert(tables::bytearray_ok(h, id, g.bytearrays[id]));
    }
    assert forall|id: usize| #[trigger] g.builtins.contains_key(id) implies tables::builtin_ok(
        g,
        id,
        g.builtins[id],
    ) by {
        assert(tables::builtin_ok(h, id, g.builtins[id]));
    }
    assert forall|id: usize| #[trigger] g.c_body.contains_key(id) implies tables::body_ok(
        g,
        id,
        g.c_body[id],
    ) by {
        assert(tables::body_ok(h, id, g.c_body[id]));
    }
    assert forall|id: usize| #[trigger] g.lists.contains_key(id) implies tables::list_ok(
        g,
        id,
        g.lists[id],
    ) by {
        assert(tables::list_ok(h, id, h.lists[id]));
    }
}

/// What is found under a text is in the table.
pub proof fn lemma_text_found(texts: Seq<(Seq<char>, usize)>, s: Seq<char>)
    ensures
        match pins::interned_at(texts, s) {
            Some(p) => texts.contains((s, p)),
            None => forall|i: int| 0 <= i < texts.len() ==> (#[trigger] texts[i]).0 != s,
        },
    decreases texts.len(),
{
    if texts.len() > 0 {
        let front = texts.drop_last();
        lemma_text_found(front, s);
        assert(texts[texts.len() - 1] == texts.last());
        match pins::interned_at(front, s) {
            Some(p) => {
                let j = choose|j: int| 0 <= j < front.len() && front[j] == (s, p);
                assert(texts[j] == (s, p));
            },
            None => {
                assert forall|i: int| 0 <= i < texts.len() - 1 implies (#[trigger] texts[i]).0
                    == front[i].0 by {}
            },
        }
    }
}

/// A text is interned.
proof fn lemma_interned(h: HeapV, s: Seq<char>, p: usize)
    requires
        tables_hold(h),
        tables::text_ok(h, (s, p)),
        pins::interned_at(h.interned, s) is None,
        tables::unlisted(h, p),
    ensures
        goes(h, HeapV { interned: h.interned.push((s, p)), ..h }),
{
    let g = HeapV { interned: h.interned.push((s, p)), ..h };
    lemma_text_found(h.interned, s);
    reveal(tables_hold);
    reveal(moves);
    reveal(settles);
    assert forall|q: usize| q >= g.next implies #[trigger] tables::unused(g, q) by {
        assert(tables::unused(h, q));
    }
    assert forall|q: usize| #[trigger] tables::fits(h, q) implies tables::fits(g, q) by {
        assert(heap::type_at(g, q) == heap::type_at(h, q));
    }
    assert forall|i: int| 0 <= i < g.pins.len() implies tables::pin_ok(g, #[trigger] g.pins[i]) by {
        assert(tables::pin_ok(h, h.pins[i]));
    }
    assert forall|i: int| 0 <= i < g.interned.len() implies tables::text_ok(
        g,
        #[trigger] g.interned[i],
    ) by {
        if i < h.interned.len() {
            assert(g.interned[i] == h.interned[i]);
            assert(tables::text_ok(h, h.interned[i]));
        } else {
            assert(tables::text_ok(h, (s, p)));
        }
    }
    assert forall|id: usize| #[trigger] g.sets.contains_key(id) implies tables::set_ok(
        g,
        id,
        g.sets[id],
    ) by {
        assert(tables::set_ok(h, id, h.sets[id]));
    }
    assert forall|id: usize| #[trigger] g.bytearrays.contains_key(id) implies tables::bytearray_ok(
        g,
        id,
        g.bytearrays[id],
    ) by {
        assert(tables::bytearray_ok(h, id, h.bytearrays[id]));
    }
    assert forall|id: usize| #[trigger] g.builtins.contains_key(id) implies tables::builtin_ok(
        g,
        id,
        g.builtins[id],
    ) by {
        assert(tables::builtin_ok(h, id, h.builtins[id]));
    }
    assert forall|id: usize| #[trigger] g.c_body.contains_key(id) implies tables::body_ok(
        g,
        id,
        g.c_body[id],
    ) by {
        assert(tables::body_ok(h, id, h.c_body[id]));
    }
    assert forall|id: usize| #[trigger] g.lists.contains_key(id) implies tables::list_ok(
        g,
        id,
        g.lists[id],
    ) by {
        assert(tables::list_ok(h, id, h.lists[id]));
    }
}

/// An address that was just taken is vacant.
proof fn lemma_taken(h: HeapV, size: nat)
    requires
        tables_hold(h),
        heap::has_room(h, size),
    ensures
        ({
            let (g, p) = heap::allocated(h, size);
            &&& stays(h, g)
            &&& p == h.next
            &&& p != 0
            &&& p < g.next
            &&& vacant(g, p, 0)
        }),
{
    tables::lemma_allocated(h, size);
    reveal(tables_hold);
    assert(tables::unused(h, h.next));
}

/// An address that is being made into an object stays vacant.
proof fn lemma_still_vacant(h: HeapV, g: HeapV, p: usize, ty: usize)
    requires
        moves(h, g),
        vacant(h, p, ty),
    ensures
        vacant(g, p, ty),
{
    reveal(moves);
    assert(tables::follows(h, g, p));
}

/// A mirror is begun.
pub proof fn lemma_opened(h: HeapV, n: NatV, ty: usize, one_list: bool)
    requires
        tables_hold(h),
        crossing::can_open(h, n.val),
        one_list ==> n.val is List && ty == h.facts.types.list_type && !h.lists.contains_key(n.id),
    ensures
        ({
            let (g, place) = crossing::opened(h, n, ty, one_list);
            &&& tables_hold(g)
            &&& moves(h, g)
            &&& vacant(g, place.at, ty)
            &&& place.at == h.next
            &&& place.at != 0
            &&& leads(g, place.at, n)
            &&& g.mem == h.mem
            &&& g.pins == h.pins
            &&& g.interned == h.interned
            &&& g.due == h.due
            &&& tables::firm(h, g)
            &&& g.lists == if one_list {
                h.lists.insert(n.id, place.at)
            } else {
                h.lists
            }
        }),
{
    reveal(crossing::opened);
    let (h1, at) = heap::allocated(h, layout::body_len(n.val) as nat);
    lemma_taken(h, layout::body_len(n.val) as nat);
    let (h2, aux) = if layout::aux_len(n.val) > 0 {
        heap::allocated(h1, layout::aux_len(n.val) as nat)
    } else {
        (h1, 0)
    };
    tables::lemma_same(h1);
    tables::lemma_allocated(h1, layout::aux_len(n.val) as nat);
    tables::lemma_then(h, h1, h2);
    lemma_still_vacant(h1, h2, at, 0);
    let head = PyObject { ob_refcnt: 1, ob_type: ty };
    lemma_headed(h, h2, at, head);
    let h3 = HeapV { heads: h2.heads.insert(at, head), ..h2 };
    assert(tables::firm(h, h3)) by {
        reveal(tables::firm);
        assert forall|q: usize| q < h.next && #[trigger] tables::held(h, q) implies tables::held(
            h3,
            q,
        ) by {
            assert(tables::held(h2, q));
        }
    }
    let (g, place) = crossing::opened(h, n, ty, one_list);
    if one_list {
        assert(tables_hold(g)) by {
            lemma_listed(h3, n.id, at);
        }
        assert(moves(h, g)) by {
            reveal(moves);
            assert forall|q: usize| q < h.next implies #[trigger] tables::follows(h, g, q) by {
                assert(tables::follows(h, h3, q));
            }
        }
        assert(tables::firm(h, g)) by {
            reveal(tables::firm);
            assert forall|q: usize| q < h.next && #[trigger] tables::held(h, q) implies tables::held(
                g,
                q,
            ) by {
                assert(tables::held(h3, q));
            }
        }
        assert forall|id: usize| #[trigger]
            g.lists.contains_key(id) && g.lists[id] == place.at implies id == n.id by {
            if id != n.id {
                assert(h3.lists.contains_key(id));
            }
        }
    } else {
        assert(g == h3);
        assert(leads(g, place.at, n));
    }
}

/// A list that is being made is recorded.
proof fn lemma_listed(h: HeapV, id: usize, p: usize)
    requires
        tables_hold(h),
        vacant(h, p, h.facts.types.list_type),
    ensures
        tables_hold(HeapV { lists: h.lists.insert(id, p), ..h }),
{
    let g = HeapV { lists: h.lists.insert(id, p), ..h };
    reveal(tables_hold);
    assert forall|q: usize| q >= g.next implies #[trigger] tables::unused(g, q) by {
        assert(tables::unused(h, q));
    }
    assert forall|i: int| 0 <= i < g.pins.len() implies tables::pin_ok(g, #[trigger] g.pins[i]) by {
        assert(tables::pin_ok(h, h.pins[i]));
    }
    assert forall|i: int| 0 <= i < g.interned.len() implies tables::text_ok(
        g,
        #[trigger] g.interned[i],
    ) by {
        assert(tables::text_ok(h, h.interned[i]));
    }
    assert forall|k: usize| #[trigger] g.sets.contains_key(k) implies tables::set_ok(
        g,
        k,
        g.sets[k],
    ) by {
        assert(tables::set_ok(h, k, h.sets[k]));
    }
    assert forall|k: usize| #[trigger] g.bytearrays.contains_key(k) implies tables::bytearray_ok(
        g,
        k,
        g.bytearrays[k],
    ) by {
        assert(tables::bytearray_ok(h, k, h.bytearrays[k]));
    }
    assert forall|k: usize| #[trigger] g.builtins.contains_key(k) implies tables::builtin_ok(
        g,
        k,
        g.builtins[k],
    ) by {
        assert(tables::builtin_ok(h, k, h.builtins[k]));
    }
    assert forall|k: usize| #[trigger] g.c_body.contains_key(k) implies tables::body_ok(
        g,
        k,
        g.c_body[k],
    ) by {
        assert(tables::body_ok(h, k, h.c_body[k]));
    }
    assert forall|k: usize| #[trigger] g.lists.contains_key(k) implies tables::list_ok(
        g,
        k,
        g.lists[k],
    ) by {
        if k != id {
            assert(tables::list_ok(h, k, h.lists[k]));
        }
    }
}

/// What holds of an object that was just made for a VM object.
pub open spec fn made(g: HeapV, p: usize, n: NatV, ty: usize) -> bool {
    &&& p != 0
    &&& g.mem.contains_key(p)
    &&& g.minted.contains(p)
    &&& g.mem[p].obj == n
    &&& g.mem[p].link is Unlinked
    &&& heap::type_at(g, p) == ty
    &&& tables::unlisted(g, p)
    &&& flat::ordinary(g, p)
    &&& tables::suits(g.facts, n.val, ty) ==> tables::fits(g, p)
}

/// A mirror is finished.
proof fn lemma_finished(h: HeapV, h1: HeapV, h2: HeapV, n: NatV, ty: usize, place: Place, kids: Seq<usize>, one_list: bool)
    requires
        tables_hold(h),
        crossing::can_open(h, n.val),
        one_list ==> n.val is List && ty == h.facts.types.list_type && !h.lists.contains_key(n.id),
        n.val is List ==> ty == h.facts.types.list_type,
        (h1, place) == crossing::opened(h, n, ty, one_list),
        goes(h1, h2),
    ensures
        goes(h, crossing::filled_in(h2, n, place, kids)),
        made(crossing::filled_in(h2, n, place, kids), place.at, n, ty),
        crossing::filled_in(h2, n, place, kids).interned == h2.interned,
        crossing::filled_in(h2, n, place, kids).pins == h2.pins,
        crossing::filled_in(h2, n, place, kids).due == h2.due,
{
    lemma_opened(h, n, ty, one_list);
    tables::lemma_moves(h, h1, h2);
    lemma_still_vacant(h1, h2, place.at, ty);
    reveal(crossing::filled_in);
    let own = crossing::own_refs(h2, n, kids);
    let h3 = heap::all_increfed(h2, own);
    tables::lemma_all_increfed(h2, own);
    tables::lemma_moves(h, h2, h3);
    lemma_still_vacant(h2, h3, place.at, ty);
    let g = crossing::filled_in(h2, n, place, kids);
    let s = crossing::new_store(h2, n, place, kids);
    assert(leads(h3, place.at, n)) by {
        reveal(settles);
    }
    assert(h3.facts == h.facts) by {
        reveal(moves);
    }
    lemma_placed(h, h3, g, place.at, s);
    assert(settles(h, g)) by {
        reveal(settles);
        assert forall|id: usize| #[trigger]
            g.lists.contains_key(id) && !g.mem.contains_key(g.lists[id]) implies
            h.lists.contains_key(id) && h.lists[id] == g.lists[id] && !h.mem.contains_key(
            h.lists[id],
        ) by {
            assert(h2.lists.contains_key(id) && !h2.mem.contains_key(h2.lists[id]));
            assert(h1.lists.contains_key(id));
        }
    }
}

/// The type that an object crosses under suits it.
pub proof fn lemma_suits(h: HeapV, n: NatV)
    requires
        tables_hold(h),
        mirror::obj_faithful(n.val),
    ensures
        ({
            let ty = crossing::type_for(h, n);
            &&& n.val is List ==> ty == h.facts.types.list_type
            &&& !(n.val is Bool) ==> tables::suits(h.facts, n.val, ty)
                && mirror::mirror_type(h.facts, ty)
        }),
{
    reveal(tables_hold);
}

/// The object that an object crosses as already, where the tables know it.
pub proof fn lemma_shared(h: HeapV, n: NatV, p: usize)
    requires
        tables_hold(h),
        crossing::known(h, n, crossing::type_for(h, n)) == Some(p),
    ensures
        goes(h, crossing::shared(h, n, crossing::type_for(h, n), p)),
        !(n.val is List) ==> stays(h, crossing::shared(h, n, crossing::type_for(h, n), p)),
{
    reveal(crossing::known);
    reveal(crossing::shared);
    let ty = crossing::type_for(h, n);
    tables::lemma_same(h);
    tables::lemma_increfed(h, p);
    let h1 = heap::increfed(h, p);
    match crossing::lane(h, n, ty) {
        Lane::OneList => {
            let h2 = HeapV { due: h1.due.push(p), ..h1 };
            tables::lemma_touch(h1, h2);
            tables::lemma_then(h, h1, h2);
        },
        Lane::OneByteArray => {
            match n.val {
                ObjV::ByteArray(b) => {
                    if h1.mem.contains_key(p) && h1.mem[p].tail.len() == layout::BYTEARRAY_SIZE
                        - layout::HEAD {
                        let (at, cap) = crossing::buffer_at(h1, n.id);
                        let t = StoreV {
                            obj: n,
                            tail: layout::bytearray_tail(h1.mem[p].tail, b.len(), at, cap),
                            ..h1.mem[p]
                        };
                        assert(h1.mem[p].obj.id == n.id && h1.mem[p].obj.val is ByteArray) by {
                            reveal(tables_hold);
                            assert(tables::bytearray_ok(h, n.id, h.bytearrays[n.id]));
                        }
                        tables::lemma_store(h1, p, t);
                        tables::lemma_then(h, h1, heap::with_store(h1, p, t));
                    }
                },
                _ => {},
            }
        },
        _ => {},
    }
}

/// A new mirror is kept for the next crossing.
pub proof fn lemma_kept(h: HeapV, n: NatV, p: usize)
    requires
        tables_hold(h),
        mirror::obj_faithful(n.val),
        made(h, p, n, crossing::type_for(h, n)),
        n.val is Str ==> pins::interned_at(h.interned, n.val->Str_0) is None
            || crossing::lane(h, n, crossing::type_for(h, n)) != Lane::Interned,
    ensures
        goes(h, crossing::kept(h, n, crossing::type_for(h, n), p)),
        ({
            let g = crossing::kept(h, n, crossing::type_for(h, n), p);
            &&& g.mem.contains_key(p)
            &&& g.due == h.due
            &&& crossing::lane(h, n, crossing::type_for(h, n)) == Lane::Interned
                ==> pins::interned_at(g.interned, n.val->Str_0) == Some(p)
        }),
{
    reveal(crossing::kept);
    let ty = crossing::type_for(h, n);
    let g = crossing::kept(h, n, ty, p);
    tables::lemma_same(h);
    lemma_suits(h, n);
    match crossing::lane(h, n, ty) {
        Lane::OneSet => {
            assert(tables::set_ok(h, n.id, p));
            lemma_entered(h, g);
        },
        Lane::OneByteArray => {
            assert(tables::bytearray_ok(h, n.id, p));
            lemma_entered(h, g);
        },
        Lane::OneBuiltin => {
            assert(tables::builtin_ok(h, n.id, p));
            lemma_entered(h, g);
        },
        Lane::Interned => {
            match n.val {
                ObjV::Str(s) => {
                    let t = StoreV { scalar_pinned: true, ..h.mem[p] };
                    tables::lemma_store(h, p, t);
                    let h1 = pins::flagged(h, p, true);
                    assert(tables::text_ok(h1, (s, p)));
                    lemma_interned(h1, s, p);
                    tables::lemma_then(h, h1, g);
                },
                _ => {},
            }
        },
        Lane::Pinned(key) => {
            holding::lemma_pinned(h, key, p);
        },
        _ => {},
    }
}

/// A leaf crosses.
proof fn lemma_leaf(h: HeapV, n: NatV)
    requires
        tables_hold(h),
        n.val is Str,
    ensures
        goes(h, crossing::leaf(h, n, crossing::type_for(h, n)).0),
{
    reveal(crossing::leaf);
    let ty = crossing::type_for(h, n);
    tables::lemma_same(h);
    match crossing::known(h, n, ty) {
        Some(p) => {
            lemma_shared(h, n, p);
        },
        None => {
            if crossing::can_open(h, n.val) {
                let (h1, place) = crossing::opened(h, n, ty, false);
                lemma_opened(h, n, ty, false);
                tables::lemma_same(h1);
                lemma_finished(h, h1, h1, n, ty, place, Seq::empty(), false);
                let h2 = crossing::filled_in(h1, n, place, Seq::empty());
                assert(h2.facts == h.facts && h2.intern_depth == h.intern_depth) by {
                    reveal(moves);
                }
                assert(crossing::lane(h2, n, ty) == Lane::Interned ==> pins::interned_at(
                    h2.interned,
                    n.val->Str_0,
                ) is None) by {
                    reveal(crossing::known);
                }
                lemma_kept(h2, n, place.at);
                tables::lemma_then(h, h2, crossing::kept(h2, n, ty, place.at));
            }
        },
    }
}

/// A plain object is made.
pub proof fn lemma_boxed(h: HeapV, n: NatV, ty: usize, refcnt: i64)
    requires
        tables_hold(h),
        !(n.val is List),
    ensures
        stays(h, crossing::boxed(h, n, ty, refcnt).0),
        heap::has_room(h, BOX_SIZE as nat) ==> made(
            crossing::boxed(h, n, ty, refcnt).0,
            crossing::boxed(h, n, ty, refcnt).1,
            n,
            ty,
        ) && crossing::boxed(h, n, ty, refcnt).1 == h.next,
{
    tables::lemma_same(h);
    if heap::has_room(h, BOX_SIZE as nat) {
        let (h1, p) = heap::allocated(h, BOX_SIZE as nat);
        lemma_taken(h, BOX_SIZE as nat);
        let head = PyObject { ob_refcnt: refcnt, ob_type: ty };
        lemma_headed(h, h1, p, head);
        let h2 = HeapV { heads: h1.heads.insert(p, head), ..h1 };
        let g = crossing::boxed(h, n, ty, refcnt).0;
        let s = crossing::box_store(n, object::no_exc());
        assert(tables::firm(h, h2)) by {
            reveal(tables::firm);
            assert forall|q: usize| q < h.next && #[trigger] tables::held(h, q) implies tables::held(
                h2,
                q,
            ) by {
                assert(tables::held(h1, q));
            }
        }
        lemma_placed(h, h2, g, p, s);
        assert(settles(h, g)) by {
            reveal(settles);
        }
    }
}

/// A getter's descriptor is made.
proof fn lemma_getset(h: HeapV, n: NatV, m: value::PropV)
    requires
        tables_hold(h),
    ensures
        goes(h, descriptors::getset_box(h, n, m).0),
{
    reveal(descriptors::getset_box);
    reveal(descriptors::described);
    tables::lemma_same(h);
    if crossing::entry(h.getsets, n.id) is None && descriptors::can_describe(h, m) {
        let (h1, at) = heap::allocated(h, descriptors::GETSET_SIZE as nat);
        lemma_taken(h, descriptors::GETSET_SIZE as nat);
        let len = descriptors::getset_aux(m.name, m.doc).len();
        let (h2, aux) = heap::allocated(h1, len);
        tables::lemma_allocated(h1, len);
        tables::lemma_then(h, h1, h2);
        let (h3, id) = heap::new_cell(h2);
        tables::lemma_touch(h2, h3);
        tables::lemma_then(h, h2, h3);
        tables::lemma_then(h1, h2, h3);
        let name = NatV { id, val: ObjV::Str(m.name) };
        assert(h3.facts == h.facts);
        lemma_leaf(h3, name);
        let (h4, d_name) = crossing::leaf(h3, name, h.facts.types.unicode_type);
        tables::lemma_then(h, h3, h4);
        lemma_still_vacant(h1, h3, at, 0);
        lemma_still_vacant(h3, h4, at, 0);
        let head = PyObject {
            ob_refcnt: object::IMMORTAL_REFCNT,
            ob_type: h4.facts.types.getset_type,
        };
        lemma_headed(h, h4, at, head);
        let h5 = HeapV { heads: h4.heads.insert(at, head), ..h4 };
        let s = StoreV {
            tail: descriptors::getset_tail(Place { at, aux }, m.d_type, d_name, m.name, m.doc),
            aux: descriptors::getset_aux(m.name, m.doc),
            aux_addr: aux,
            ..crossing::box_store(n, object::no_exc())
        };
        let h6 = HeapV { mem: h5.mem.insert(at, s), minted: h5.minted.insert(at), ..h5 };
        lemma_described(h, h5, descriptors::described(h, n, m).0, at, s);
        let g = descriptors::described(h, n, m).0;
        assert(settles(h, g)) by {
            reveal(settles);
        }
    }
}

/// A descriptor gets its storage, at an address that no table leads to.
proof fn lemma_described(h0: HeapV, h: HeapV, g: HeapV, p: usize, s: StoreV)
    requires
        tables_hold(h),
        moves(h0, h),
        h0.next <= p,
        vacant(h, p, heap::type_at(h, p)),
        forall|id: usize| #[trigger] h.lists.contains_key(id) ==> h.lists[id] != p,
        g == (HeapV {
            mem: h.mem.insert(p, s),
            minted: h.minted.insert(p),
            getsets: g.getsets,
            getset_boxes: h.getset_boxes.insert(p),
            ..h
        }),
    ensures
        tables_hold(g),
        moves(h0, g),
{
    assert(tables_hold(g)) by {
        reveal(tables_hold);
        assert forall|q: usize| q >= g.next implies #[trigger] tables::unused(g, q) by {
            assert(tables::unused(h, q));
        }
        assert forall|id: usize| #[trigger]
            h.lists.contains_key(id) && !h.mem.contains_key(h.lists[id]) implies tables::list_ok(
            g,
            id,
            h.lists[id],
        ) by {
            assert(tables::list_ok(h, id, h.lists[id]));
        }
        lemma_carried(h, g);
    }
    assert(moves(h0, g)) by {
        reveal(moves);
        assert forall|q: usize| q < h0.next implies #[trigger] tables::follows(h0, g, q) by {
            assert(tables::follows(h0, h, q));
        }
    }
}

// ---------------------------------------------------------------------------
// Every object
// ---------------------------------------------------------------------------

proof fn lemma_outs(h: HeapV, s: Seq<NatV>)
    requires
        tables_hold(h),
    ensures
        goes(h, outward::outs(h, s).0),
    decreases s, 0nat,
{
    tables::lemma_same(h);
    if s.len() > 0 {
        lemma_outs(h, s.drop_last());
        let h1 = outward::outs(h, s.drop_last()).0;
        lemma_out(h1, s.last());
        tables::lemma_then(h, h1, outward::out(h1, s.last()).0);
    }
}

proof fn lemma_kids(h: HeapV, o: ObjV)
    requires
        tables_hold(h),
    ensures
        goes(h, outward::kids_out(h, o).0),
    decreases o, 0nat,
{
    tables::lemma_same(h);
    match o {
        ObjV::Tuple(v) => {
            lemma_outs(h, v);
        },
        ObjV::List(v) => {
            lemma_outs(h, v);
        },
        ObjV::Slice(v) => {
            lemma_outs(h, v);
        },
        ObjV::BoundMethod(v) => {
            lemma_outs(h, v);
        },
        _ => {},
    }
}

/// An object crosses as a mirror of its own.
pub proof fn lemma_fresh(h: HeapV, n: NatV, ty: usize, one_list: bool)
    requires
        tables_hold(h),
        n.val is List ==> ty == h.facts.types.list_type,
        one_list ==> n.val is List && !h.lists.contains_key(n.id),
    ensures
        goes(h, outward::fresh_out(h, n, ty, one_list).0),
        crossing::can_open(h, n.val) ==> made(
            outward::fresh_out(h, n, ty, one_list).0,
            outward::fresh_out(h, n, ty, one_list).1,
            n,
            ty,
        ),
        layout::kids_of(n.val).len() == 0 ==> outward::fresh_out(h, n, ty, one_list).0.interned
            == h.interned && outward::fresh_out(h, n, ty, one_list).0.due == h.due,
    decreases n, 0nat,
{
    tables::lemma_same(h);
    if crossing::can_open(h, n.val) {
        let (h1, place) = crossing::opened(h, n, ty, one_list);
        lemma_opened(h, n, ty, one_list);
        lemma_kids(h1, n.val);
        let (h2, kids) = outward::kids_out(h1, n.val);
        lemma_finished(h, h1, h2, n, ty, place, kids, one_list);
    }
}

/// An object crosses as a mirror.
pub proof fn lemma_mirrored(h: HeapV, n: NatV)
    requires
        tables_hold(h),
        mirror::obj_faithful(n.val),
    ensures
        goes(h, outward::mirrored(h, n, crossing::type_for(h, n)).0),
    decreases n, 1nat,
{
    let ty = crossing::type_for(h, n);
    tables::lemma_same(h);
    match crossing::known(h, n, ty) {
        Some(p) => {
            lemma_shared(h, n, p);
        },
        None => {
            lemma_suits(h, n);
            let one = crossing::lane(h, n, ty) is OneList;
            assert(one ==> n.val is List && !h.lists.contains_key(n.id)) by {
                reveal(crossing::known);
            }
            lemma_fresh(h, n, ty, one);
            let (h1, p) = outward::fresh_out(h, n, ty, one);
            if p != 0 && h1.mem.contains_key(p) {
                assert(h1.facts == h.facts && h1.intern_depth == h.intern_depth && h1.arg_depth
                    == h.arg_depth) by {
                    reveal(moves);
                }
                assert(n.val is Str ==> pins::interned_at(h1.interned, n.val->Str_0) is None
                    || crossing::lane(h1, n, ty) != Lane::Interned) by {
                    reveal(crossing::known);
                }
                lemma_kept(h1, n, p);
                tables::lemma_then(h, h1, crossing::kept(h1, n, ty, p));
            }
        },
    }
}

/// The object is gone or is a plain object of an instance.
pub open spec fn plain_body(h: HeapV, p: usize) -> bool {
    p < h.next && (h.mem.contains_key(p) ==> tables::fits(h, p) && h.mem[p].obj.val is Instance)
}

proof fn lemma_plain_stays(h: HeapV, g: HeapV, p: usize)
    requires
        moves(h, g),
        plain_body(h, p),
    ensures
        plain_body(g, p),
{
    reveal(moves);
    assert(tables::follows(h, g, p));
}

proof fn lemma_with_exc(h: HeapV, p: usize, e: ExcFields)
    requires
        tables_hold(h),
        plain_body(h, p),
    ensures
        stays(h, crossing::with_exc(h, p, e)),
{
    tables::lemma_same(h);
    if h.mem.contains_key(p) {
        tables::lemma_store(
            h,
            p,
            StoreV { exc: e, tail: crossing::box_tail(e), ..h.mem[p] },
        );
    }
}

proof fn lemma_exc(h: HeapV, p: usize, i: value::InstV)
    requires
        tables_hold(h),
        plain_body(h, p),
    ensures
        goes(h, outward::exc_filled(h, p, i)),
    decreases i, 0nat,
{
    tables::lemma_same(h);
    if i.exception {
        lemma_outs(h, i.args);
        let (h1, e1) = if i.args.len() == 1 && i.args[0].val is Tuple {
            let (h1, kids) = outward::outs(h, i.args);
            (h1, ExcFields { args: kids[0], ..object::no_exc() })
        } else {
            (h, object::no_exc())
        };
        let h2 = crossing::with_exc(h1, p, e1);
        lemma_plain_stays(h, h1, p);
        lemma_with_exc(h1, p, e1);
        tables::lemma_then(h, h1, h2);
        lemma_plain_stays(h, h2, p);
        if i.stop {
            if i.value.len() == 1 {
                lemma_outs(h2, i.value);
                let (h3, kids) = outward::outs(h2, i.value);
                tables::lemma_then(h, h2, h3);
                lemma_plain_stays(h, h3, p);
                let e2 = ExcFields { value: kids[0], ..e1 };
                lemma_with_exc(h3, p, e2);
                tables::lemma_then(h, h3, crossing::with_exc(h3, p, e2));
            } else {
                let e2 = ExcFields { value: h2.facts.singles.none.addr, ..e1 };
                lemma_with_exc(h2, p, e2);
                tables::lemma_then(h, h2, crossing::with_exc(h2, p, e2));
            }
        }
    }
}

proof fn lemma_instance(h: HeapV, n: NatV, ty: usize, i: value::InstV)
    requires
        tables_hold(h),
        n.val == ObjV::Instance(i),
    ensures
        goes(h, outward::instance_out(h, n, ty, i).0),
    decreases i, 1nat,
{
    tables::lemma_same(h);
    if i.body != 0 || h.facts.inline_types@.contains(ty) {
        tables::lemma_increfed(h, i.body);
    } else {
        match crossing::entry(h.c_body, n.id) {
            Some(p) => {
                tables::lemma_increfed(h, p);
                let h1 = heap::increfed(h, p);
                holding::lemma_arg_pinned(h1, p);
                tables::lemma_then(h, h1, argpins::pinned_if_arg(h1, p));
            },
            None => {
                lemma_boxed(h, n, ty, 1);
                if heap::has_room(h, BOX_SIZE as nat) && !mirror::mirror_type(h.facts, ty) {
                    let (h1, p) = crossing::boxed(h, n, ty, 1);
                    lemma_boxed(h, n, ty, 1);
                    let h2 = HeapV { c_body: h1.c_body.insert(n.id, p), ..h1 };
                    assert(tables::body_ok(h1, n.id, p));
                    lemma_entered(h1, h2);
                    tables::lemma_then(h, h1, h2);
                    assert(plain_body(h2, p)) by {
                        steady::lemma_held_below(h2, p);
                    }
                    lemma_exc(h2, p, i);
                    let h3 = outward::exc_filled(h2, p, i);
                    tables::lemma_then(h, h2, h3);
                    holding::lemma_arg_pinned(h3, p);
                    tables::lemma_then(h, h3, argpins::pinned_if_arg(h3, p));
                }
            },
        }
    }
}

/// The object of an instance that crosses for the first time is made at once.
pub proof fn lemma_new_instance(h: HeapV, n: NatV, ty: usize, i: value::InstV)
    requires
        tables_hold(h),
        n.val == ObjV::Instance(i),
        i.body == 0,
        !mirror::mirror_type(h.facts, ty),
        crossing::entry(h.c_body, n.id) is None,
        outward::instance_out(h, n, ty, i).1 != 0,
    ensures
        ({
            let (h1, p) = crossing::boxed(h, n, ty, 1);
            let h2 = HeapV { c_body: h1.c_body.insert(n.id, p), ..h1 };
            let (g, q) = outward::instance_out(h, n, ty, i);
            &&& q == p
            &&& tables_hold(h2)
            &&& tables::fits(h2, p)
            &&& h2.mem[p].obj == n
            &&& goes(h2, g)
        }),
{
    let (h1, p) = crossing::boxed(h, n, ty, 1);
    lemma_boxed(h, n, ty, 1);
    let h2 = HeapV { c_body: h1.c_body.insert(n.id, p), ..h1 };
    assert(tables::body_ok(h1, n.id, p));
    lemma_entered(h1, h2);
    assert(plain_body(h2, p)) by {
        steady::lemma_held_below(h2, p);
    }
    lemma_exc(h2, p, i);
    let h3 = outward::exc_filled(h2, p, i);
    holding::lemma_arg_pinned(h3, p);
    tables::lemma_then(h2, h3, argpins::pinned_if_arg(h3, p));
}

/// Crossing keeps what the tables say.
pub proof fn lemma_out(h: HeapV, n: NatV)
    requires
        tables_hold(h),
    ensures
        goes(h, outward::out(h, n).0),
    decreases n, 2nat,
{
    tables::lemma_same(h);
    match n.val {
        ObjV::Foreign(p) => {
            tables::lemma_increfed(h, p);
        },
        ObjV::Type(p) => {
            tables::lemma_increfed(h, p);
        },
        ObjV::Capsule(p) => {
            tables::lemma_increfed(h, p);
        },
        ObjV::Module => {
            reveal(crossing::module_box);
            let (h1, p) = crossing::boxed(h, n, crossing::type_for(h, n), object::IMMORTAL_REFCNT);
            lemma_boxed(h, n, crossing::type_for(h, n), object::IMMORTAL_REFCNT);
            let h2 = HeapV { modules: h1.modules.insert(n.id, p), ..h1 };
            tables::lemma_touch(h1, h2);
            tables::lemma_then(h, h1, h2);
        },
        ObjV::Property(m) => {
            if m.getset {
                lemma_getset(h, n, m);
                let (h1, p) = descriptors::getset_box(h, n, m);
                tables::lemma_increfed(h1, p);
                tables::lemma_then(h, h1, heap::increfed(h1, p));
            } else {
                reveal(crossing::property_box);
                match crossing::entry(h.properties, n.id) {
                    Some(p) => {
                        tables::lemma_increfed(h, p);
                    },
                    None => {
                        let (h1, p) = crossing::boxed(h, n, crossing::type_for(h, n), 1);
                        lemma_boxed(h, n, crossing::type_for(h, n), 1);
                        let h2 = HeapV { properties: h1.properties.insert(n.id, p), ..h1 };
                        tables::lemma_touch(h1, h2);
                        tables::lemma_then(h, h1, h2);
                    },
                }
            }
        },
        ObjV::Instance(i) => {
            lemma_instance(h, n, crossing::type_for(h, n), i);
        },
        ObjV::Code(p) => {
            tables::lemma_increfed(h, p);
            lemma_boxed(h, n, crossing::type_for(h, n), 1);
        },
        _ => {
            if mirror::obj_faithful(n.val) {
                lemma_mirrored(h, n);
            } else {
                lemma_boxed(h, n, crossing::type_for(h, n), 1);
            }
        },
    }
}

} // verus!
