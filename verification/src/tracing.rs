//! What is recorded of objects while a fault is being looked for.

use std::collections::{HashMap, HashSet};
use vstd::prelude::*;
use crate::heap::Heap;
use crate::mirror;
use crate::mirror::{is_faithful_list, is_faithful_tuple};
use crate::search;
use crate::search::{find, join, push_piece};
use crate::text::{slice_of, text};

verus! {

broadcast use vstd::std_specs::hash::group_hash_axioms;

/// One record of an object's end: its type and the calls that led to it.
#[derive(Debug)]
pub struct FreeSite {
    pub ty: Vec<char>,
    pub calls: Vec<char>,
}

/// The mathematical content of a [`FreeSite`].
#[verifier::ext_equal]
pub struct FreeSiteV {
    pub ty: Seq<char>,
    pub calls: Seq<char>,
}

impl View for FreeSite {
    type V = FreeSiteV;

    open spec fn view(&self) -> FreeSiteV {
        FreeSiteV { ty: self.ty@, calls: self.calls@ }
    }
}

/// The contents of records.
pub open spec fn sites(s: Seq<FreeSite>) -> Seq<FreeSiteV> {
    s.map_values(|x: FreeSite| x@)
}

/// Watched addresses, and where the objects at an address were freed.
#[derive(Debug)]
pub struct Watch {
    pub enabled: bool,
    pub ptrs: HashSet<usize>,
    pub freed: HashMap<usize, Vec<FreeSite>>,
}

impl Watch {
    /// What was recorded for an address.
    pub open spec fn history(&self, addr: usize) -> Option<Seq<FreeSiteV>> {
        if self.enabled && self.freed@.contains_key(addr) {
            Some(sites(self.freed@[addr]@))
        } else {
            None
        }
    }

    /// The address is watched.
    pub open spec fn watches(&self, p: usize) -> bool {
        self.enabled && self.ptrs@.contains(p)
    }
}

/// Watch an address.
pub fn watch_ptr(w: &mut Watch, p: usize)
    ensures
        final(w).enabled == old(w).enabled,
        final(w).freed == old(w).freed,
        final(w).ptrs@ == (if old(w).enabled {
            old(w).ptrs@.insert(p)
        } else {
            old(w).ptrs@
        }),
{
    if w.enabled {
        w.ptrs.insert(p);
    }
}

/// Whether an address is watched.
pub fn is_watched(w: &Watch, p: usize) -> (r: bool)
    ensures
        r == w.watches(p),
{
    w.enabled && w.ptrs.contains(&p)
}

/// Watch an address no longer.
pub fn unwatch_ptr(w: &mut Watch, p: usize)
    ensures
        final(w).enabled == old(w).enabled,
        final(w).freed == old(w).freed,
        final(w).ptrs@ == (if old(w).enabled {
            old(w).ptrs@.remove(p)
        } else {
            old(w).ptrs@
        }),
{
    if w.enabled {
        w.ptrs.remove(&p);
    }
}

fn copy_sites(v: &Vec<FreeSite>) -> (r: Vec<FreeSite>)
    ensures
        sites(r@) == sites(v@),
{
    let mut out: Vec<FreeSite> = Vec::new();
    let mut i: usize = 0;
    while i < v.len()
        invariant
            i <= v@.len(),
            sites(out@) == sites(v@).subrange(0, i as int),
        decreases v.len() - i,
    {
        let ty: Vec<char> = slice_of(v[i].ty.as_slice(), 0, v[i].ty.len());
        let calls: Vec<char> = slice_of(v[i].calls.as_slice(), 0, v[i].calls.len());
        assert(ty@ =~= v@[i as int].ty@);
        assert(calls@ =~= v@[i as int].calls@);
        let ghost before = sites(out@);
        let site = FreeSite { ty, calls };
        assert(site@ == sites(v@)[i as int]);
        out.push(site);
        assert(sites(out@) =~= before.push(site@));
        i = i + 1;
        assert(sites(out@) =~= sites(v@).subrange(0, i as int));
    }
    assert(sites(out@) =~= sites(v@));
    out
}

/// Where the objects at an address were freed; `None` where nothing was recorded.
pub fn lookup_free_bt(w: &Watch, addr: usize) -> (r: Option<Vec<FreeSite>>)
    ensures
        match r {
            Some(v) => w.history(addr) == Some(sites(v@)),
            None => w.history(addr) is None,
        },
{
    if !w.enabled {
        return None;
    }
    match w.freed.get(&addr) {
        Some(v) => Some(copy_sites(v)),
        None => None,
    }
}

/// A text occurs in another.
pub open spec fn mentioned(line: Seq<char>, name: Seq<char>) -> bool {
    search::find_from(line, name, 0) is Some
}

/// The names of calls that a record keeps.
pub open spec fn call_matters(line: Seq<char>) -> bool {
    ||| mentioned(line, "free_mirror"@)
    ||| mentioned(line, "free_box"@)
    ||| mentioned(line, "DecRef"@)
    ||| mentioned(line, "Dealloc"@)
    ||| mentioned(line, "install_new"@)
    ||| mentioned(line, "VectorcallMethod"@)
    ||| mentioned(line, "reap"@)
    ||| mentioned(line, "tp_clear"@)
    ||| mentioned(line, "GC_"@)
    ||| mentioned(line, "clear"@)
}

fn mentions(line: &Vec<char>, name: &str) -> (r: bool)
    ensures
        r == mentioned(line@, name@),
{
    find(line.as_slice(), text(name).as_slice(), 0).is_some()
}

/// Whether a record keeps a line of a trace.
pub fn call_is_kept(line: &Vec<char>) -> (r: bool)
    ensures
        r == call_matters(line@),
{
    mentions(line, "free_mirror") || mentions(line, "free_box") || mentions(line, "DecRef")
        || mentions(line, "Dealloc") || mentions(line, "install_new") || mentions(
        line,
        "VectorcallMethod",
    ) || mentions(line, "reap") || mentions(line, "tp_clear") || mentions(line, "GC_")
        || mentions(line, "clear")
}

/// At most so many lines of a trace are kept.
pub const KEPT_CALLS: usize = 8;

/// The lines of a trace that a record keeps: the first eight that matter.
pub open spec fn kept_calls(lines: Seq<Seq<char>>) -> Seq<Seq<char>>
    decreases lines.len(),
{
    if lines.len() == 0 {
        Seq::empty()
    } else {
        let front = kept_calls(lines.drop_last());
        if front.len() < KEPT_CALLS && call_matters(lines.last()) {
            front.push(lines.last())
        } else {
            front
        }
    }
}

fn short_trace(lines: &Vec<Vec<char>>) -> (r: Vec<char>)
    ensures
        r@ == search::join_spec(" | "@, kept_calls(search::texts(lines@))),
{
    let mut kept: Vec<Vec<char>> = Vec::new();
    let mut i: usize = 0;
    let ghost all = search::texts(lines@);
    assert(all.subrange(0, 0) =~= Seq::<Seq<char>>::empty());
    assert(search::texts(kept@) =~= Seq::<Seq<char>>::empty());
    while i < lines.len()
        invariant
            i <= lines@.len(),
            all == search::texts(lines@),
            search::texts(kept@) == kept_calls(all.subrange(0, i as int)),
        decreases lines.len() - i,
    {
        assert(all.subrange(0, i + 1).drop_last() =~= all.subrange(0, i as int));
        assert(all.subrange(0, i + 1).last() == lines@[i as int]@);
        assert(search::texts(kept@).len() == kept@.len());
        if kept.len() < KEPT_CALLS && call_is_kept(&lines[i]) {
            let line: Vec<char> = slice_of(lines[i].as_slice(), 0, lines[i].len());
            assert(line@ =~= lines@[i as int]@);
            push_piece(&mut kept, line);
        }
        i = i + 1;
    }
    assert(all.subrange(0, all.len() as int) =~= all);
    join(text(" | ").as_slice(), &kept)
}

/// The record of an object's end.
pub open spec fn record_for(ty: Seq<char>, lines: Seq<Seq<char>>) -> FreeSiteV {
    FreeSiteV { ty, calls: search::join_spec(" | "@, kept_calls(lines)) }
}

/// Record where a list or a tuple is freed: its type and the short trace. Other
/// objects are not recorded.
pub fn record_mirror_free(
    w: &mut Watch,
    h: &Heap,
    p: usize,
    ty: Vec<char>,
    lines: &Vec<Vec<char>>,
)
    ensures
        final(w).enabled == old(w).enabled,
        final(w).ptrs == old(w).ptrs,
        ({
            let recorded = old(w).enabled && (mirror::tuple_at(h@, p) || mirror::list_at(h@, p));
            let before = old(w).history(p);
            forall|q: usize| #[trigger]
                final(w).history(q) == if recorded && q == p {
                    Some(
                        (if before is Some {
                            before->0
                        } else {
                            Seq::empty()
                        }).push(record_for(ty@, search::texts(lines@))),
                    )
                } else {
                    old(w).history(q)
                }
        }),
{
    if !w.enabled {
        return;
    }
    if !is_faithful_tuple(h, p) && !is_faithful_list(h, p) {
        return;
    }
    let calls: Vec<char> = short_trace(lines);
    let ghost w0 = *w;
    let mut now: Vec<FreeSite> = match w.freed.remove(&p) {
        Some(v) => v,
        None => Vec::new(),
    };
    let ghost old_sites = sites(now@);
    now.push(FreeSite { ty, calls });
    assert(sites(now@) =~= old_sites.push(record_for(ty@, search::texts(lines@))));
    proof {
        if !w0.freed@.contains_key(p) {
            assert(old_sites =~= Seq::<FreeSiteV>::empty());
        }
    }
    w.freed.insert(p, now);
}

// ---------------------------------------------------------------------------
// Bodies whose address is used again
// ---------------------------------------------------------------------------

/// The type is one that traces of bodies are about.
pub open spec fn interesting(tn: Seq<char>) -> bool {
    ||| mentioned(tn, "Engine"@)
    ||| mentioned(tn, "ndarray"@)
    ||| mentioned(tn, "Index"@)
    ||| mentioned(tn, "BlockManager"@)
    ||| mentioned(tn, "Block"@)
    ||| mentioned(tn, "internals"@)
}

/// Whether a type is one that traces of bodies are about.
pub fn body_trace_interesting(tn: &Vec<char>) -> (r: bool)
    ensures
        r == interesting(tn@),
{
    mentions(tn, "Engine") || mentions(tn, "ndarray") || mentions(tn, "Index") || mentions(
        tn,
        "BlockManager",
    ) || mentions(tn, "Block") || mentions(tn, "internals")
}

/// The type that was last freed at each address of a body.
#[derive(Debug)]
pub struct BodyTrace {
    pub enabled: bool,
    pub freed: HashMap<usize, Vec<char>>,
}

impl BodyTrace {
    /// The type that was last freed at an address.
    pub open spec fn last(&self, addr: usize) -> Option<Seq<char>> {
        if self.freed@.contains_key(addr) {
            Some(self.freed@[addr]@)
        } else {
            None
        }
    }
}

/// Record the type of a body that is freed.
pub fn note_body_freed(t: &mut BodyTrace, addr: usize, ty: Vec<char>)
    ensures
        final(t).enabled == old(t).enabled,
        forall|q: usize| #[trigger]
            final(t).last(q) == if old(t).enabled && q == addr {
                Some(ty@)
            } else {
                old(t).last(q)
            },
{
    if !t.enabled {
        return;
    }
    t.freed.insert(addr, ty);
}

/// A body is made at an address: the record of the body that was freed there is
/// taken out. It is reported where either type is one that traces are about.
pub fn check_body_reuse(t: &mut BodyTrace, addr: usize, new_ty: &Vec<char>) -> (r: Option<Vec<char>>)
    ensures
        final(t).enabled == old(t).enabled,
        forall|q: usize| #[trigger]
            final(t).last(q) == if old(t).enabled && q == addr {
                None
            } else {
                old(t).last(q)
            },
        match old(t).last(addr) {
            Some(was) => if old(t).enabled && (interesting(was) || interesting(new_ty@)) {
                r is Some && r->0@ == was
            } else {
                r is None
            },
            None => r is None,
        },
{
    if !t.enabled {
        return None;
    }
    match t.freed.remove(&addr) {
        Some(was) => {
            if body_trace_interesting(&was) || body_trace_interesting(new_ty) {
                Some(was)
            } else {
                None
            }
        },
        None => None,
    }
}

/// A line mentions exactly the names that occur in it.
pub proof fn law_mentioned(front: Seq<char>, name: Seq<char>, back: Seq<char>, line: Seq<char>)
    ensures
        mentioned(front + name + back, name),
        mentioned(line, name) ==> exists|i: int|
            0 <= i && i + name.len() <= line.len() && #[trigger] line.subrange(i, i + name.len())
                == name,
{
    let all = front + name + back;
    let i = front.len() as int;
    assert(all.subrange(i, i + name.len()) =~= name);
    assert(search::occurs_at(all, name, i));
    search::law_find_is_least(all, name, 0);
    search::law_find_is_least(line, name, 0);
}

/// The names of the calls in which objects end.
pub open spec fn ends_objects(name: Seq<char>) -> bool {
    name == "free_mirror"@ || name == "free_box"@ || name == "DecRef"@ || name == "Dealloc"@
        || name == "install_new"@ || name == "VectorcallMethod"@ || name == "reap"@ || name
        == "tp_clear"@ || name == "GC_"@ || name == "clear"@
}

/// The names of the types whose bodies are watched.
pub open spec fn watched_name(name: Seq<char>) -> bool {
    name == "Engine"@ || name == "ndarray"@ || name == "Index"@ || name == "BlockManager"@ || name
        == "Block"@ || name == "internals"@
}

/// A call matters exactly where it mentions one of the calls in which objects end. A
/// type is of interest exactly where its name mentions one that is watched.
pub proof fn law_calls_that_matter(line: Seq<char>)
    ensures
        call_matters(line) <==> exists|name: Seq<char>|
            ends_objects(name) && #[trigger] mentioned(line, name),
        interesting(line) <==> exists|name: Seq<char>|
            watched_name(name) && #[trigger] mentioned(line, name),
{
    if call_matters(line) {
        assert(exists|name: Seq<char>| ends_objects(name) && #[trigger] mentioned(line, name));
    }
    if interesting(line) {
        assert(exists|name: Seq<char>| watched_name(name) && #[trigger] mentioned(line, name));
    }
}

/// The calls that are kept are the first eight that matter, in their order.
pub proof fn law_kept_calls(lines: Seq<Seq<char>>, line: Seq<char>)
    ensures
        kept_calls(lines).len() <= 8,
        forall|i: int|
            0 <= i < kept_calls(lines).len() ==> call_matters(#[trigger] kept_calls(lines)[i]),
        kept_calls(lines).len() < 8 && call_matters(line) ==> kept_calls(lines.push(line))
            == kept_calls(lines).push(line),
        kept_calls(lines).len() == 8 || !call_matters(line) ==> kept_calls(lines.push(line))
            == kept_calls(lines),
    decreases lines.len(),
{
    assert(lines.push(line).drop_last() =~= lines);
    if lines.len() > 0 {
        law_kept_calls(lines.drop_last(), line);
        let front = kept_calls(lines.drop_last());
        assert forall|i: int| 0 <= i < kept_calls(lines).len() implies call_matters(
            #[trigger] kept_calls(lines)[i],
        ) by {
            if i < front.len() {
                assert(kept_calls(lines)[i] == front[i]);
            }
        }
    }
}

} // verus!
