//! Particulars: what smaller decisions hand on.

use vstd::prelude::*;
use crate::bignum;
use crate::bodies;
use crate::crossing;
use crate::descriptors;
use crate::floats;
use crate::floats::Attr;
use crate::heap;
use crate::heap::HeapV;
use crate::imports;
use crate::layout;
use crate::mirror;
use crate::modsupport_ext;
use crate::module;
use crate::module::{ModuleValue, ModuleValueView};
use crate::numbers;
use crate::object;
use crate::offsets;
use crate::outward;
use crate::pystate;
use crate::pystate::TStateStore;
use crate::pythonrun;
use crate::pythonrun::PyCompilerFlags;
use crate::reading;
use crate::slice;
use crate::strings;
use crate::text;
use crate::unicode;
use crate::value;
use crate::value::{NatV, ObjV, Object};

verus! {

/// Each kind of object has its own kind of body. Two numbers share one where both are
/// integers, two texts where either has surrogates, two sets where either is frozen.
pub proof fn law_kind_of_body(o: ObjV)
    ensures
        layout::kind_of(o) is Float <==> o is Float,
        layout::kind_of(o) is Complex <==> o is Complex,
        layout::kind_of(o) is Long <==> o is Int || o is Long,
        layout::kind_of(o) is Bytes <==> o is Bytes,
        layout::kind_of(o) is ByteArray <==> o is ByteArray,
        layout::kind_of(o) is Str <==> o is Str || o is WStr,
        layout::kind_of(o) is Tuple <==> o is Tuple,
        layout::kind_of(o) is List <==> o is List,
        layout::kind_of(o) is CFunction <==> o is Builtin,
        layout::kind_of(o) is Method <==> o is BoundMethod,
        layout::kind_of(o) is Dict <==> o is Dict,
        layout::kind_of(o) is PySet <==> o is PySet || o is FrozenSet,
        layout::kind_of(o) is Slice <==> o is Slice,
        layout::kind_of(o) is MemoryView <==> o is MemoryView,
{
}

/// The object of a getter gives back the getter, and its documentation can be read from
/// it where the getter has one.
pub proof fn law_getter_is_read_back(h: HeapV, n: NatV, m: value::PropV)
    requires
        descriptors::can_describe(h, m),
        n.val is Property,
    ensures
        ({
            let (g, p) = descriptors::described(h, n, m);
            &&& descriptors::payload_at(g, p) == Some(n)
            &&& descriptors::live_doc(g, n) is Some <==> descriptors::c_doc(m.doc) is Some
        }),
{
    reveal(descriptors::described);
    let (g, p) = descriptors::described(h, n, m);
    let t = g.mem[p].tail;
    let (h1, at) = heap::allocated(h, descriptors::GETSET_SIZE as nat);
    let (h2, aux) = heap::allocated(h1, descriptors::getset_aux(m.name, m.doc).len());
    let (h3, id) = heap::new_cell(h2);
    let d_name = crossing::leaf(
        h3,
        NatV { id, val: ObjV::Str(m.name) },
        h.facts.types.unicode_type,
    ).1;
    let place = crossing::Place { at, aux };
    offsets::law_getter_body(place, m.d_type, d_name, m.name, m.doc);
    offsets::law_low_byte_first(t, 72, 7);
    assert(t == descriptors::getset_tail(place, m.d_type, d_name, m.name, m.doc));
    vstd::arithmetic::power2::lemma2_to64_rest();
    bignum::lemma_le_bound(t.subrange(56, 64));
    assert(mirror::word_at(t, 72) == offsets::stored(t, 72, 8));
    assert(descriptors::c_text(m.name).len() > 0);
}

/// The state of a thread is wired up once: what is found again later is what was left.
pub proof fn law_state_is_wired_once(
    before: TStateStore,
    first: TStateStore,
    second: TStateStore,
    i: usize,
    j: usize,
)
    requires
        pystate::touched(before, first, i),
        pystate::touched(first, second, j),
    ensures
        second.body@ == first.body@,
        before.initialized ==> first.body@ == before.body@,
        second.body_addr == before.body_addr,
        second.exc_info_addr == before.exc_info_addr,
{
}

/// The number slot of an extension type gives the double of what it returned; the slot of
/// no other type is asked.
pub proof fn law_number_slot<'a>(o: &'a Object)
    ensures
        floats::slot_number(true, Attr::Gave(o)) == floats::real_of(o),
        floats::slot_number(false, Attr::Gave(o)) is None,
        floats::slot_number(true, Attr::Missing) is None,
        floats::slot_number(true, Attr::Raised) is None,
        floats::there(Attr::Gave(o)),
        floats::there(Attr::Raised),
        !floats::there(Attr::Missing),
{
}

/// Source text is compiled under its file's name, or a default one, and with its flags, or
/// none.
pub proof fn law_source_names(name: &[char], default: Seq<char>, f: PyCompilerFlags)
    ensures
        pythonrun::name_or(Some(name), default) == name@,
        pythonrun::name_or(None, default) == default,
        pythonrun::flag_word(Some(f)) == f.cf_flags,
        pythonrun::flag_word(None) == 0,
        pythonrun::null_string(default) == default + ": NULL string"@,
{
}

/// A bound of a slice that is NULL is `None`; any other bound is the object that it points
/// to.
pub proof fn law_slice_bounds(h: HeapV, p: usize)
    ensures
        slice::bound_at(h, 0).0 == h,
        slice::bound_at(h, 0).1.val is PyNone,
        p != 0 ==> slice::bound_at(h, p).1 == reading::object_at(h, p).1,
{
}

/// A new module is told its own name.
pub proof fn law_module_name(name: Seq<char>)
    ensures
        imports::name_entry(name).0 == "__name__"@,
        imports::name_entry(name).1 == ModuleValueView::Text(name),
{
}

/// Names and values keep their order and stay together.
pub proof fn law_pairs_stay_together(
    kw: Seq<(Vec<char>, usize)>,
    v: Seq<(Vec<char>, ModuleValue)>,
    i: int,
)
    ensures
        modsupport_ext::kw_names(kw).len() == kw.len(),
        modsupport_ext::named(kw).len() == kw.len(),
        module::insertions(v).len() == v.len(),
        0 <= i < kw.len() ==> modsupport_ext::kw_names(kw)[i] == kw[i].0@,
        0 <= i < kw.len() ==> modsupport_ext::named(kw)[i] == (kw[i].0@, kw[i].1),
        0 <= i < v.len() ==> module::insertions(v)[i] == (v[i].0@, v[i].1@),
{
}

/// A text that is no integer is shown in the message, with the base that it was read in;
/// without a base that is ten.
pub proof fn law_invalid_literal(b: Seq<u8>, base: i32)
    requires
        base != 0,
    ensures
        numbers::invalid_literal(b, base) == "invalid literal for int() with base "@ + text::dec(
            base as int,
        ) + ": '"@ + numbers::trimmed(strings::decoded(b)) + "'"@,
        numbers::invalid_literal(b, 0) == numbers::invalid_literal(b, 10),
        vstd::utf8::valid_utf8(b) ==> numbers::utf8_or_empty(b) == b,
        !vstd::utf8::valid_utf8(b) ==> numbers::utf8_or_empty(b).len() == 0,
{
}

/// A number of characters below zero counts as none.
pub proof fn law_number_of_characters(n: isize)
    ensures
        n >= 0 ==> unicode::at_least_zero(n) == n,
        n < 0 ==> unicode::at_least_zero(n) == 0,
{
}

/// Parked boxes of an object are counted once each.
pub proof fn law_parked_boxes(h: HeapV, s: Seq<usize>, p: usize, n: NatV)
    ensures
        object::parked_in(h, Seq::empty(), n) == 0,
        object::parked_clone(h, p, n) ==> object::parked_in(h, s.push(p), n) == object::parked_in(
            h,
            s,
            n,
        ) + 1,
        !object::parked_clone(h, p, n) ==> object::parked_in(h, s.push(p), n)
            == object::parked_in(h, s, n),
        !h.mem.contains_key(p) ==> !object::parked_clone(h, p, n),
        h.mem.contains_key(p) && h.mem[p].obj.id != n.id ==> !object::parked_clone(h, p, n),
{
    assert(s.push(p).drop_last() =~= s);
}

/// What is not an instance crosses as it does when its object is remembered.
pub proof fn law_uncached_crossing(h: HeapV, n: NatV, ty: usize)
    requires
        !(n.val is Instance),
    ensures
        object::uncached_out(h, n, ty) == object::typed_out(h, n, ty),
{
}

/// Memory that is handed out lies behind all that was handed out before, and the next
/// piece behind it.
pub proof fn law_fresh_memory(h: HeapV, size: nat)
    requires
        heap::has_room(h, size),
    ensures
        heap::allocated(h, size).1 == h.next,
        heap::allocated(h, size).0.next > h.next + size,
        heap::allocated(h, size).0 == (HeapV { next: heap::allocated(h, size).0.next, ..h }),
        heap::new_cell(h).1 == h.next_id,
        h.next_id < usize::MAX ==> heap::new_cell(h).0.next_id == h.next_id + 1,
{
    let k = heap::STRIDE as nat;
    assert((size / k + 1) * k > size) by (nonlinear_arith)
        requires
            k > 0,
    ;
}

/// A character can be written exactly into a text under construction, at an index that it
/// has, and where its form has room for the character.
pub proof fn law_what_can_be_written(h: HeapV, o: usize, i: nat, ch: u32)
    ensures
        unicode::write_refusal(h, o, i, ch) is None <==> unicode::writable(h, o) && i
            < layout::text_len(h.mem[o].tail) && ch <= unicode::limit_at(h.mem[o]),
{
}

/// Characters are copied where the target is under construction and has the indices, the
/// source is a text and has the characters, and each of them fits.
pub proof fn law_what_can_be_copied(
    h: HeapV,
    to: usize,
    to_start: nat,
    from: usize,
    from_start: nat,
    n: nat,
)
    requires
        unicode::writable(h, to),
        to_start + n <= layout::text_len(h.mem[to].tail),
        unicode::text_behind(h, from).0 == h,
        unicode::text_behind(h, from).1 matches Some(s) && from_start + n <= s.len() && forall|
            k: int,
        |
            from_start <= k < from_start + n ==> (#[trigger] s[k] as u32) <= unicode::limit_at(
                h.mem[to],
            ),
    ensures
        unicode::copied_chars(h, to, to_start, from, from_start, n).1 == Ok::<nat, Seq<char>>(n),
{
    let s = unicode::text_behind(h, from).1->Some_0;
    let cs = layout::cps_of(s).subrange(from_start as int, (from_start + n) as int);
    let limit = unicode::limit_at(h.mem[to]);
    unicode::law_fitting(cs, limit);
    let k = unicode::fitting(cs, limit);
    if k < n {
        assert(cs[k as int] == s[(from_start + k) as int] as u32);
    }
}

/// A text is made where there is room for it, and nothing is where there is none.
pub proof fn law_text_is_made(h: HeapV, len: nat, maxchar: u32)
    ensures
        unicode::can_make(h, len, maxchar) ==> unicode::made(h, len, maxchar).1 == h.next,
        !unicode::can_make(h, len, maxchar) ==> unicode::made(h, len, maxchar) == (h, 0usize),
        unicode::can_make(h, len, maxchar) ==> heap::has_room(
            h,
            (if maxchar < 0x80 {
                41 + len
            } else if maxchar < 0x100 {
                57 + len
            } else if maxchar < 0x1_0000 {
                58 + 2 * len
            } else {
                60 + 4 * len
            }) as nat,
        ),
{
    let f = layout::form_of(maxchar);
    let w = f.width as int;
    let a = f.data_off + (len + 1) * w;
    layout::law_rounding(a, 8);
    let need = (if maxchar < 0x80 {
        41 + len
    } else if maxchar < 0x100 {
        57 + len
    } else if maxchar < 0x1_0000 {
        58 + 2 * len
    } else {
        60 + 4 * len
    }) as nat;
    let m = (len + 1) as int;
    assert((w == 1 ==> m * w == m) && (w == 2 ==> m * w == 2 * m) && (w == 4 ==> m * w == 4 * m))
        by (nonlinear_arith);
    assert(need == a);
    let k = heap::STRIDE as nat;
    let size = layout::text_size(len, f) as nat;
    assert(size >= need);
    assert(need / k <= size / k) by (nonlinear_arith)
        requires
            need <= size,
            k > 0,
    ;
    assert((need / k + 1) * k <= (size / k + 1) * k) by (nonlinear_arith)
        requires
            need / k <= size / k,
            k > 0,
    ;
}

/// A body and a box are made where there is room for them.
pub proof fn law_bodies_are_made(h: HeapV, ty: usize, want: nat, n: NatV, refcnt: i64)
    ensures
        16 <= want <= isize::MAX && heap::has_room(h, want) ==> bodies::body_made(
            h,
            ty,
            want,
            n,
        ).1 == h.next,
        heap::has_room(h, 80) ==> crossing::boxed(h, n, ty, refcnt).1 == h.next,
        heap::has_room(h, 80) && !h.modules.contains_key(n.id) ==> crossing::module_box(h, n).1
            == h.next,
        heap::has_room(h, 80) && !h.properties.contains_key(n.id) ==> crossing::property_box(
            h,
            n,
        ).1 == h.next,
        n.val matches ObjV::Instance(i) ==> (heap::has_room(h, 80) && i.body == 0
            && !h.facts.inline_types@.contains(ty) && !h.c_body.contains_key(n.id)
            ==> outward::instance_out(h, n, ty, i).1 == h.next),
{
    reveal(crossing::module_box);
    reveal(crossing::property_box);
}

/// A text is resized where it is one and where there is room for the new one.
pub proof fn law_text_is_resized(h: HeapV, p: usize, n: nat)
    ensures
        ({
            let (h1, source) = unicode::text_behind(h, p);
            let limit = match unicode::limit_of(h1, p) {
                Some(l) => l,
                None => layout::max_cp(layout::cps_of(source->Some_0)),
            };
            &&& source is None ==> unicode::resized(h, p, n) == (h1, 0usize)
            &&& source is Some && unicode::can_make(h1, n, limit) ==> unicode::resized(
                h,
                p,
                n,
            ).1 == h1.next
        }),
{
}

/// The address is none of the objects that exist once.
pub open spec fn no_single(h: HeapV, p: usize) -> bool {
    let s = h.facts.singles;
    p != 0 && p != s.none.addr && p != s.tru.addr && p != s.fals.addr && p
        != s.not_implemented.addr && p != s.ellipsis.addr
}

/// What an address stands for: NULL for `None`, a class for its type, a getter for itself,
/// an object of an extension for itself, a code object for its code and a capsule for
/// itself. To ask changes nothing.
pub proof fn law_what_an_address_stands_for(h: HeapV, p: usize)
    ensures
        reading::object_at(h, 0).0 == h,
        reading::object_at(h, 0).1.val is PyNone,
        no_single(h, p) && h.facts.classes@.contains(p) ==> reading::object_at(h, p) == (
            h,
            NatV { id: p, val: ObjV::Type(p) },
        ),
        no_single(h, p) && !h.facts.classes@.contains(p) && h.getset_boxes.contains(p)
            && h.mem.contains_key(p) ==> reading::object_at(h, p) == (h, h.mem[p].obj),
        no_single(h, p) && !h.facts.classes@.contains(p) && !h.getset_boxes.contains(p)
            && !h.minted.contains(p) && !h.raw_longs.contains(p) ==> reading::object_at(h, p) == (
            h,
            if h.facts.codes@.contains_key(p) {
                NatV { id: h.facts.codes@[p], val: ObjV::Code(p) }
            } else {
                NatV { id: p, val: ObjV::Foreign(p) }
            },
        ),
        no_single(h, p) && !h.facts.classes@.contains(p) && !h.getset_boxes.contains(p)
            && h.minted.contains(p) && h.mem.contains_key(p) && h.facts.capsules@.contains(p)
            ==> reading::object_at(h, p) == (h, NatV { id: p, val: ObjV::Capsule(p) }),
        no_single(h, p) && !h.facts.classes@.contains(p) && !h.getset_boxes.contains(p)
            && h.minted.contains(p) && h.mem.contains_key(p) && !h.facts.capsules@.contains(p)
            && mirror::mirror_at(h, p) && h.mem[p].link is Dead && !h.facts.in_flight@.contains(p)
            ==> reading::object_at(h, p) == (h, NatV { id: p, val: ObjV::Foreign(p) }),
{
    reveal(reading::object_at);
}

/// What a bound of a slice is: its default for `None`, its value for an integer that fits,
/// and for any other object the value of the integer that its index method gave.
pub proof fn law_value_of_a_bound(o: Object, x: Object, default: isize)
    ensures
        slice::bound(Object::PyNone, Some(&x), default) == Some(default),
        slice::bound(Object::Bool(true), None, default) == Some(1isize),
        slice::bound(Object::Bool(false), None, default) == Some(0isize),
        o matches Object::Long(b) ==> (isize::MIN <= b.val() <= isize::MAX ==> (slice::bound(
            o,
            None,
            default,
        ) matches Some(v) && v == b.val())) && (b.val() > isize::MAX || b.val() < isize::MIN
            ==> slice::bound(o, None, default) is None),
        !(o is PyNone || o is Int || o is Bool || o is Long) ==> slice::bound(o, None, default)
            is None,
        !(o is PyNone || o is Int || o is Bool || o is Long) && (x is Int || x is Bool || x is Long)
            ==> slice::bound(o, Some(&x), default) == slice::bound(x, None, default),
{
}

} // verus!
