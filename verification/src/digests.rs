//! What the digests of a list tell apart: a list that was changed in one place never
//! has the digest that it had before.

use vstd::prelude::*;
use vstd::arithmetic::div_mod::{lemma_mod_multiples_vanish, lemma_mul_mod_noop_left, lemma_small_mod};
use crate::mirror;
use crate::value::{NatV, ObjV};

verus! {

/// Multiplying by the prime of the digests can be undone.
proof fn lemma_undo(a: u64)
    ensures
        (a.wrapping_mul(mirror::DIGEST_PRIME) as int * 0xce96_5057_aff6_957b) % 0x1_0000_0000_0000_0000
            == a as int,
{
    let m: int = 0x1_0000_0000_0000_0000;
    let p: int = 0x0000_0100_0000_01b3;
    let q: int = 0xce96_5057_aff6_957b;
    let x = a as int;
    assert(a.wrapping_mul(mirror::DIGEST_PRIME) as int == (x * p) % m);
    lemma_mul_mod_noop_left(x * p, q, m);
    assert(p * q == 1 + (p * q / m) * m);
    let j = p * q / m;
    assert((x * p) * q == x + (x * j) * m) by (nonlinear_arith)
        requires
            p * q == 1 + j * m,
    ;
    lemma_mod_multiples_vanish(x * j, x, m);
    assert(m * (x * j) + x == x + (x * j) * m) by (nonlinear_arith);
    lemma_small_mod(a as nat, 0x1_0000_0000_0000_0000nat);
}

proof fn lemma_product(a: u64, b: u64)
    requires
        a.wrapping_mul(mirror::DIGEST_PRIME) == b.wrapping_mul(mirror::DIGEST_PRIME),
    ensures
        a == b,
{
    lemma_undo(a);
    lemma_undo(b);
}

proof fn lemma_spread(x: u64, y: u64)
    requires
        x ^ (x >> 29) == y ^ (y >> 29),
    ensures
        x == y,
{
    assert(x ^ (x >> 29) == y ^ (y >> 29) ==> x == y) by (bit_vector);
}

proof fn lemma_other_operand(h: u64, a: u64, b: u64)
    requires
        h ^ a == h ^ b || a ^ h == b ^ h,
    ensures
        a == b,
{
    assert(h ^ a == h ^ b || a ^ h == b ^ h ==> a == b) by (bit_vector);
}

proof fn lemma_folded(g: u64, h: u64, a: u64, b: u64)
    requires
        mirror::folded(g, a) == mirror::folded(h, b),
        g == h || a == b,
    ensures
        g == h && a == b,
{
    let x = (g ^ a).wrapping_mul(mirror::DIGEST_PRIME);
    let y = (h ^ b).wrapping_mul(mirror::DIGEST_PRIME);
    lemma_spread(x, y);
    lemma_product(g ^ a, h ^ b);
    if g == h {
        lemma_other_operand(g, a, b);
    } else {
        lemma_other_operand(a, g, h);
    }
}

/// A list whose slots differ in one place from what they were has another digest.
pub proof fn law_changed_slot_is_noticed(s: Seq<usize>, i: int, p: usize)
    requires
        0 <= i < s.len(),
        s[i] != p,
    ensures
        mirror::ptrs_hash(s.update(i, p)) != mirror::ptrs_hash(s),
    decreases s.len(),
{
    let t = s.update(i, p);
    if i == s.len() - 1 {
        assert(t.drop_last() =~= s.drop_last());
        if mirror::ptrs_hash(t) == mirror::ptrs_hash(s) {
            let g = mirror::ptrs_hash(s.drop_last());
            lemma_folded(g, g, t.last() as u64, s.last() as u64);
        }
    } else {
        assert(t.drop_last() =~= s.drop_last().update(i, p));
        assert(t.last() == s.last());
        law_changed_slot_is_noticed(s.drop_last(), i, p);
        if mirror::ptrs_hash(t) == mirror::ptrs_hash(s) {
            lemma_folded(
                mirror::ptrs_hash(t.drop_last()),
                mirror::ptrs_hash(s.drop_last()),
                s.last() as u64,
                s.last() as u64,
            );
        }
    }
}

/// A list of the VM whose objects differ in one place from what they were has another
/// digest, where the fingerprints of the two objects differ.
pub proof fn law_changed_object_is_noticed(s: Seq<NatV>, i: int, n: NatV)
    requires
        0 <= i < s.len(),
        mirror::print_of(s[i]) != mirror::print_of(n),
    ensures
        mirror::objs_hash(s.update(i, n)) != mirror::objs_hash(s),
    decreases s.len(),
{
    let t = s.update(i, n);
    if i == s.len() - 1 {
        assert(t.drop_last() =~= s.drop_last());
        if mirror::objs_hash(t) == mirror::objs_hash(s) {
            let g = mirror::objs_hash(s.drop_last());
            lemma_folded(g, g, mirror::print_of(t.last()), mirror::print_of(s.last()));
        }
    } else {
        assert(t.drop_last() =~= s.drop_last().update(i, n));
        assert(t.last() == s.last());
        law_changed_object_is_noticed(s.drop_last(), i, n);
        if mirror::objs_hash(t) == mirror::objs_hash(s) {
            let v = mirror::print_of(s.last());
            lemma_folded(
                mirror::objs_hash(t.drop_last()),
                mirror::objs_hash(s.drop_last()),
                v,
                v,
            );
        }
    }
}

proof fn lemma_mixed_from(g: u64, h: u64, payload: u64, k: nat)
    requires
        mirror::mixed_bytes(g, payload, k) == mirror::mixed_bytes(h, payload, k),
    ensures
        g == h,
    decreases k,
{
    if k > 0 {
        let c = payload % 256;
        lemma_mixed_from(
            (g ^ c).wrapping_mul(mirror::DIGEST_PRIME),
            (h ^ c).wrapping_mul(mirror::DIGEST_PRIME),
            payload / 256,
            (k - 1) as nat,
        );
        lemma_product(g ^ c, h ^ c);
        lemma_other_operand(c, g, h);
    }
}

/// Fingerprints tell kinds of objects apart, and objects of one kind whose numbers
/// differ in the low byte alone.
pub proof fn law_fingerprint(tag: u8, other: u8, a: u64, b: u64)
    ensures
        tag != other ==> mirror::mixed(tag, a) != mirror::mixed(other, a),
        a != b && a / 256 == b / 256 ==> mirror::mixed(tag, a) != mirror::mixed(tag, b),
{
    let seed = mirror::DIGEST_SEED;
    let g = (seed ^ (tag as u64)).wrapping_mul(mirror::DIGEST_PRIME);
    let h = (seed ^ (other as u64)).wrapping_mul(mirror::DIGEST_PRIME);
    if mirror::mixed(tag, a) == mirror::mixed(other, a) {
        lemma_mixed_from(g, h, a, 8);
        lemma_product(seed ^ (tag as u64), seed ^ (other as u64));
        lemma_other_operand(seed, tag as u64, other as u64);
    }
    if a / 256 == b / 256 && mirror::mixed(tag, a) == mirror::mixed(tag, b) {
        let x = a % 256;
        let y = b % 256;
        lemma_mixed_from(
            (g ^ x).wrapping_mul(mirror::DIGEST_PRIME),
            (g ^ y).wrapping_mul(mirror::DIGEST_PRIME),
            a / 256,
            7,
        );
        lemma_product(g ^ x, g ^ y);
        lemma_other_operand(g, x, y);
    }
}

/// An integer in a list is not taken for another one near it, nor for a truth value,
/// a float of the same bits or `None`.
pub proof fn law_values_in_a_list(id: usize, other: usize, i: i64, j: i64, b: bool)
    requires
        0 <= i,
        0 <= j,
    ensures
        ({
            let n = NatV { id, val: ObjV::Int(i) };
            &&& i != j && i / 256 == j / 256 ==> mirror::print_of(n) != mirror::print_of(
                NatV { id: other, val: ObjV::Int(j) },
            )
            &&& mirror::print_of(n) == mirror::print_of(NatV { id: other, val: ObjV::Int(i) })
            &&& mirror::print_of(n) != mirror::print_of(
                NatV { id: other, val: ObjV::Float(i as u64) },
            )
            &&& i == 0 ==> mirror::print_of(n) != mirror::print_of(
                NatV { id: other, val: ObjV::PyNone },
            )
            &&& i == (if b {
                1int
            } else {
                0
            }) ==> mirror::print_of(n) != mirror::print_of(
                NatV { id: other, val: ObjV::Bool(b) },
            )
        }),
{
    law_fingerprint(3, 3, i as u64, j as u64);
    law_fingerprint(3, 4, i as u64, i as u64);
    law_fingerprint(3, 0, i as u64, i as u64);
    law_fingerprint(3, 2, i as u64, i as u64);
}

} // verus!
