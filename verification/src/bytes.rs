//! Little-endian words inside byte blocks.

use vstd::prelude::*;
use vstd::arithmetic::power2::*;
use crate::bignum;
use crate::value;

verus! {

/// The `n` low little-endian base-256 digits of `v`.
pub open spec fn le_bytes(v: nat, n: nat) -> Seq<u8>
    decreases n,
{
    if n == 0 {
        Seq::empty()
    } else {
        seq![(v % 256) as u8] + le_bytes(v / 256, (n - 1) as nat)
    }
}

/// The block with `w` written over the bytes that start at `off`.
pub open spec fn put(b: Seq<u8>, off: int, w: Seq<u8>) -> Seq<u8> {
    Seq::new(
        b.len(),
        |i: int|
            if off <= i < off + w.len() {
                w[i - off]
            } else {
                b[i]
            },
    )
}

/// The word of `n` bytes at `off`.
pub open spec fn word(b: Seq<u8>, off: int, n: int) -> nat {
    value::le_value(b.subrange(off, off + n))
}

/// A block of zero bytes.
pub open spec fn zeros(n: nat) -> Seq<u8> {
    Seq::new(n, |i: int| 0u8)
}

/// There are as many digits as were asked for, and they denote the number.
pub proof fn lemma_le_bytes(v: nat, n: nat)
    ensures
        le_bytes(v, n).len() == n,
        v < pow2(8 * n) ==> value::le_value(le_bytes(v, n)) == v,
    decreases n,
{
    if n == 0 {
        lemma2_to64();
    } else {
        let rest = le_bytes(v / 256, (n - 1) as nat);
        lemma_le_bytes(v / 256, (n - 1) as nat);
        assert(le_bytes(v, n).drop_first() =~= rest);
        lemma_pow2_adds(8, (8 * (n - 1)) as nat);
        lemma2_to64();
        assert(8 + 8 * (n - 1) == 8 * n);
        if v < pow2(8 * n) {
            assert(v / 256 < pow2((8 * (n - 1)) as nat)) by (nonlinear_arith)
                requires
                    v < 256 * pow2((8 * (n - 1)) as nat),
            ;
        }
    }
}

/// A word reads back as it was written.
pub proof fn lemma_word_put(b: Seq<u8>, off: int, v: nat, n: nat)
    requires
        0 <= off,
        off + n <= b.len(),
        v < pow2(8 * n),
    ensures
        word(put(b, off, le_bytes(v, n)), off, n as int) == v,
{
    lemma_le_bytes(v, n);
    assert(put(b, off, le_bytes(v, n)).subrange(off, off + n) =~= le_bytes(v, n));
}

/// Writing leaves the words beside it alone.
pub proof fn lemma_word_beside(b: Seq<u8>, off: int, w: Seq<u8>, at: int, n: int)
    requires
        0 <= at,
        0 <= n,
        at + n <= b.len(),
        at + n <= off || off + w.len() <= at,
    ensures
        word(put(b, off, w), at, n) == word(b, at, n),
{
    assert(put(b, off, w).subrange(at, at + n) =~= b.subrange(at, at + n));
}

/// Writing next to what was just written extends it.
pub proof fn lemma_put_append(b: Seq<u8>, off: int, x: Seq<u8>, y: Seq<u8>)
    requires
        0 <= off,
        off + x.len() + y.len() <= b.len(),
    ensures
        put(put(b, off, x), off + x.len(), y) == put(b, off, x + y),
{
    assert(put(put(b, off, x), off + x.len(), y) =~= put(b, off, x + y));
}

/// Words of `w` bytes, one after another.
pub open spec fn flat(s: Seq<nat>, w: nat) -> Seq<u8>
    decreases s.len(),
{
    if s.len() == 0 {
        Seq::empty()
    } else {
        flat(s.drop_last(), w) + le_bytes(s.last(), w)
    }
}

/// The `n` words of `w` bytes that start at `off`.
pub open spec fn units(b: Seq<u8>, off: int, w: nat, n: nat) -> Seq<nat> {
    Seq::new(n, |i: int| word(b, off + i * w, w as int))
}

/// Words take their width each.
pub proof fn lemma_flat_len(s: Seq<nat>, w: nat)
    ensures
        flat(s, w).len() == s.len() * w,
    decreases s.len(),
{
    if s.len() == 0 {
        assert(0 * w == 0) by (nonlinear_arith);
    } else {
        lemma_flat_len(s.drop_last(), w);
        lemma_le_bytes(s.last(), w);
        assert((s.len() - 1) * w + w == s.len() * w) by (nonlinear_arith);
    }
}

/// One more word.
pub proof fn lemma_flat_push(s: Seq<nat>, x: nat, w: nat)
    ensures
        flat(s.push(x), w) == flat(s, w) + le_bytes(x, w),
{
    assert(s.push(x).drop_last() =~= s);
}

/// Each word stands in its place.
pub proof fn lemma_flat_word(s: Seq<nat>, w: nat, i: int)
    requires
        0 <= i < s.len(),
    ensures
        0 <= i * w,
        i * w + w <= flat(s, w).len(),
        flat(s, w).subrange(i * w, i * w + w) == le_bytes(s[i], w),
    decreases s.len(),
{
    lemma_flat_len(s, w);
    lemma_le_bytes(s[i], w);
    assert(0 <= i * w && i * w + w <= s.len() * w) by (nonlinear_arith)
        requires
            0 <= i < s.len(),
    ;
    let front = s.drop_last();
    lemma_flat_len(front, w);
    if i == s.len() - 1 {
        assert(flat(s, w).subrange(i * w, i * w + w) =~= le_bytes(s[i], w));
    } else {
        lemma_flat_word(front, w, i);
        assert(flat(s, w).subrange(i * w, i * w + w) =~= flat(front, w).subrange(
            i * w,
            i * w + w,
        ));
    }
}

/// Words that were written one after another read back as written.
pub proof fn lemma_units_put(b: Seq<u8>, off: int, s: Seq<nat>, w: nat)
    requires
        0 <= off,
        off + s.len() * w <= b.len(),
        forall|i: int| 0 <= i < s.len() ==> #[trigger] s[i] < pow2(8 * w),
    ensures
        units(put(b, off, flat(s, w)), off, w, s.len()) == s,
{
    let c = put(b, off, flat(s, w));
    lemma_flat_len(s, w);
    assert forall|i: int| 0 <= i < s.len() implies #[trigger] units(c, off, w, s.len())[i] == s[i] by {
        lemma_flat_word(s, w, i);
        lemma_le_bytes(s[i], w);
        assert(c.subrange(off + i * w, off + i * w + w) =~= le_bytes(s[i], w));
    }
    assert(units(c, off, w, s.len()) =~= s);
}

/// The words of addresses.
pub open spec fn nats(s: Seq<usize>) -> Seq<nat> {
    s.map_values(|x: usize| x as nat)
}

/// The words of code points or digits.
pub open spec fn nats32(s: Seq<u32>) -> Seq<nat> {
    s.map_values(|x: u32| x as nat)
}

/// Write the `n` low bytes of a word.
pub fn put_le(b: &mut Vec<u8>, off: usize, v: u64, n: usize)
    requires
        n <= 8,
        off + n <= old(b)@.len(),
    ensures
        final(b)@ == put(old(b)@, off as int, le_bytes(v as nat, n as nat)),
{
    let mut k: usize = 0;
    let mut rest: u64 = v;
    let ghost mut done: Seq<u8> = Seq::empty();
    let ghost full = le_bytes(v as nat, n as nat);
    let size: usize = b.len();
    assert(b@ =~= put(old(b)@, off as int, done));
    assert(done + full =~= full);
    while k < n
        invariant
            k <= n <= 8,
            off + n <= size,
            size == b@.len(),
            size == old(b)@.len(),
            done.len() == k,
            b@ == put(old(b)@, off as int, done),
            done + le_bytes(rest as nat, (n - k) as nat) == full,
        decreases n - k,
    {
        let d: u8 = (rest % 256) as u8;
        b.set(off + k, d);
        proof {
            let next = done.push(d);
            assert(b@ =~= put(old(b)@, off as int, next));
            assert(next + le_bytes((rest / 256) as nat, (n - k - 1) as nat) =~= done + le_bytes(
                rest as nat,
                (n - k) as nat,
            ));
            done = next;
        }
        rest = rest / 256;
        k = k + 1;
    }
    assert(done =~= full);
}

/// Read a word of `n` bytes.
pub fn get_le(b: &[u8], off: usize, n: usize) -> (r: u64)
    requires
        n <= 8,
        off + n <= b@.len(),
    ensures
        r as nat == word(b@, off as int, n as int),
{
    let size: usize = b.len();
    let mut k: usize = n;
    let mut v: u64 = 0;
    while k > 0
        invariant
            k <= n <= 8,
            off + n <= size == b@.len(),
            v as nat == value::le_value(b@.subrange(off + k, off + n)),
        decreases k,
    {
        proof {
            let tail = b@.subrange(off + k, off + n);
            let longer = b@.subrange(off + k - 1, off + n);
            assert(longer.drop_first() =~= tail);
            bignum::lemma_le_bound(tail);
            bignum::lemma_pow2_mono(8 * tail.len(), 56);
            lemma2_to64_rest();
        }
        v = v * 256 + b[off + k - 1] as u64;
        k = k - 1;
    }
    v
}

/// Write a word of eight bytes.
pub fn put_u64(b: &mut Vec<u8>, off: usize, v: u64)
    requires
        off + 8 <= old(b)@.len(),
    ensures
        final(b)@ == put(old(b)@, off as int, le_bytes(v as nat, 8)),
{
    put_le(b, off, v, 8);
}

/// Write a word of four bytes.
pub fn put_u32(b: &mut Vec<u8>, off: usize, v: u32)
    requires
        off + 4 <= old(b)@.len(),
    ensures
        final(b)@ == put(old(b)@, off as int, le_bytes(v as nat, 4)),
{
    put_le(b, off, v as u64, 4);
}

/// Read a word of eight bytes.
pub fn get_u64(b: &[u8], off: usize) -> (r: u64)
    requires
        off + 8 <= b@.len(),
    ensures
        r as nat == word(b@, off as int, 8),
{
    get_le(b, off, 8)
}

/// Read a word of four bytes.
pub fn get_u32(b: &[u8], off: usize) -> (r: u32)
    requires
        off + 4 <= b@.len(),
    ensures
        r as nat == word(b@, off as int, 4),
{
    let v: u64 = get_le(b, off, 4);
    proof {
        bignum::lemma_le_bound(b@.subrange(off as int, off + 4));
        lemma2_to64();
    }
    v as u32
}

/// Write words of `w` bytes, one after another.
pub fn put_units(b: &mut Vec<u8>, off: usize, s: &Vec<u32>, w: usize)
    requires
        w <= 4,
        off + s@.len() * w <= old(b)@.len(),
    ensures
        final(b)@ == put(old(b)@, off as int, flat(nats32(s@), w as nat)),
{
    let size: usize = b.len();
    let mut i: usize = 0;
    let mut at: usize = off;
    assert(b@ =~= put(old(b)@, off as int, flat(nats32(s@.subrange(0, 0)), w as nat)));
    while i < s.len()
        invariant
            w <= 4,
            i <= s@.len(),
            off + s@.len() * w <= size,
            size == b@.len(),
            size == old(b)@.len(),
            at == off + i * w,
            b@ == put(old(b)@, off as int, flat(nats32(s@.subrange(0, i as int)), w as nat)),
        decreases s.len() - i,
    {
        proof {
            let done = nats32(s@.subrange(0, i as int));
            lemma_flat_len(done, w as nat);
            lemma_le_bytes(s@[i as int] as nat, w as nat);
            assert(i * w + w <= s@.len() * w && (i + 1) * w == i * w + w) by (nonlinear_arith)
                requires
                    i < s@.len(),
            ;
            lemma_put_append(
                old(b)@,
                off as int,
                flat(done, w as nat),
                le_bytes(s@[i as int] as nat, w as nat),
            );
            lemma_flat_push(done, s@[i as int] as nat, w as nat);
            assert(nats32(s@.subrange(0, i + 1)) =~= done.push(s@[i as int] as nat));
        }
        put_le(b, at, s[i] as u64, w);
        at = at + w;
        i = i + 1;
    }
    assert(s@.subrange(0, s@.len() as int) =~= s@);
}

/// Write addresses, one after another.
pub fn put_slots(b: &mut Vec<u8>, off: usize, s: &Vec<usize>)
    requires
        off + s@.len() * 8 <= old(b)@.len(),
    ensures
        final(b)@ == put(old(b)@, off as int, flat(nats(s@), 8)),
{
    let size: usize = b.len();
    let mut i: usize = 0;
    let mut at: usize = off;
    assert(b@ =~= put(old(b)@, off as int, flat(nats(s@.subrange(0, 0)), 8)));
    while i < s.len()
        invariant
            i <= s@.len(),
            off + s@.len() * 8 <= size,
            size == b@.len(),
            size == old(b)@.len(),
            at == off + i * 8,
            b@ == put(old(b)@, off as int, flat(nats(s@.subrange(0, i as int)), 8)),
        decreases s.len() - i,
    {
        proof {
            let done = nats(s@.subrange(0, i as int));
            lemma_flat_len(done, 8);
            lemma_le_bytes(s@[i as int] as nat, 8);
            lemma_put_append(
                old(b)@,
                off as int,
                flat(done, 8),
                le_bytes(s@[i as int] as nat, 8),
            );
            lemma_flat_push(done, s@[i as int] as nat, 8);
            assert(nats(s@.subrange(0, i + 1)) =~= done.push(s@[i as int] as nat));
        }
        put_u64(b, at, s[i] as u64);
        at = at + 8;
        i = i + 1;
    }
    assert(s@.subrange(0, s@.len() as int) =~= s@);
}

/// The address of a word.
pub open spec fn slot(b: Seq<u8>, off: int) -> usize {
    word(b, off, 8) as usize
}

/// The `n` addresses that start at `off`.
pub open spec fn slots(b: Seq<u8>, off: int, n: nat) -> Seq<usize> {
    Seq::new(n, |i: int| slot(b, off + i * 8))
}

/// Read an address.
pub fn get_slot(b: &[u8], off: usize) -> (r: usize)
    requires
        off + 8 <= b@.len(),
    ensures
        r == slot(b@, off as int),
{
    #[verifier::truncate] (get_u64(b, off) as usize)
}

/// Read addresses, one after another.
pub fn get_slots(b: &[u8], off: usize, n: usize) -> (r: Vec<usize>)
    requires
        off + n * 8 <= b@.len(),
    ensures
        r@ == slots(b@, off as int, n as nat),
{
    let size: usize = b.len();
    let mut out: Vec<usize> = Vec::new();
    let mut i: usize = 0;
    let mut at: usize = off;
    while i < n
        invariant
            i <= n,
            off + n * 8 <= size,
            size == b@.len(),
            at == off + i * 8,
            out@ == slots(b@, off as int, i as nat),
        decreases n - i,
    {
        out.push(get_slot(b, at));
        at = at + 8;
        i = i + 1;
        assert(out@ =~= slots(b@, off as int, i as nat));
    }
    out
}

/// Addresses that were written one after another read back as written.
pub proof fn lemma_slots_put(b: Seq<u8>, off: int, s: Seq<usize>)
    requires
        0 <= off,
        off + s.len() * 8 <= b.len(),
    ensures
        slots(put(b, off, flat(nats(s), 8)), off, s.len()) == s,
{
    lemma2_to64_rest();
    let c = put(b, off, flat(nats(s), 8));
    lemma_units_put(b, off, nats(s), 8);
    assert forall|i: int| 0 <= i < s.len() implies #[trigger] slots(c, off, s.len())[i] == s[i] by {
        assert(units(c, off, 8, s.len())[i] == nats(s)[i]);
    }
    assert(slots(c, off, s.len()) =~= s);
}

/// A block of zero bytes.
pub fn zero_block(n: usize) -> (r: Vec<u8>)
    ensures
        r@ == zeros(n as nat),
{
    let mut v: Vec<u8> = Vec::new();
    v.resize(n, 0);
    assert(v@ =~= zeros(n as nat));
    v
}

/// A word of zero bytes is zero.
pub proof fn lemma_zero_word(w: nat)
    ensures
        value::le_value(zeros(w)) == 0,
    decreases w,
{
    if w > 0 {
        assert(zeros(w).drop_first() =~= zeros((w - 1) as nat));
        lemma_zero_word((w - 1) as nat);
    }
}

} // verus!
