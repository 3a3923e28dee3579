//! Big-endian ("network order") integers on byte sequences.

use vstd::prelude::*;
use vstd::arithmetic::div_mod::lemma_breakdown;
use vstd::arithmetic::div_mod::lemma_div_multiples_vanish_fancy;
use vstd::arithmetic::div_mod::lemma_mod_multiples_vanish;
use vstd::arithmetic::div_mod::lemma_small_mod;

verus! {

/// `256` raised to the power `n`.
pub open spec fn pow256(n: nat) -> nat
    decreases n,
{
    if n == 0 {
        1
    } else {
        256 * pow256((n - 1) as nat)
    }
}

/// The `n` low-order bytes of `v`, most significant first.
pub open spec fn be_bytes(v: nat, n: nat) -> Seq<u8>
    decreases n,
{
    if n == 0 {
        Seq::empty()
    } else {
        be_bytes(v / 256, (n - 1) as nat).push((v % 256) as u8)
    }
}

/// The number that a byte sequence denotes when read most significant byte first.
pub open spec fn be_value(s: Seq<u8>) -> nat
    decreases s.len(),
{
    if s.len() == 0 {
        0
    } else {
        be_value(s.drop_last()) * 256 + s.last() as nat
    }
}

pub proof fn lemma_pow256_positive(n: nat)
    ensures
        pow256(n) > 0,
    decreases n,
{
    if n > 0 {
        lemma_pow256_positive((n - 1) as nat);
    }
}

pub proof fn lemma_pow256_values()
    ensures
        pow256(2) == 0x1_0000,
        pow256(4) == 0x1_0000_0000,
        pow256(8) == 0x1_0000_0000_0000_0000,
        pow256(16) == 0x1_0000_0000_0000_0000_0000_0000_0000_0000,
{
    reveal_with_fuel(pow256, 17);
}

pub proof fn lemma_be_bytes_len(v: nat, n: nat)
    ensures
        be_bytes(v, n).len() == n,
    decreases n,
{
    if n > 0 {
        lemma_be_bytes_len(v / 256, (n - 1) as nat);
    }
}

/// Reading back `n` encoded bytes gives the value modulo `256^n`.
pub proof fn lemma_be_value_of_bytes(v: nat, n: nat)
    ensures
        be_value(be_bytes(v, n)) == v % pow256(n),
    decreases n,
{
    if n > 0 {
        let m = (n - 1) as nat;
        lemma_be_value_of_bytes(v / 256, m);
        let s = be_bytes(v, n);
        assert(s.drop_last() =~= be_bytes(v / 256, m));
        lemma_pow256_positive(m);
        lemma_breakdown(v as int, 256, pow256(m) as int);
        assert(v % pow256(n) == 256 * ((v / 256) % pow256(m)) + v % 256);
    }
}

/// A value below `256^n` is read back exactly.
pub proof fn lemma_be_roundtrip_value(v: nat, n: nat)
    requires
        v < pow256(n),
    ensures
        be_value(be_bytes(v, n)) == v,
        be_bytes(v, n).len() == n,
{
    lemma_be_value_of_bytes(v, n);
    lemma_be_bytes_len(v, n);
    lemma_small_mod(v, pow256(n));
}

/// The value of a byte sequence is below `256^len`.
pub proof fn lemma_be_value_bound(s: Seq<u8>)
    ensures
        be_value(s) < pow256(s.len()),
    decreases s.len(),
{
    if s.len() > 0 {
        lemma_be_value_bound(s.drop_last());
        assert(be_value(s.drop_last()) + 1 <= pow256((s.len() - 1) as nat));
        assert((be_value(s.drop_last()) + 1) * 256 <= pow256((s.len() - 1) as nat) * 256)
            by (nonlinear_arith)
            requires
                be_value(s.drop_last()) + 1 <= pow256((s.len() - 1) as nat),
        ;
    }
}

/// Encoding the value of `s` in `s.len()` bytes gives `s` back.
pub proof fn lemma_be_roundtrip_bytes(s: Seq<u8>)
    ensures
        be_bytes(be_value(s), s.len()) =~= s,
    decreases s.len(),
{
    if s.len() > 0 {
        let init = s.drop_last();
        lemma_be_roundtrip_bytes(init);
        let v = be_value(s);
        let x = be_value(init) as int;
        let b = s.last() as int;
        lemma_div_multiples_vanish_fancy(x, b, 256);
        lemma_mod_multiples_vanish(x, b, 256);
        assert(v == 256 * x + b);
        assert(v / 256 == x);
        assert(v % 256 == b);
        assert(be_bytes(v, s.len()) == be_bytes(v / 256, init.len()).push((v % 256) as u8));
        assert(s =~= init.push(s.last()));
    }
}

/// The value of a concatenation.
pub proof fn lemma_be_value_append(a: Seq<u8>, b: Seq<u8>)
    ensures
        be_value(a + b) == be_value(a) * pow256(b.len()) + be_value(b),
    decreases b.len(),
{
    if b.len() == 0 {
        assert(a + b =~= a);
        assert(pow256(0) == 1);
        assert(be_value(a) * 1 == be_value(a));
    } else {
        let b0 = b.drop_last();
        lemma_be_value_append(a, b0);
        assert((a + b).drop_last() =~= a + b0);
        assert((a + b).last() == b.last());
        let va = be_value(a);
        let p = pow256(b0.len());
        assert(be_value(b) == be_value(b0) * 256 + b.last());
        assert(pow256(b.len()) == 256 * p);
        assert(be_value(a + b) == (va * p + be_value(b0)) * 256 + b.last());
        assert((va * p + be_value(b0)) * 256 == va * (256 * p) + be_value(b0) * 256)
            by (nonlinear_arith);
        assert(be_value(a) * pow256(b.len()) == va * (256 * p));
    }
}

/// Appends the `n` low-order bytes of `v`, most significant first.
pub fn push_be(buf: &mut Vec<u8>, v: u128, n: usize)
    ensures
        final(buf)@ == old(buf)@ + be_bytes(v as nat, n as nat),
    decreases n,
{
    if n > 0 {
        push_be(buf, v / 256, n - 1);
        let ghost mid = buf@;
        buf.push((v % 256) as u8);
        assert(be_bytes(v as nat, n as nat) == be_bytes((v / 256) as nat, (n - 1) as nat).push(
            (v % 256) as u8,
        ));
        assert(buf@ =~= old(buf)@ + be_bytes(v as nat, n as nat));
    } else {
        assert(old(buf)@ + be_bytes(v as nat, 0) =~= old(buf)@);
    }
}

/// Appends a 16-bit value in network order.
pub fn push_u16_be(buf: &mut Vec<u8>, v: u16)
    ensures
        final(buf)@ == old(buf)@ + be_bytes(v as nat, 2),
{
    push_be(buf, v as u128, 2);
}

/// Appends a 32-bit value in network order.
pub fn push_u32_be(buf: &mut Vec<u8>, v: u32)
    ensures
        final(buf)@ == old(buf)@ + be_bytes(v as nat, 4),
{
    push_be(buf, v as u128, 4);
}

/// Appends a 64-bit value in network order.
pub fn push_u64_be(buf: &mut Vec<u8>, v: u64)
    ensures
        final(buf)@ == old(buf)@ + be_bytes(v as nat, 8),
{
    push_be(buf, v as u128, 8);
}

/// Reads `n` bytes starting at `start`, most significant first.
pub fn read_be(s: &[u8], start: usize, n: usize) -> (v: u128)
    requires
        n <= 16,
        start + n <= s@.len(),
    ensures
        v == be_value(s@.subrange(start as int, start + n)),
{
    let len: usize = s.len();
    let mut acc: u128 = 0;
    let mut i: usize = start;
    let end: usize = start + n;
    proof {
        assert(s@.subrange(start as int, start as int) =~= Seq::<u8>::empty());
        lemma_pow256_values();
    }
    while i < end
        invariant
            start <= i <= end,
            end == start + n,
            n <= 16,
            end <= s@.len(),
            pow256(16) == 0x1_0000_0000_0000_0000_0000_0000_0000_0000,
            acc == be_value(s@.subrange(start as int, i as int)),
        decreases end - i,
    {
        let ghost prefix = s@.subrange(start as int, i as int);
        proof {
            lemma_be_value_bound(prefix);
            lemma_pow_mono(prefix.len(), 15);
        }
        assert(acc < pow256(15));
        assert(acc * 256 + 255 < pow256(16)) by {
            assert(pow256(16) == 256 * pow256(15)) by {
                reveal_with_fuel(pow256, 2);
            }
        }
        acc = acc * 256 + s[i] as u128;
        let ghost next = s@.subrange(start as int, i + 1);
        assert(next.drop_last() =~= prefix);
        i = i + 1;
    }
    acc
}

/// `256^n` grows with `n`.
pub proof fn lemma_pow_mono(a: nat, b: nat)
    requires
        a <= b,
    ensures
        pow256(a) <= pow256(b),
    decreases b,
{
    if a < b {
        lemma_pow_mono(a, (b - 1) as nat);
        lemma_pow256_positive((b - 1) as nat);
    }
}

} // verus!
