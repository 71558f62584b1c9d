//! Fixed-width integer encodings as bytes, big- and little-endian, with
//! their decoders.
use vstd::prelude::*;
use vstd::arithmetic::div_mod::lemma_fundamental_div_mod_converse;
use crate::types::{be_value, pow256};

verus! {

/// Big-endian bytes of `x` in `n` bytes (the low `n` bytes of `x`).
pub open spec fn be_bytes(x: nat, n: nat) -> Seq<u8>
    decreases n,
{
    if n == 0 {
        Seq::empty()
    } else {
        be_bytes(x / 256, (n - 1) as nat).push((x % 256) as u8)
    }
}

/// Little-endian bytes of `x` in `n` bytes (the low `n` bytes of `x`).
pub open spec fn le_bytes(x: nat, n: nat) -> Seq<u8>
    decreases n,
{
    if n == 0 {
        Seq::empty()
    } else {
        seq![(x % 256) as u8] + le_bytes(x / 256, (n - 1) as nat)
    }
}

/// Little-endian value of a byte sequence.
pub open spec fn le_value(b: Seq<u8>) -> nat
    decreases b.len(),
{
    if b.len() == 0 {
        0
    } else {
        b[0] as nat + 256 * le_value(b.drop_first())
    }
}

pub proof fn lemma_be_bytes_len(x: nat, n: nat)
    ensures
        be_bytes(x, n).len() == n,
    decreases n,
{
    if n > 0 {
        lemma_be_bytes_len(x / 256, (n - 1) as nat);
    }
}

pub proof fn lemma_le_bytes_len(x: nat, n: nat)
    ensures
        le_bytes(x, n).len() == n,
    decreases n,
{
    if n > 0 {
        lemma_le_bytes_len(x / 256, (n - 1) as nat);
    }
}

/// Decoding the little-endian bytes of a value that fits gives the value back.
pub proof fn lemma_le_value_of_bytes(x: nat, n: nat)
    requires
        x < pow256(n),
    ensures
        le_value(le_bytes(x, n)) == x,
    decreases n,
{
    if n > 0 {
        let b = le_bytes(x, n);
        lemma_fundamental_div_mod_converse(x as int, 256, x as int / 256, x as int % 256);
        assert(x / 256 < pow256((n - 1) as nat)) by (nonlinear_arith)
            requires x < pow256((n - 1) as nat) * 256, x == (x / 256) * 256 + x % 256, x % 256 >= 0;
        lemma_le_value_of_bytes(x / 256, (n - 1) as nat);
        assert(b.drop_first() =~= le_bytes(x / 256, (n - 1) as nat));
    }
}

/// Decoding the big-endian bytes of a value that fits gives the value back.
pub proof fn lemma_be_value_of_bytes(x: nat, n: nat)
    requires
        x < pow256(n),
    ensures
        be_value(be_bytes(x, n)) == x,
    decreases n,
{
    if n > 0 {
        let b = be_bytes(x, n);
        lemma_fundamental_div_mod_converse(x as int, 256, x as int / 256, x as int % 256);
        assert(x / 256 < pow256((n - 1) as nat)) by (nonlinear_arith)
            requires x < pow256((n - 1) as nat) * 256, x == (x / 256) * 256 + x % 256, x % 256 >= 0;
        lemma_be_value_of_bytes(x / 256, (n - 1) as nat);
        assert(b.drop_last() =~= be_bytes(x / 256, (n - 1) as nat));
    }
}

/// The little-endian bytes of the value of `b` are `b`.
pub proof fn lemma_le_bytes_of_value(b: Seq<u8>)
    ensures
        le_bytes(le_value(b), b.len()) == b,
        le_value(b) < pow256(b.len()),
    decreases b.len(),
{
    if b.len() > 0 {
        let w = le_value(b.drop_first());
        lemma_le_bytes_of_value(b.drop_first());
        let x = le_value(b);
        lemma_fundamental_div_mod_converse(x as int, 256, w as int, b[0] as int);
        assert(le_bytes(x, b.len()) =~= b);
        assert(x < pow256(b.len())) by (nonlinear_arith)
            requires x == b[0] as nat + 256 * w, w < pow256((b.len() - 1) as nat), b[0] < 256,
                pow256(b.len()) == pow256((b.len() - 1) as nat) * 256;
    }
}

/// The big-endian bytes of the value of `b` are `b`.
pub proof fn lemma_be_bytes_of_value(b: Seq<u8>)
    ensures
        be_bytes(be_value(b), b.len()) == b,
        be_value(b) < pow256(b.len()),
    decreases b.len(),
{
    if b.len() > 0 {
        let w = be_value(b.drop_last());
        lemma_be_bytes_of_value(b.drop_last());
        let x = be_value(b);
        lemma_fundamental_div_mod_converse(x as int, 256, w as int, b.last() as int);
        assert(be_bytes(x, b.len()) =~= b);
        assert(x < pow256(b.len())) by (nonlinear_arith)
            requires x == w * 256 + b.last() as nat, w < pow256((b.len() - 1) as nat), b.last() < 256,
                pow256(b.len()) == pow256((b.len() - 1) as nat) * 256;
    }
}

pub proof fn lemma_pow256_values()
    ensures
        pow256(4) == 0x1_0000_0000nat,
        pow256(8) == 0x1_0000_0000_0000_0000nat,
        pow256(16) == 0x1_0000_0000_0000_0000_0000_0000_0000_0000nat,
{
    reveal_with_fuel(pow256, 17);
}

/// Big-endian bytes of `x` in `n` bytes.
pub fn be_bytes_of(x: u128, n: usize) -> (r: Vec<u8>)
    ensures
        r@ == be_bytes(x as nat, n as nat),
    decreases n,
{
    if n == 0 {
        Vec::new()
    } else {
        let mut v = be_bytes_of(x / 256, n - 1);
        v.push((x % 256) as u8);
        v
    }
}

/// Little-endian bytes of `x` in `n` bytes.
pub fn le_bytes_of(x: u128, n: usize) -> (r: Vec<u8>)
    ensures
        r@ == le_bytes(x as nat, n as nat),
{
    let mut v: Vec<u8> = Vec::new();
    let mut y: u128 = x;
    let mut i: usize = 0;
    while i < n
        invariant
            i <= n,
            v@ + le_bytes(y as nat, (n - i) as nat) == le_bytes(x as nat, n as nat),
        decreases n - i,
    {
        proof {
            assert(le_bytes(y as nat, (n - i) as nat) == seq![(y % 256) as u8] + le_bytes((y / 256) as nat, (n - i - 1) as nat));
            assert(v@.push((y % 256) as u8) + le_bytes((y / 256) as nat, (n - i - 1) as nat)
                =~= v@ + (seq![(y % 256) as u8] + le_bytes((y / 256) as nat, (n - i - 1) as nat)));
        }
        v.push((y % 256) as u8);
        y = y / 256;
        i += 1;
    }
    proof { assert(v@ + Seq::<u8>::empty() =~= v@); }
    v
}

/// Appends the bytes `b` to `out`.
pub fn push_all(out: &mut Vec<u8>, b: &[u8])
    ensures
        final(out)@ == old(out)@ + b@,
{
    let ghost start = out@;
    let mut i: usize = 0;
    while i < b.len()
        invariant
            i <= b@.len(),
            out@ == start + b@.subrange(0, i as int),
        decreases b@.len() - i,
    {
        out.push(b[i]);
        i += 1;
        proof { assert(b@.subrange(0, i as int) =~= b@.subrange(0, i - 1).push(b@[i - 1])); }
    }
    proof { assert(b@.subrange(0, b@.len() as int) =~= b@); }
}

/// Little-endian value of `b[start..end]` (at most 16 bytes).
pub fn le_value_at(b: &[u8], start: usize, end: usize) -> (r: u128)
    requires
        start <= end <= b@.len(),
        end - start <= 16,
    ensures
        r as nat == le_value(b@.subrange(start as int, end as int)),
{
    let mut v: u128 = 0;
    let mut i: usize = end;
    proof { lemma_pow256_values(); }
    while i > start
        invariant
            start <= i <= end <= b@.len(),
            end - start <= 16,
            v as nat == le_value(b@.subrange(i as int, end as int)),
            pow256(16) == 0x1_0000_0000_0000_0000_0000_0000_0000_0000nat,
        decreases i - start,
    {
        let ghost sub = b@.subrange(i - 1, end as int);
        proof {
            assert(sub.drop_first() =~= b@.subrange(i as int, end as int));
            assert(sub[0] == b@[i - 1]);
            lemma_le_bytes_of_value(sub);
            lemma_pow256_mono_local(sub.len(), 16);
        }
        v = v * 256 + b[i - 1] as u128;
        i -= 1;
    }
    v
}

/// Big-endian value of `b[start..end]` (at most 16 bytes).
pub fn be_value_at(b: &[u8], start: usize, end: usize) -> (r: u128)
    requires
        start <= end <= b@.len(),
        end - start <= 16,
    ensures
        r as nat == be_value(b@.subrange(start as int, end as int)),
{
    let mut v: u128 = 0;
    let mut i: usize = start;
    proof { lemma_pow256_values(); }
    while i < end
        invariant
            start <= i <= end <= b@.len(),
            end - start <= 16,
            v as nat == be_value(b@.subrange(start as int, i as int)),
            pow256(16) == 0x1_0000_0000_0000_0000_0000_0000_0000_0000nat,
        decreases end - i,
    {
        let ghost sub = b@.subrange(start as int, i + 1);
        proof {
            assert(sub.drop_last() =~= b@.subrange(start as int, i as int));
            assert(sub.last() == b@[i as int]);
            lemma_be_bytes_of_value(sub);
            lemma_pow256_mono_local(sub.len(), 16);
        }
        v = v * 256 + b[i] as u128;
        i += 1;
    }
    v
}

proof fn lemma_pow256_mono_local(a: nat, b: nat)
    requires
        a <= b,
    ensures
        pow256(a) <= pow256(b),
    decreases b - a,
{
    if a < b {
        lemma_pow256_mono_local(a, (b - 1) as nat);
    }
}

} // verus!
