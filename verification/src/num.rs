//! Compact big-endian unsigned integers.
//!
//! RION frames every length, and every integer payload, as a big-endian
//! unsigned integer with all leading zero bytes stripped; the value 0 takes
//! zero bytes.  This module holds the mathematical model of that packing
//! (`be_val`, `be_bytes`, `min_be_len`) and the executable primitives proved
//! against it.

use vstd::arithmetic::div_mod::{
    lemma_div_is_ordered_by_denominator, lemma_fundamental_div_mod, lemma_mod_bound,
};
use vstd::prelude::*;

use crate::errors::DeserializeError;

verus! {

/// The value of a big-endian byte sequence.
pub open spec fn be_val(s: Seq<u8>) -> nat
    decreases s.len(),
{
    if s.len() == 0 {
        0
    } else {
        (be_val(s.drop_last()) * 256 + s.last()) as nat
    }
}

/// How many bytes the stripped big-endian form of `n` takes.
pub open spec fn min_be_len(n: nat) -> nat
    decreases n,
{
    if n == 0 {
        0
    } else {
        1 + min_be_len(n / 256)
    }
}

/// The stripped big-endian form of `n`: no leading zero bytes, empty for 0.
pub open spec fn be_bytes(n: nat) -> Seq<u8>
    decreases n,
{
    if n == 0 {
        Seq::<u8>::empty()
    } else {
        be_bytes(n / 256).push((n % 256) as u8)
    }
}

/// 256 to the power `k`: the number of values a `k`-byte field can hold.
pub open spec fn pow256(k: nat) -> nat
    decreases k,
{
    if k == 0 {
        1
    } else {
        256 * pow256((k - 1) as nat)
    }
}

pub proof fn lemma_be_bytes_len(n: nat)
    ensures
        be_bytes(n).len() == min_be_len(n),
    decreases n,
{
    if n > 0 {
        lemma_be_bytes_val_pos(n);
        lemma_be_bytes_len(n / 256);
    }
}

proof fn lemma_be_bytes_val_pos(n: nat)
    requires
        n > 0,
    ensures
        n / 256 < n,
{
    lemma_div_is_ordered_by_denominator(n as int, 1, 256);
}

pub proof fn lemma_be_bytes_val(n: nat)
    ensures
        be_val(be_bytes(n)) == n,
    decreases n,
{
    if n > 0 {
        lemma_be_bytes_val_pos(n);
        lemma_be_bytes_val(n / 256);
        let s = be_bytes(n);
        assert(s.drop_last() =~= be_bytes(n / 256));
        lemma_fundamental_div_mod(n as int, 256);
    }
}

/// A `k`-byte field holds a value below `pow256(k)`.
pub proof fn lemma_be_val_bound(s: Seq<u8>)
    ensures
        be_val(s) < pow256(s.len()),
    decreases s.len(),
{
    if s.len() > 0 {
        lemma_be_val_bound(s.drop_last());
        assert(be_val(s.drop_last()) * 256 + 255 < pow256(s.len())) by (nonlinear_arith)
            requires
                be_val(s.drop_last()) < pow256((s.len() - 1) as nat),
                pow256(s.len()) == 256 * pow256((s.len() - 1) as nat),
        ;
    }
}

/// `min_be_len` is the least length: `n` fits in `k` bytes iff its stripped
/// form has at most `k` bytes.
pub proof fn lemma_min_be_len_le(n: nat, k: nat)
    requires
        n < pow256(k),
    ensures
        min_be_len(n) <= k,
    decreases k,
{
    if n > 0 {
        lemma_be_bytes_val_pos(n);
        if k == 0 {
        } else {
            assert(n / 256 < pow256((k - 1) as nat)) by (nonlinear_arith)
                requires
                    n < pow256(k),
                    pow256(k) == 256 * pow256((k - 1) as nat),
                    n >= 0,
            ;
            lemma_min_be_len_le(n / 256, (k - 1) as nat);
        }
    }
}

pub proof fn lemma_pow256_8()
    ensures
        pow256(8) == 0x1_0000_0000_0000_0000,
{
    reveal_with_fuel(pow256, 9);
}

/// Any `u64` needs at most 8 bytes.
pub proof fn lemma_min_be_len_u64(n: u64)
    ensures
        min_be_len(n as nat) <= 8,
{
    lemma_pow256_8();
    lemma_min_be_len_le(n as nat, 8);
}

/// Number of significant big-endian bytes needed to hold `length`:
/// 0 for 0, 1 for 1..=255, and so on.
pub fn needed_bytes(length: u64) -> (r: u32)
    ensures
        r == min_be_len(length as nat),
{
    proof {
        lemma_min_be_len_u64(length);
    }
    let mut n: u64 = length;
    let mut c: u32 = 0;
    while n > 0
        invariant
            min_be_len(length as nat) == c + min_be_len(n as nat),
            c <= 8,
        decreases n,
    {
        proof {
            lemma_be_bytes_val_pos(n as nat);
            lemma_min_be_len_u64(length);
        }
        n = n / 256;
        c = c + 1;
    }
    c
}

/// `needed_bytes` on a `usize` length.
pub fn needed_bytes_usize(length: usize) -> (r: usize)
    ensures
        r == min_be_len(length as nat),
{
    needed_bytes(length as u64) as usize
}

/// Appends the stripped big-endian form of `value` to `out`; nothing for 0.
pub fn int_to_bytes(value: u64, out: &mut Vec<u8>)
    ensures
        final(out)@ == old(out)@ + be_bytes(value as nat),
    decreases value,
{
    if value == 0 {
        assert(out@ =~= old(out)@ + be_bytes(0));
        return ;
    }
    proof {
        lemma_be_bytes_val_pos(value as nat);
    }
    int_to_bytes(value / 256, out);
    proof {
        lemma_mod_bound(value as int, 256);
    }
    out.push((value % 256) as u8);
    assert(out@ =~= old(out)@ + be_bytes(value as nat));
}

/// Reads a big-endian unsigned integer from all of `bytes`.
/// Succeeds exactly on lengths up to 8; longer inputs could not be proven to
/// fit a `u64` and are refused.
pub fn bytes_to_uint(bytes: &[u8]) -> (r: Result<u64, DeserializeError>)
    ensures
        bytes@.len() <= 8 ==> r == Ok::<u64, DeserializeError>((be_val(bytes@) as u64)),
        bytes@.len() > 8 ==> r == Err::<u64, DeserializeError>(DeserializeError::IntegerOutOfRange),
{
    if bytes.len() > 8 {
        return Err(DeserializeError::IntegerOutOfRange);
    }
    let mut acc: u64 = 0;
    let mut i: usize = 0;
    proof {
        assert(bytes@.subrange(0, 0) =~= Seq::<u8>::empty());
    }
    while i < bytes.len()
        invariant
            i <= bytes@.len() <= 8,
            acc == be_val(bytes@.subrange(0, i as int)),
            acc < pow256(i as nat),
        decreases bytes@.len() - i,
    {
        let b = *vstd::slice::slice_index_get(bytes, i);
        proof {
            let pre = bytes@.subrange(0, i as int);
            let post = bytes@.subrange(0, i + 1);
            assert(post.drop_last() =~= pre);
            assert(be_val(post) == be_val(pre) * 256 + b);
            reveal_with_fuel(pow256, 9);
            assert(acc * 256 + b < pow256((i + 1) as nat)) by (nonlinear_arith)
                requires
                    acc < pow256(i as nat),
                    b < 256,
                    pow256((i + 1) as nat) == 256 * pow256(i as nat),
            ;
            assert(pow256((i + 1) as nat) <= pow256(8)) by {
                lemma_pow256_increases(( i + 1) as nat, 8);
            }
            lemma_pow256_8();
        }
        acc = acc * 256 + (b as u64);
        i = i + 1;
    }
    proof {
        assert(bytes@.subrange(0, bytes@.len() as int) =~= bytes@);
    }
    Ok(acc)
}

/// A big-endian value of at most 8 bytes fits a `u64`.
pub proof fn lemma_be_val_fits_u64(s: Seq<u8>)
    requires
        s.len() <= 8,
    ensures
        be_val(s) < 0x1_0000_0000_0000_0000,
{
    lemma_be_val_bound(s);
    lemma_pow256_increases(s.len() as nat, 8);
    lemma_pow256_8();
}

pub proof fn lemma_pow256_increases(a: nat, b: nat)
    requires
        a <= b,
    ensures
        pow256(a) <= pow256(b),
    decreases b,
{
    if a < b {
        lemma_pow256_increases(a, (b - 1) as nat);
        assert(pow256(b) == 256 * pow256((b - 1) as nat));
        assert(pow256(a) >= 1) by {
            lemma_pow256_pos(a);
        }
        assert(256 * pow256((b - 1) as nat) >= pow256((b - 1) as nat)) by (nonlinear_arith)
            requires
                pow256((b - 1) as nat) >= 0,
        ;
    }
}

pub proof fn lemma_pow256_pos(k: nat)
    ensures
        pow256(k) >= 1,
    decreases k,
{
    if k > 0 {
        lemma_pow256_pos((k - 1) as nat);
    }
}

} // verus!
