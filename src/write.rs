use vstd::prelude::*;
use crate::read::{le_value, pow256};

verus! {

/// Appends the `n <= 8` little-endian bytes of `x`, which is below `256^n`.
fn push_le(vec: &mut Vec<u8>, x: u64, n: usize)
    requires
        n <= 8,
        x < pow256(n as nat),
    ensures
        final(vec)@.len() == old(vec)@.len() + n,
        final(vec)@.take(old(vec)@.len() as int) == old(vec)@,
        le_value(final(vec)@.skip(old(vec)@.len() as int)) == x,
{
    let ghost start = vec@.len();
    let ghost before = vec@;
    let mut rest: u64 = x;
    let mut k: usize = 0;
    proof {
        assert(vec@.skip(start as int) =~= Seq::<u8>::empty());
        assert(vec@.take(start as int) =~= before);
        assert(le_value(Seq::<u8>::empty()) == 0);
        assert(pow256(0) == 1);
    }
    while k < n
        invariant
            k <= n <= 8,
            vec@.len() == start + k,
            vec@.take(start as int) == before,
            before.len() == start,
            le_value(vec@.skip(start as int)) + pow256(k as nat) * rest == x,
            rest < pow256((n - k) as nat),
        decreases n - k,
    {
        let ghost written = vec@.skip(start as int);
        let b = (rest % 256) as u8;
        vec.push(b);
        proof {
            lemma_le_value_push(written, b);
            assert(vec@.skip(start as int) =~= written.push(b));
            assert(vec@.take(start as int) =~= before);
            assert(pow256((k + 1) as nat) == pow256(k as nat) * 256) by {
                lemma_pow256_succ(k as nat);
            }
            assert(pow256((n - k) as nat) == 256 * pow256((n - k - 1) as nat));
            let r = rest as int;
            let p = pow256(k as nat) as int;
            assert(p * r == p * (r % 256) + (p * 256) * (r / 256)) by (nonlinear_arith)
                requires
                    r >= 0,
            ;
            assert(r / 256 < pow256((n - k - 1) as nat)) by (nonlinear_arith)
                requires
                    r < 256 * pow256((n - k - 1) as nat),
                    r >= 0,
            ;
        }
        rest = rest / 256;
        k = k + 1;
    }
}

/// `256^(k+1) == 256^k * 256`.
proof fn lemma_pow256_succ(k: nat)
    ensures
        pow256(k + 1) == pow256(k) * 256,
{
}

/// Appending a byte adds it as the most significant one.
proof fn lemma_le_value_push(s: Seq<u8>, b: u8)
    ensures
        le_value(s.push(b)) == le_value(s) + pow256(s.len()) * b,
    decreases s.len(),
{
    if s.len() > 0 {
        lemma_le_value_push(s.drop_first(), b);
        assert(s.push(b).drop_first() =~= s.drop_first().push(b));
        assert(s.push(b)[0] == s[0]);
        assert(pow256(s.len()) == 256 * pow256((s.len() - 1) as nat));
        let p = pow256((s.len() - 1) as nat) as int;
        assert(256 * (le_value(s.drop_first()) + p * b) == 256 * le_value(s.drop_first()) + (256 * p) * b)
            by (nonlinear_arith);
    } else {
        assert(s.push(b).drop_first() =~= Seq::<u8>::empty());
        assert(s.push(b)[0] == b);
        assert(le_value(Seq::<u8>::empty()) == 0);
        assert(pow256(0) == 1);
    }
}

/// Appends one byte.
pub fn byte(vec: &mut Vec<u8>, byte: u8)
    ensures
        final(vec)@ == old(vec)@.push(byte),
{
    vec.push(byte)
}

/// Appends the four little-endian bytes of `i`.
pub fn i32(vec: &mut Vec<u8>, i: i32)
    ensures
        final(vec)@.len() == old(vec)@.len() + 4,
        final(vec)@.take(old(vec)@.len() as int) == old(vec)@,
        le_value(final(vec)@.skip(old(vec)@.len() as int)) == i as u32,
{
    proof {
        reveal_with_fuel(pow256, 5);
    }
    push_le(vec, i as u32 as u64, 4)
}

/// Appends the four little-endian bytes of `u`.
pub fn u32(vec: &mut Vec<u8>, u: u32)
    ensures
        final(vec)@.len() == old(vec)@.len() + 4,
        final(vec)@.take(old(vec)@.len() as int) == old(vec)@,
        le_value(final(vec)@.skip(old(vec)@.len() as int)) == u,
{
    proof {
        reveal_with_fuel(pow256, 5);
    }
    push_le(vec, u as u64, 4)
}

/// Appends the eight little-endian bytes of `u`.
pub fn u64(vec: &mut Vec<u8>, u: u64)
    ensures
        final(vec)@.len() == old(vec)@.len() + 8,
        final(vec)@.take(old(vec)@.len() as int) == old(vec)@,
        le_value(final(vec)@.skip(old(vec)@.len() as int)) == u,
{
    proof {
        reveal_with_fuel(pow256, 9);
    }
    push_le(vec, u, 8)
}

/// Appends the eight little-endian bytes of the bit pattern of a double.
pub fn f64_bits(vec: &mut Vec<u8>, bits: u64)
    ensures
        final(vec)@.len() == old(vec)@.len() + 8,
        final(vec)@.take(old(vec)@.len() as int) == old(vec)@,
        le_value(final(vec)@.skip(old(vec)@.len() as int)) == bits,
{
    u64(vec, bits)
}

/// Appends `bytes`.
pub fn bytes(vec: &mut Vec<u8>, bytes: &[u8])
    ensures
        final(vec)@ == old(vec)@ + bytes@,
{
    let ghost before = vec@;
    let mut i: usize = 0;
    while i < bytes.len()
        invariant
            i <= bytes@.len(),
            vec@ == before + bytes@.take(i as int),
        decreases bytes@.len() - i,
    {
        vec.push(bytes[i]);
        proof {
            assert(bytes@.take(i as int + 1) =~= bytes@.take(i as int).push(bytes@[i as int]));
            assert(before + bytes@.take(i as int + 1) =~= (before + bytes@.take(i as int)).push(bytes@[i as int]));
        }
        i = i + 1;
    }
    proof {
        assert(bytes@.take(bytes@.len() as int) =~= bytes@);
    }
}

} // verus!
