use vstd::prelude::*;

verus! {

/// The little-endian value of the bytes `s`.
pub open spec fn le_value(s: Seq<u8>) -> nat
    decreases s.len(),
{
    if s.len() == 0 {
        0
    } else {
        s[0] as nat + 256 * le_value(s.drop_first())
    }
}

/// `256^n`.
pub open spec fn pow256(n: nat) -> nat
    decreases n,
{
    if n == 0 {
        1
    } else {
        256 * pow256((n - 1) as nat)
    }
}

pub proof fn lemma_le_value_bound(s: Seq<u8>)
    ensures
        le_value(s) < pow256(s.len()),
    decreases s.len(),
{
    if s.len() > 0 {
        lemma_le_value_bound(s.drop_first());
    }
}

/// The little-endian value of the first `n <= 8` bytes of `s`.
fn read_le(s: &[u8], n: usize) -> (r: u64)
    requires
        n <= 8,
        n <= s@.len(),
    ensures
        r as nat == le_value(s@.take(n as int)),
{
    let mut acc: u64 = 0;
    let mut k: usize = n;
    proof {
        assert(s@.subrange(n as int, n as int) =~= Seq::<u8>::empty());
        reveal_with_fuel(pow256, 9);
    }
    while k > 0
        invariant
            k <= n <= 8,
            n <= s@.len(),
            acc as nat == le_value(s@.subrange(k as int, n as int)),
            le_value(s@.subrange(k as int, n as int)) < pow256((n - k) as nat),
            pow256(7) == 0x100_0000_0000_0000,
        decreases k,
    {
        let ghost t = s@.subrange(k - 1, n as int);
        proof {
            assert(t.drop_first() =~= s@.subrange(k as int, n as int));
            assert(t[0] == s@[k - 1]);
            lemma_le_value_bound(t);
            assert(pow256((n - k + 1) as nat) == 256 * pow256((n - k) as nat));
            assert(pow256((n - k) as nat) <= pow256(7)) by {
                lemma_pow256_mono((n - k) as nat, 7);
            }
        }
        acc = s[k - 1] as u64 + 256 * acc;
        k = k - 1;
    }
    proof {
        assert(s@.subrange(0, n as int) =~= s@.take(n as int));
    }
    acc
}

proof fn lemma_pow256_mono(a: nat, b: nat)
    requires
        a <= b,
    ensures
        pow256(a) <= pow256(b),
    decreases b,
{
    if a < b {
        lemma_pow256_mono(a, (b - 1) as nat);
    }
}

/// Takes `n` bytes off the front of `loadstate`.
fn take_front<'a>(loadstate: &mut &'a [u8], n: usize) -> (r: &'a [u8])
    requires
        n <= old(loadstate)@.len(),
    ensures
        r@ == old(loadstate)@.take(n as int),
        final(loadstate)@ == old(loadstate)@.skip(n as int),
{
    let s: &'a [u8] = *loadstate;
    let (front, rest) = s.split_at(n);
    *loadstate = rest;
    front
}

/// Reads one byte; `err` if none is left.
pub fn byte(loadstate: &mut &[u8], err: String) -> (r: Result<u8, String>)
    ensures
        old(loadstate)@.len() >= 1 ==> r == Ok::<u8, String>(old(loadstate)@[0]) && final(loadstate)@
            == old(loadstate)@.skip(1),
        old(loadstate)@.len() < 1 ==> r == Err::<u8, String>(err) && final(loadstate)@ == old(loadstate)@,
{
    if loadstate.len() >= 1 {
        let front = take_front(loadstate, 1);
        Ok(front[0])
    } else {
        Err(err)
    }
}

/// Reads a little-endian `i32`; `err` if fewer than four bytes are left.
pub fn i32(loadstate: &mut &[u8], err: String) -> (r: Result<i32, String>)
    ensures
        old(loadstate)@.len() >= 4 ==> r == Ok::<i32, String>(le_value(old(loadstate)@.take(4)) as u32 as i32)
            && final(loadstate)@ == old(loadstate)@.skip(4),
        old(loadstate)@.len() < 4 ==> r == Err::<i32, String>(err) && final(loadstate)@ == old(loadstate)@,
{
    if loadstate.len() >= 4 {
        let front = take_front(loadstate, 4);
        proof {
            assert(front@.take(4) =~= front@);
            lemma_le_value_bound(front@);
            reveal_with_fuel(pow256, 5);
        }
        Ok(read_le(front, 4) as u32 as i32)
    } else {
        Err(err)
    }
}

/// Reads a little-endian `u32`; `err` if fewer than four bytes are left.
pub fn u32(loadstate: &mut &[u8], err: String) -> (r: Result<u32, String>)
    ensures
        old(loadstate)@.len() >= 4 ==> r == Ok::<u32, String>(le_value(old(loadstate)@.take(4)) as u32)
            && final(loadstate)@ == old(loadstate)@.skip(4),
        old(loadstate)@.len() < 4 ==> r == Err::<u32, String>(err) && final(loadstate)@ == old(loadstate)@,
{
    if loadstate.len() >= 4 {
        let front = take_front(loadstate, 4);
        proof {
            assert(front@.take(4) =~= front@);
            lemma_le_value_bound(front@);
            reveal_with_fuel(pow256, 5);
        }
        Ok(read_le(front, 4) as u32)
    } else {
        Err(err)
    }
}

/// Reads a little-endian `u64`; `err` if fewer than eight bytes are left.
pub fn u64(loadstate: &mut &[u8], err: String) -> (r: Result<u64, String>)
    ensures
        old(loadstate)@.len() >= 8 ==> r == Ok::<u64, String>(le_value(old(loadstate)@.take(8)) as u64)
            && final(loadstate)@ == old(loadstate)@.skip(8),
        old(loadstate)@.len() < 8 ==> r == Err::<u64, String>(err) && final(loadstate)@ == old(loadstate)@,
{
    if loadstate.len() >= 8 {
        let front = take_front(loadstate, 8);
        proof {
            assert(front@.take(8) =~= front@);
        }
        Ok(read_le(front, 8))
    } else {
        Err(err)
    }
}

/// Reads the bit pattern of a little-endian IEEE-754 double; `err` if fewer
/// than eight bytes are left.
pub fn f64_bits(loadstate: &mut &[u8], err: String) -> (r: Result<u64, String>)
    ensures
        old(loadstate)@.len() >= 8 ==> r == Ok::<u64, String>(le_value(old(loadstate)@.take(8)) as u64)
            && final(loadstate)@ == old(loadstate)@.skip(8),
        old(loadstate)@.len() < 8 ==> r == Err::<u64, String>(err) && final(loadstate)@ == old(loadstate)@,
{
    u64(loadstate, err)
}

/// Reads `len` bytes; `err` if fewer are left.
pub fn bytes<'a>(loadstate: &mut &'a [u8], len: usize, err: String) -> (r: Result<&'a [u8], String>)
    ensures
        old(loadstate)@.len() >= len ==> (r matches Ok(b) && b@ == old(loadstate)@.take(len as int)
            && final(loadstate)@ == old(loadstate)@.skip(len as int)),
        old(loadstate)@.len() < len ==> (r matches Err(e) && e == err && final(loadstate)@ == old(loadstate)@),
{
    if loadstate.len() >= len {
        Ok(take_front(loadstate, len))
    } else {
        Err(err)
    }
}

} // verus!
