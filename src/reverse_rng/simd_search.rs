use vstd::prelude::*;
use vstd::arithmetic::div_mod::{
    lemma_add_mod_noop,
    lemma_mod_multiples_vanish,
    lemma_mul_mod_noop_left,
};
use rayon::iter::{IntoParallelRefIterator, ParallelIterator};
use crate::reverse_rng::data_point::{DataPoint, StateCandidate};
use crate::reverse_rng::search::{
    all_hold,
    candidate,
    candidates_in,
    constraint_seq,
    constraints_of,
    find_original_state,
    holds,
    lemma_constraints_match,
    Constraint,
};
use crate::rng::{
    add64,
    apply_affine,
    jump_coefficients,
    modulus,
    mul_mod,
    output_spec,
    rotr32,
    seed_state,
    steps,
    sub_initial_offset,
    MULTIPLIER,
};

verus! {

/// Seeds per chunk of work handed to the worker pool.
pub const PARALLEL_CHUNK: i64 = 1_000_000;

/// The vector widths the lane engine runs at.
#[derive(Clone, Copy, Debug, PartialEq, Eq, Structural)]
pub enum LaneWidth {
    /// Four 64-bit lanes (256-bit vectors).
    Four,
    /// Eight 64-bit lanes (512-bit vectors).
    Eight,
}

impl LaneWidth {
    pub open spec fn spec_lanes(&self) -> usize {
        match self {
            LaneWidth::Four => 4,
            LaneWidth::Eight => 8,
        }
    }

    /// The number of seeds tested per batch.
    pub fn lanes(&self) -> (r: usize)
        ensures
            r == self.spec_lanes(),
    {
        match self {
            LaneWidth::Four => 4,
            LaneWidth::Eight => 8,
        }
    }
}

/// The candidates among the seeds `start, ..., end - 1` for which every
/// constraint of `cs` holds, in ascending order.
pub open spec fn matching_in(start: int, end: int, cs: Seq<Constraint>) -> Seq<StateCandidate>
    decreases end - start,
{
    if end <= start {
        Seq::empty()
    } else {
        let rest = matching_in(start, end - 1, cs);
        if all_hold(cs, seed_state((end - 1) as i32 as u64)) {
            rest.push(candidate((end - 1) as i32))
        } else {
            rest
        }
    }
}

/// Consecutive seed ranges give consecutive candidate lists.
pub proof fn lemma_matching_split(a: int, b: int, c: int, cs: Seq<Constraint>)
    requires
        a <= b <= c,
    ensures
        matching_in(a, b, cs) + matching_in(b, c, cs) == matching_in(a, c, cs),
    decreases c - b,
{
    if c == b {
        assert(matching_in(a, b, cs) + Seq::<StateCandidate>::empty() =~= matching_in(a, b, cs));
    } else {
        lemma_matching_split(a, b, c - 1, cs);
        let x = candidate((c - 1) as i32);
        assert((matching_in(a, b, cs) + matching_in(b, c - 1, cs)).push(x) =~= matching_in(a, b, cs)
            + matching_in(b, c - 1, cs).push(x));
    }
}

/// Cross-engine equivalence: over any seed range, the candidates for which
/// every constraint of the observations holds, tested in their given order
/// as the lane engine tests them, are the candidates that the scalar engine
/// finds.
pub proof fn lemma_engines_agree(data_points: Seq<DataPoint>, start: int, end: int)
    ensures
        matching_in(start, end, constraint_seq(data_points)) == candidates_in(start, end, data_points),
    decreases end - start,
{
    if end > start {
        lemma_engines_agree(data_points, start, end - 1);
        lemma_constraints_match(constraint_seq(data_points), data_points, (end - 1) as i32);
    }
}

/// `(ah*w + al) * (bh*w + bl)` expanded.
proof fn lemma_expand_halves(ah: int, al: int, bh: int, bl: int, w: int)
    ensures
        (ah * w + al) * (bh * w + bl) == (w * w) * (ah * bh) + (al * bl + (al * bh + ah * bl) * w),
{
    let b = bh * w + bl;
    assert((ah * w + al) * b == (ah * w) * b + al * b) by (nonlinear_arith);
    assert((ah * w) * b == (ah * w) * (bh * w) + (ah * w) * bl) by (nonlinear_arith)
        requires
            b == bh * w + bl,
    ;
    assert(al * b == al * (bh * w) + al * bl) by (nonlinear_arith)
        requires
            b == bh * w + bl,
    ;
    assert((ah * w) * (bh * w) == (w * w) * (ah * bh)) by (nonlinear_arith);
    assert((ah * w) * bl == (ah * bl) * w) by (nonlinear_arith);
    assert(al * (bh * w) == (al * bh) * w) by (nonlinear_arith);
    assert((al * bh) * w + (ah * bl) * w == (al * bh + ah * bl) * w) by (nonlinear_arith);
}

/// A product of two numbers split into 32-bit halves, modulo 2^64, keeps
/// only the low-by-low product and the cross products.
proof fn lemma_split_product(a: int, b: int, ah: int, al: int, bh: int, bl: int)
    requires
        a == ah * 0x1_0000_0000 + al,
        b == bh * 0x1_0000_0000 + bl,
    ensures
        (a * b) % modulus() == (al * bl + (al * bh + ah * bl) * 0x1_0000_0000) % modulus(),
{
    let w = 0x1_0000_0000int;
    let x = al * bl + (al * bh + ah * bl) * w;
    lemma_expand_halves(ah, al, bh, bl, w);
    assert(w * w == modulus());
    lemma_mod_multiples_vanish(ah * bh, x, modulus());
}

/// 64-bit multiplication modulo 2^64 from three 32-by-32-bit partial
/// products, for vector units that lack a 64-bit lane multiply:
/// `lo*lo + ((lo*hi + hi*lo) << 32)`.
pub fn mul_epi64(a: u64, b: u64) -> (r: u64)
    ensures
        r as int == mul_mod(a as int, b as int),
{
    let a_lo = a & 0xffff_ffff;
    let a_hi = a >> 32u64;
    let b_lo = b & 0xffff_ffff;
    let b_hi = b >> 32u64;
    assert(a_lo < 0x1_0000_0000 && a_hi < 0x1_0000_0000 && a == a_hi * 0x1_0000_0000 + a_lo) by (bit_vector)
        requires
            a_lo == a & 0xffff_ffff,
            a_hi == a >> 32u64,
    ;
    assert(b_lo < 0x1_0000_0000 && b_hi < 0x1_0000_0000 && b == b_hi * 0x1_0000_0000 + b_lo) by (bit_vector)
        requires
            b_lo == b & 0xffff_ffff,
            b_hi == b >> 32u64,
    ;
    assert(a_lo * b_lo < 0x1_0000_0000_0000_0000 && a_lo * b_hi < 0x1_0000_0000_0000_0000 && a_hi * b_lo
        < 0x1_0000_0000_0000_0000) by (nonlinear_arith)
        requires
            a_lo < 0x1_0000_0000,
            a_hi < 0x1_0000_0000,
            b_lo < 0x1_0000_0000,
            b_hi < 0x1_0000_0000,
    ;
    let lo_lo = a_lo * b_lo;
    let lo_hi = a_lo * b_hi;
    let hi_lo = a_hi * b_lo;
    let mid = add64(lo_hi, hi_lo);
    let mid_shifted = mid << 32u64;
    assert(mid_shifted == (mid * 0x1_0000_0000) % 0x1_0000_0000_0000_0000) by (bit_vector)
        requires
            mid_shifted == mid << 32u64,
    ;
    let r = add64(lo_lo, mid_shifted);
    proof {
        lemma_split_product(a as int, b as int, a_hi as int, a_lo as int, b_hi as int, b_lo as int);
        lemma_mul_mod_noop_left(lo_hi + hi_lo, 0x1_0000_0000int, modulus());
        lemma_add_mod_noop(lo_lo as int, mid * 0x1_0000_0000int, modulus());
        lemma_add_mod_noop(lo_lo as int, (lo_hi + hi_lo) * 0x1_0000_0000int, modulus());
    }
    r
}

/// The states that the seeds `seeds` start from, lane by lane, computed with
/// the partial-product multiply.
pub fn compute_initial_states(seeds: &[i32]) -> (r: Vec<u64>)
    ensures
        r@.len() == seeds@.len(),
        forall|i: int| 0 <= i < seeds@.len() ==> #[trigger] r@[i] == seed_state(seeds@[i] as u64),
{
    let mut r: Vec<u64> = Vec::new();
    let mut i: usize = 0;
    while i < seeds.len()
        invariant
            i <= seeds@.len(),
            r@.len() == i,
            forall|j: int| 0 <= j < i ==> #[trigger] r@[j] == seed_state(seeds@[j] as u64),
        decreases seeds@.len() - i,
    {
        let s = seeds[i] as u64;
        r.push(sub_initial_offset(mul_epi64(s, MULTIPLIER)));
        i = i + 1;
    }
    r
}

/// Moves every lane `delta` steps forward; the jump coefficients are
/// computed once and shared by all lanes.
pub fn advance_states(states: &mut Vec<u64>, delta: u64)
    ensures
        final(states)@.len() == old(states)@.len(),
        forall|i: int| 0 <= i < old(states)@.len() ==> #[trigger] final(states)@[i] == steps(old(states)@[i], delta as nat),
{
    let (m, p) = jump_coefficients(delta);
    let ghost before = states@;
    let mut i: usize = 0;
    while i < states.len()
        invariant
            i <= states@.len(),
            states@.len() == before.len(),
            forall|x: u64| #[trigger] apply_affine((m as int, p as int), x as int) == steps(x, delta as nat) as int,
            forall|j: int| 0 <= j < i ==> #[trigger] states@[j] == steps(before[j], delta as nat),
            forall|j: int| i <= j < states@.len() ==> #[trigger] states@[j] == before[j],
        decreases states@.len() - i,
    {
        let x = states[i];
        let y = add64(mul_epi64(m, x), p);
        proof {
            assert(apply_affine((m as int, p as int), x as int) == steps(x, delta as nat) as int);
        }
        states.set(i, y);
        i = i + 1;
    }
}

/// The draw of each lane's state: xorshift high, then a per-lane rotation
/// done as a pair of shifts joined by `|`.
pub fn pcg_output_function_lanes(states: &[u64]) -> (r: Vec<u32>)
    ensures
        r@.len() == states@.len(),
        forall|i: int| 0 <= i < states@.len() ==> #[trigger] r@[i] == output_spec(states@[i]),
{
    let mut r: Vec<u32> = Vec::new();
    let mut i: usize = 0;
    while i < states.len()
        invariant
            i <= states@.len(),
            r@.len() == i,
            forall|j: int| 0 <= j < i ==> #[trigger] r@[j] == output_spec(states@[j]),
        decreases states@.len() - i,
    {
        let s = states[i];
        let rot = ((s >> 59u64) & 0x1f) as u32;
        let xsh = (((s >> 18u64) ^ s) >> 27u64) as u32;
        assert(rot == (s >> 59u64) as u32 && rot < 32) by (bit_vector)
            requires
                rot == ((s >> 59u64) & 0x1f) as u32,
        ;
        let v = if rot == 0 {
            xsh
        } else {
            (xsh >> rot) | (xsh << (32 - rot))
        };
        assert(v == rotr32(xsh, rot));
        r.push(v);
        i = i + 1;
    }
    r
}

/// Clears the lanes whose draw lies outside the range of `c`.
pub fn check_consistency_lanes(values: &[u32], c: &Constraint, alive: &mut Vec<bool>)
    requires
        old(alive)@.len() == values@.len(),
    ensures
        final(alive)@.len() == old(alive)@.len(),
        forall|i: int| 0 <= i < values@.len() ==> #[trigger] final(alive)@[i] == (old(alive)@[i] && c.min_u32
            <= values@[i] && values@[i] <= c.max_u32),
{
    let ghost before = alive@;
    let mut i: usize = 0;
    while i < values.len()
        invariant
            i <= values@.len(),
            alive@.len() == values@.len(),
            before.len() == values@.len(),
            forall|j: int| 0 <= j < i ==> #[trigger] alive@[j] == (before[j] && c.min_u32 <= values@[j]
                && values@[j] <= c.max_u32),
            forall|j: int| i <= j < alive@.len() ==> #[trigger] alive@[j] == before[j],
        decreases values@.len() - i,
    {
        let v = values[i];
        let keep = alive[i] && v >= c.min_u32 && v <= c.max_u32;
        alive.set(i, keep);
        i = i + 1;
    }
}

/// Whether any lane is still alive.
fn any_alive(alive: &Vec<bool>) -> (r: bool)
    ensures
        r == exists|i: int| 0 <= i < alive@.len() && alive@[i],
{
    let mut i: usize = 0;
    while i < alive.len()
        invariant
            i <= alive@.len(),
            forall|j: int| 0 <= j < i ==> !alive@[j],
        decreases alive@.len() - i,
    {
        if alive[i] {
            return true;
        }
        i = i + 1;
    }
    false
}

/// Tests every lane's starting state against the constraints, in their
/// given order; stops early once every lane has failed.
pub fn validate_seeds_lanes(initial_states: &[u64], cs: &[Constraint]) -> (r: Vec<bool>)
    ensures
        r@.len() == initial_states@.len(),
        forall|i: int| 0 <= i < initial_states@.len() ==> #[trigger] r@[i] == all_hold(cs@, initial_states@[i]),
{
    let n = initial_states.len();
    let mut alive: Vec<bool> = Vec::new();
    let mut i: usize = 0;
    while i < n
        invariant
            i <= n == initial_states@.len(),
            alive@.len() == i,
            forall|j: int| 0 <= j < i ==> alive@[j],
        decreases n - i,
    {
        alive.push(true);
        i = i + 1;
    }
    let mut k: usize = 0;
    let mut live = true;
    while k < cs.len() && live
        invariant
            k <= cs@.len(),
            n == initial_states@.len(),
            alive@.len() == n,
            forall|j: int| 0 <= j < n ==> #[trigger] alive@[j] == (forall|t: int| 0 <= t < k ==> #[trigger] holds(cs@[t], initial_states@[j])),
            !live ==> forall|j: int| 0 <= j < n ==> !alive@[j],
        decreases cs@.len() - k,
    {
        let c = cs[k];
        let mut states: Vec<u64> = Vec::new();
        let mut j: usize = 0;
        while j < n
            invariant
                j <= n == initial_states@.len(),
                states@ == initial_states@.take(j as int),
            decreases n - j,
        {
            states.push(initial_states[j]);
            proof {
                assert(initial_states@.take(j as int + 1) =~= initial_states@.take(j as int).push(initial_states@[j as int]));
            }
            j = j + 1;
        }
        proof {
            assert(initial_states@.take(n as int) =~= initial_states@);
        }
        if c.offset > 0 {
            advance_states(&mut states, c.offset - 1);
        }
        let values = pcg_output_function_lanes(states.as_slice());
        let ghost alive0 = alive@;
        check_consistency_lanes(values.as_slice(), &c, &mut alive);
        proof {
            assert forall|j: int| 0 <= j < n implies #[trigger] alive@[j] == (forall|t: int| 0 <= t < k + 1 ==> #[trigger] holds(cs@[t], initial_states@[j])) by {
                assert(values@[j] == output_spec(states@[j]));
                assert(holds(cs@[k as int], initial_states@[j]) == (c.min_u32 <= values@[j] && values@[j] <= c.max_u32));
                if alive@[j] {
                    assert forall|t: int| 0 <= t < k + 1 implies #[trigger] holds(cs@[t], initial_states@[j]) by {
                        if t < k {
                            assert(alive0[j]);
                        }
                    }
                }
                if !alive@[j] && alive0[j] {
                    assert(!holds(cs@[k as int], initial_states@[j]));
                }
            }
        }
        live = any_alive(&alive);
        k = k + 1;
    }
    proof {
        assert forall|j: int| 0 <= j < n implies #[trigger] alive@[j] == all_hold(cs@, initial_states@[j]) by {
            if k < cs@.len() {
                assert(!alive@[j]);
                let t = choose|t: int| 0 <= t < k && !holds(cs@[t], initial_states@[j]);
                assert(!all_hold(cs@, initial_states@[j]));
            } else {
                if alive@[j] {
                    assert forall|t: int| 0 <= t < cs@.len() implies #[trigger] holds(cs@[t], initial_states@[j]) by {}
                }
            }
        }
    }
    alive
}

/// Tests the seeds `start, ..., end - 1` in batches of `lanes` seeds (the
/// last batch may be shorter) and returns those for which every constraint
/// holds, in ascending order.
pub fn search_chunk(cs: &[Constraint], start: i64, end: i64, lanes: usize) -> (r: Vec<StateCandidate>)
    requires
        i32::MIN <= start <= end <= i32::MAX as int + 1,
        1 <= lanes <= i64::MAX,
    ensures
        r@ == matching_in(start as int, end as int, cs@),
{
    let mut out: Vec<StateCandidate> = Vec::new();
    let mut base = start;
    while base < end
        invariant
            start <= base <= end <= i32::MAX as int + 1,
            i32::MIN <= start,
            1 <= lanes <= i64::MAX,
            out@ == matching_in(start as int, base as int, cs@),
        decreases end - base,
    {
        let n: i64 = if end - base < lanes as i64 {
            end - base
        } else {
            lanes as i64
        };
        let mut seeds: Vec<i32> = Vec::new();
        let mut j: i64 = 0;
        while j < n
            invariant
                0 <= j <= n,
                base + n <= end <= i32::MAX as int + 1,
                i32::MIN <= base,
                seeds@.len() == j,
                forall|t: int| 0 <= t < j ==> #[trigger] seeds@[t] as int == base + t,
            decreases n - j,
        {
            seeds.push((base + j) as i32);
            j = j + 1;
        }
        let states = compute_initial_states(seeds.as_slice());
        let valid = validate_seeds_lanes(states.as_slice(), cs);
        let mut i: usize = 0;
        while i < seeds.len()
            invariant
                i <= seeds@.len() == n,
                states@.len() == n,
                valid@.len() == n,
                base + n <= end <= i32::MAX as int + 1,
                i32::MIN <= start <= base,
                forall|t: int| 0 <= t < n ==> #[trigger] seeds@[t] as int == base + t,
                forall|t: int| 0 <= t < n ==> #[trigger] states@[t] == seed_state(seeds@[t] as u64),
                forall|t: int| 0 <= t < n ==> #[trigger] valid@[t] == all_hold(cs@, states@[t]),
                out@ == matching_in(start as int, base + i, cs@),
            decreases n - i,
        {
            let seed = seeds[i];
            proof {
                assert(seeds@[i as int] as int == base + i);
                assert((base + i + 1 - 1) as i32 == seed);
            }
            if valid[i] {
                out.push(StateCandidate { seed, state: states[i] });
            }
            i = i + 1;
        }
        base = base + n;
    }
    out
}

/// Runs `search_chunk` on each chunk on the worker pool.
///
/// Relies on rayon's `par_iter`, `map` and `collect` on a `Vec`: the
/// closure runs once on each chunk, and collecting an indexed parallel
/// iterator into a `Vec` keeps the order of the chunks.
#[verifier::external_body]
fn par_search_chunks(chunks: &Vec<(i64, i64)>, cs: &Vec<Constraint>, lanes: usize) -> (r: Vec<Vec<StateCandidate>>)
    requires
        1 <= lanes <= i64::MAX,
        forall|k: int| 0 <= k < chunks@.len() ==> i32::MIN <= #[trigger] chunks@[k].0 <= chunks@[k].1 <= i32::MAX as int + 1,
    ensures
        r@.len() == chunks@.len(),
        forall|k: int| 0 <= k < chunks@.len() ==> #[trigger] r@[k]@ == matching_in(chunks@[k].0 as int, chunks@[k].1 as int, cs@),
{
    chunks.par_iter().map(|c| search_chunk(cs.as_slice(), c.0, c.1, lanes)).collect()
}

/// Splits `[start, end)` into contiguous chunks of `PARALLEL_CHUNK` seeds
/// (the last may be shorter).
fn split_into_chunks(start: i64, end: i64) -> (r: Vec<(i64, i64)>)
    requires
        i32::MIN <= start <= end <= i32::MAX as int + 1,
    ensures
        forall|k: int| 0 <= k < r@.len() ==> start <= #[trigger] r@[k].0 <= r@[k].1 <= end,
        r@.len() == 0 ==> start == end,
        r@.len() > 0 ==> r@[0].0 == start && r@[r@.len() - 1].1 == end,
        forall|k: int| 0 <= k < r@.len() - 1 ==> #[trigger] r@[k].1 == r@[k + 1].0,
{
    let mut chunks: Vec<(i64, i64)> = Vec::new();
    let mut lo = start;
    while lo < end
        invariant
            start <= lo <= end <= i32::MAX as int + 1,
            i32::MIN <= start,
            forall|k: int| 0 <= k < chunks@.len() ==> start <= #[trigger] chunks@[k].0 <= chunks@[k].1 <= lo,
            chunks@.len() == 0 ==> lo == start,
            chunks@.len() > 0 ==> chunks@[0].0 == start && chunks@[chunks@.len() - 1].1 == lo,
            forall|k: int| 0 <= k < chunks@.len() - 1 ==> #[trigger] chunks@[k].1 == chunks@[k + 1].0,
        decreases end - lo,
    {
        let hi = if end - lo < PARALLEL_CHUNK {
            end
        } else {
            lo + PARALLEL_CHUNK
        };
        chunks.push((lo, hi));
        lo = hi;
    }
    chunks
}

/// Tests the seeds `start, ..., end - 1` against the observations, `width`
/// seeds per batch and many chunks at once on the worker pool, and returns
/// those for which every observation holds, in ascending order.
pub fn find_original_state_lanes(data_points: &[DataPoint], start: i64, end: i64, width: LaneWidth) -> (r: Vec<StateCandidate>)
    requires
        i32::MIN <= start <= end <= i32::MAX as int + 1,
    ensures
        r@ == matching_in(start as int, end as int, constraint_seq(data_points@)),
{
    let cs = constraints_of(data_points);
    let chunks = split_into_chunks(start, end);
    let lanes = width.lanes();
    let results = par_search_chunks(&chunks, &cs, lanes);
    let mut out: Vec<StateCandidate> = Vec::new();
    let mut k: usize = 0;
    while k < results.len()
        invariant
            results@.len() == chunks@.len(),
            k <= chunks@.len(),
            i32::MIN <= start <= end <= i32::MAX as int + 1,
            forall|t: int| 0 <= t < chunks@.len() ==> start <= #[trigger] chunks@[t].0 <= chunks@[t].1 <= end,
            chunks@.len() > 0 ==> chunks@[0].0 == start && chunks@[chunks@.len() - 1].1 == end,
            chunks@.len() == 0 ==> start == end,
            forall|t: int| 0 <= t < chunks@.len() - 1 ==> #[trigger] chunks@[t].1 == chunks@[t + 1].0,
            forall|t: int| 0 <= t < chunks@.len() ==> #[trigger] results@[t]@ == matching_in(chunks@[t].0 as int, chunks@[t].1 as int, cs@),
            k == 0 ==> out@ == Seq::<StateCandidate>::empty(),
            k > 0 ==> out@ == matching_in(start as int, chunks@[k - 1].1 as int, cs@),
        decreases chunks@.len() - k,
    {
        let ghost before = out@;
        let mut part = results[k].clone();
        out.append(&mut part);
        proof {
            if k == 0 {
                assert(out@ =~= matching_in(chunks@[0].0 as int, chunks@[0].1 as int, cs@));
            } else {
                assert(chunks@[k - 1].1 == chunks@[k as int].0);
                lemma_matching_split(start as int, chunks@[k as int].0 as int, chunks@[k as int].1 as int, cs@);
                assert(out@ =~= before + results@[k as int]@);
            }
        }
        k = k + 1;
    }
    proof {
        if chunks@.len() == 0 {
            assert(out@ =~= matching_in(start as int, end as int, cs@));
        }
    }
    out
}

/// Tests every seed of the signed 32-bit range against the observations
/// with the lane engine at `width`, or with the scalar engine where no
/// vector width is available. Every path returns the same candidates.
pub fn find_original_state_simd(data_points: &[DataPoint], width: Option<LaneWidth>) -> (r: Vec<StateCandidate>)
    ensures
        r@ == candidates_in(i32::MIN as int, i32::MAX as int + 1, data_points@),
{
    match width {
        Some(w) => {
            let r = find_original_state_lanes(data_points, i32::MIN as i64, i32::MAX as i64 + 1, w);
            proof {
                lemma_engines_agree(data_points@, i32::MIN as int, i32::MAX as int + 1);
            }
            r
        },
        None => find_original_state(data_points),
    }
}

} // verus!
