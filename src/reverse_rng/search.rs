use vstd::prelude::*;
use crate::reverse_rng::data_point::{DataPoint, StateCandidate};
use crate::rng::{output_spec, seed_state, steps, SggPcg};

verus! {

/// What the search reads of an observation: the step it was drawn at and
/// the inclusive range of raw draws consistent with it.
#[derive(Clone, Copy, Debug, PartialEq, Eq, Structural)]
pub struct Constraint {
    pub offset: u64,
    pub min_u32: u32,
    pub max_u32: u32,
}

/// The constraint an observation places on the draws.
pub open spec fn constraint_of(dp: DataPoint) -> Constraint {
    Constraint { offset: dp.offset, min_u32: dp.min_u32, max_u32: dp.max_u32 }
}

/// The draw made at step `offset` by a generator starting from state `s`:
/// the draw after advancing `offset - 1` steps (offset 0 reads the first
/// draw too).
pub open spec fn draw_at(s: u64, offset: u64) -> u32 {
    if offset > 0 {
        output_spec(steps(s, (offset - 1) as nat))
    } else {
        output_spec(s)
    }
}

/// Whether the draw that `c` speaks of, from state `s`, lies in its range.
pub open spec fn holds(c: Constraint, s: u64) -> bool {
    c.min_u32 <= draw_at(s, c.offset) <= c.max_u32
}

/// Whether every constraint of `cs` holds from state `s`.
pub open spec fn all_hold(cs: Seq<Constraint>, s: u64) -> bool {
    forall|i: int| 0 <= i < cs.len() ==> #[trigger] holds(cs[i], s)
}

/// Whether a generator seeded with `seed` meets every observation.
pub open spec fn seed_matches(seed: i32, dps: Seq<DataPoint>) -> bool {
    forall|i: int| 0 <= i < dps.len() ==> #[trigger] holds(constraint_of(dps[i]), seed_state(seed as u64))
}

/// The candidate for `seed`.
pub open spec fn candidate(seed: i32) -> StateCandidate {
    StateCandidate { seed, state: seed_state(seed as u64) }
}

/// The candidates among the seeds `start, ..., end - 1`, in ascending order.
pub open spec fn candidates_in(start: int, end: int, dps: Seq<DataPoint>) -> Seq<StateCandidate>
    decreases end - start,
{
    if end <= start {
        Seq::empty()
    } else {
        let rest = candidates_in(start, end - 1, dps);
        if seed_matches((end - 1) as i32, dps) {
            rest.push(candidate((end - 1) as i32))
        } else {
            rest
        }
    }
}

/// The constraints of a list of observations, in the same order.
pub open spec fn constraint_seq(dps: Seq<DataPoint>) -> Seq<Constraint> {
    dps.map_values(|d: DataPoint| constraint_of(d))
}

/// Number of raw draws consistent with a constraint: the smaller, the more
/// constraining.
pub open spec fn width(c: Constraint) -> int {
    if c.max_u32 >= c.min_u32 {
        c.max_u32 - c.min_u32 + 1
    } else {
        0
    }
}

/// The constraints of a list of observations, in the same order.
pub fn constraints_of(data_points: &[DataPoint]) -> (r: Vec<Constraint>)
    ensures
        r@ == constraint_seq(data_points@),
        r@.len() == data_points@.len(),
        forall|i: int| 0 <= i < r@.len() ==> #[trigger] r@[i] == constraint_of(data_points@[i]),
{
    let mut r: Vec<Constraint> = Vec::new();
    let mut i: usize = 0;
    while i < data_points.len()
        invariant
            i <= data_points@.len(),
            r@.len() == i,
            forall|j: int| 0 <= j < i ==> #[trigger] r@[j] == constraint_of(data_points@[j]),
        decreases data_points@.len() - i,
    {
        let dp = &data_points[i];
        r.push(Constraint { offset: dp.offset, min_u32: dp.min_u32, max_u32: dp.max_u32 });
        i = i + 1;
    }
    assert(r@ =~= constraint_seq(data_points@));
    r
}

/// The number of raw draws consistent with `c`.
pub fn constraint_strength(c: &Constraint) -> (r: u64)
    ensures
        r as int == width(*c),
{
    if c.max_u32 >= c.min_u32 {
        (c.max_u32 - c.min_u32) as u64 + 1
    } else {
        0
    }
}

/// Inserting into a sequence adds the element to its multiset.
proof fn lemma_insert_multiset(s: Seq<Constraint>, pos: int, x: Constraint)
    requires
        0 <= pos <= s.len(),
    ensures
        s.insert(pos, x).to_multiset() =~= s.to_multiset().insert(x),
{
    let t = s.insert(pos, x);
    s.insert_ensures(pos, x);
    assert(t.remove(pos) =~= s);
    t.to_multiset_ensures();
    assert(t.to_multiset().count(x) > 0) by {
        assert(t.contains(x)) by {
            assert(t[pos] == x);
        }
    }
}

/// Orders constraints by increasing width (most constraining first),
/// keeping the order of constraints of equal width.
pub fn sort_by_selectivity(cs: &Vec<Constraint>) -> (r: Vec<Constraint>)
    ensures
        r@.to_multiset() == cs@.to_multiset(),
        forall|i: int, j: int| 0 <= i < j < r@.len() ==> width(r@[i]) <= width(r@[j]),
{
    let mut sorted: Vec<Constraint> = Vec::new();
    let mut i: usize = 0;
    proof {
        assert(sorted@ =~= cs@.take(0));
    }
    while i < cs.len()
        invariant
            i <= cs@.len(),
            sorted@.to_multiset() == cs@.take(i as int).to_multiset(),
            forall|a: int, b: int| 0 <= a < b < sorted@.len() ==> width(sorted@[a]) <= width(sorted@[b]),
        decreases cs@.len() - i,
    {
        let x = cs[i];
        let wx = constraint_strength(&x);
        let mut pos: usize = 0;
        let mut found = false;
        while !found && pos < sorted.len()
            invariant
                pos <= sorted@.len(),
                wx as int == width(x),
                forall|a: int| 0 <= a < pos ==> width(#[trigger] sorted@[a]) <= width(x),
                found ==> pos < sorted@.len() && width(sorted@[pos as int]) > width(x),
            decreases sorted@.len() - pos + if found { 0int } else { 1int },
        {
            if constraint_strength(&sorted[pos]) <= wx {
                pos = pos + 1;
            } else {
                found = true;
            }
        }
        let ghost before = sorted@;
        sorted.insert(pos, x);
        proof {
            lemma_insert_multiset(before, pos as int, x);
            assert(cs@.take(i as int + 1) =~= cs@.take(i as int).push(x));
            cs@.take(i as int).to_multiset_ensures();
            before.insert_ensures(pos as int, x);
            assert forall|a: int, b: int| 0 <= a < b < sorted@.len() implies width(sorted@[a]) <= width(
                sorted@[b],
            ) by {
                if b < pos {
                } else if b == pos {
                } else if a < pos {
                    assert(sorted@[b] == before[b - 1]);
                    if pos < before.len() {
                        assert(width(before[pos as int]) > width(x));
                        assert(width(before[pos as int]) <= width(before[b - 1]));
                    }
                } else if a == pos {
                    assert(sorted@[b] == before[b - 1]);
                    assert(width(before[pos as int]) > width(x));
                    if b - 1 > pos {
                        assert(width(before[pos as int]) <= width(before[b - 1]));
                    }
                } else {
                    assert(sorted@[a] == before[a - 1]);
                    assert(sorted@[b] == before[b - 1]);
                }
            }
        }
        i = i + 1;
    }
    proof {
        assert(cs@.take(cs@.len() as int) =~= cs@);
    }
    sorted
}

/// The draw made at step `offset` by a generator starting from `state`.
pub fn draw_at_offset(state: u64, offset: u64) -> (r: u32)
    ensures
        r == draw_at(state, offset),
{
    let mut g = SggPcg::from_state(state);
    if offset > 0 {
        g.advance(offset - 1);
    }
    g.next_u32()
}

/// Whether every constraint of `cs` holds for a generator seeded with
/// `seed`, checked in order and given up at the first that fails.
pub fn constraints_hold(seed: i32, cs: &[Constraint]) -> (r: bool)
    ensures
        r == all_hold(cs@, seed_state(seed as u64)),
{
    let state = SggPcg::new(seed as u64).state();
    let mut i: usize = 0;
    while i < cs.len()
        invariant
            i <= cs@.len(),
            state == seed_state(seed as u64),
            forall|j: int| 0 <= j < i ==> #[trigger] holds(cs@[j], state),
        decreases cs@.len() - i,
    {
        let c = cs[i];
        let v = draw_at_offset(state, c.offset);
        if !(v >= c.min_u32 && v <= c.max_u32) {
            assert(!holds(cs@[i as int], state));
            return false;
        }
        i = i + 1;
    }
    true
}

/// A first pass over the (at most three) most constraining constraints:
/// `false` as soon as one of them fails for `seed`.
pub fn quick_constraint_check(seed: i32, cs: &[Constraint]) -> (r: bool)
    ensures
        r == (forall|i: int| 0 <= i < cs@.len() && i < 3 ==> #[trigger] holds(cs@[i], seed_state(seed as u64))),
{
    let num_to_check: usize = if cs.len() < 3 {
        cs.len()
    } else {
        3
    };
    let state = SggPcg::new(seed as u64).state();
    let mut i: usize = 0;
    while i < num_to_check
        invariant
            i <= num_to_check,
            num_to_check == if cs@.len() < 3 { cs@.len() } else { 3 },
            state == seed_state(seed as u64),
            forall|j: int| 0 <= j < i ==> #[trigger] holds(cs@[j], state),
        decreases num_to_check - i,
    {
        let c = cs[i];
        let v = draw_at_offset(state, c.offset);
        if !(v >= c.min_u32 && v <= c.max_u32) {
            assert(!holds(cs@[i as int], state));
            return false;
        }
        i = i + 1;
    }
    true
}

/// Whether a generator seeded with `seed` meets every observation.
pub fn is_valid_seed(seed: i32, data_points: &[DataPoint]) -> (r: bool)
    ensures
        r == seed_matches(seed, data_points@),
{
    let cs = constraints_of(data_points);
    let r = constraints_hold(seed, cs.as_slice());
    proof {
        let s = seed_state(seed as u64);
        if r {
            assert forall|i: int| 0 <= i < data_points@.len() implies #[trigger] holds(
                constraint_of(data_points@[i]),
                s,
            ) by {
                assert(cs@[i] == constraint_of(data_points@[i]));
            }
        } else {
            let j = choose|j: int| 0 <= j < cs@.len() && !holds(cs@[j], s);
            assert(cs@[j] == constraint_of(data_points@[j]));
        }
    }
    r
}

/// Constraints with the same multiset hold or fail together.
pub proof fn lemma_same_multiset_all_hold(a: Seq<Constraint>, b: Seq<Constraint>, s: u64)
    requires
        a.to_multiset() == b.to_multiset(),
    ensures
        all_hold(a, s) == all_hold(b, s),
{
    a.to_multiset_ensures();
    b.to_multiset_ensures();
    if all_hold(a, s) {
        assert forall|i: int| 0 <= i < b.len() implies #[trigger] holds(b[i], s) by {
            assert(b.contains(b[i]));
            assert(b.to_multiset().count(b[i]) > 0);
            assert(a.to_multiset().count(b[i]) > 0);
            assert(a.contains(b[i]));
            let j = choose|j: int| 0 <= j < a.len() && a[j] == b[i];
            assert(holds(a[j], s));
        }
    }
    if all_hold(b, s) {
        assert forall|i: int| 0 <= i < a.len() implies #[trigger] holds(a[i], s) by {
            assert(a.contains(a[i]));
            assert(a.to_multiset().count(a[i]) > 0);
            assert(b.to_multiset().count(a[i]) > 0);
            assert(b.contains(a[i]));
            let j = choose|j: int| 0 <= j < b.len() && b[j] == a[i];
            assert(holds(b[j], s));
        }
    }
}

/// The constraints of the observations hold exactly where the seed meets
/// the observations.
pub proof fn lemma_constraints_match(cs: Seq<Constraint>, dps: Seq<DataPoint>, seed: i32)
    requires
        cs == constraint_seq(dps),
    ensures
        all_hold(cs, seed_state(seed as u64)) == seed_matches(seed, dps),
{
    let s = seed_state(seed as u64);
    if all_hold(cs, s) {
        assert forall|i: int| 0 <= i < dps.len() implies #[trigger] holds(constraint_of(dps[i]), s) by {
            assert(cs[i] == constraint_of(dps[i]));
        }
    }
    if seed_matches(seed, dps) {
        assert forall|i: int| 0 <= i < cs.len() implies #[trigger] holds(cs[i], s) by {
            assert(cs[i] == constraint_of(dps[i]));
        }
    }
}

/// The constraints of `data_points`, most constraining first, and what
/// they decide.
fn sorted_constraints(data_points: &[DataPoint]) -> (r: Vec<Constraint>)
    ensures
        forall|seed: i32| #[trigger] all_hold(r@, seed_state(seed as u64)) == seed_matches(seed, data_points@),
{
    let cs = constraints_of(data_points);
    let sorted = sort_by_selectivity(&cs);
    proof {
        assert forall|seed: i32| #[trigger] all_hold(sorted@, seed_state(seed as u64)) == seed_matches(
            seed,
            data_points@,
        ) by {
            lemma_same_multiset_all_hold(sorted@, cs@, seed_state(seed as u64));
            lemma_constraints_match(cs@, data_points@, seed);
        }
    }
    sorted
}

/// Tests the seeds `start, ..., end - 1` one at a time against the
/// observations, most constraining first, and returns those that meet them
/// all, in ascending order.
pub fn find_original_state_in_range(data_points: &[DataPoint], start: i64, end: i64) -> (r: Vec<StateCandidate>)
    requires
        i32::MIN <= start <= end <= i32::MAX as int + 1,
    ensures
        r@ == candidates_in(start as int, end as int, data_points@),
{
    let sorted = sorted_constraints(data_points);
    let mut out: Vec<StateCandidate> = Vec::new();
    let mut seed = start;
    while seed < end
        invariant
            start <= seed <= end <= i32::MAX as int + 1,
            i32::MIN <= start,
            out@ == candidates_in(start as int, seed as int, data_points@),
            forall|sd: i32| #[trigger] all_hold(sorted@, seed_state(sd as u64)) == seed_matches(sd, data_points@),
        decreases end - seed,
    {
        let s32 = seed as i32;
        let ok = quick_constraint_check(s32, sorted.as_slice()) && constraints_hold(s32, sorted.as_slice());
        proof {
            assert(all_hold(sorted@, seed_state(s32 as u64)) == seed_matches(s32, data_points@));
            assert(ok == seed_matches(s32, data_points@));
            assert(((seed + 1) - 1) as i32 == s32);
        }
        if ok {
            let state = SggPcg::new(s32 as u64).state();
            out.push(StateCandidate { seed: s32, state });
        }
        seed = seed + 1;
    }
    out
}

/// Tests every seed of the signed 32-bit range against the observations and
/// returns those that meet them all, in ascending order: none when the
/// observations are unsatisfiable, one when they pin the seed down.
pub fn find_original_state(data_points: &[DataPoint]) -> (r: Vec<StateCandidate>)
    ensures
        r@ == candidates_in(i32::MIN as int, i32::MAX as int + 1, data_points@),
{
    find_original_state_in_range(data_points, i32::MIN as i64, i32::MAX as i64 + 1)
}

} // verus!
