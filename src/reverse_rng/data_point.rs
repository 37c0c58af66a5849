use vstd::prelude::*;
use vstd::arithmetic::div_mod::{
    lemma_div_pos_is_pos,
    lemma_fundamental_div_mod,
    lemma_fundamental_div_mod_converse_div,
    lemma_multiply_divide_le,
    lemma_multiply_divide_lt,
};

verus! {

/// Number of decimal places of the fixed-point scale that decimals are
/// compared on.
pub const NANO_DIGITS: u32 = 9;

/// Largest magnitude of a decimal's mantissa.
pub const MAX_MANTISSA: i64 = 1_000_000_000_000_000_000;

/// Half of one hundredth (the rounding tolerance of a two-decimal
/// observation) on the fixed-point scale.
pub const HALF_HUNDREDTH: i128 = 5_000_000;

/// `10^k`.
pub open spec fn pow10(k: nat) -> int
    decreases k,
{
    if k == 0 {
        1
    } else {
        10 * pow10((k - 1) as nat)
    }
}

/// The largest raw draw, `u32::MAX`, as an integer.
pub open spec fn raw_max() -> int {
    0xffff_ffff
}

/// Bound on the magnitude of the fixed-point numerators handled here.
pub open spec fn nano_bound() -> int {
    4_000_000_000_000_000_000_000_000_000
}

/// A decimal number `mantissa / 10^scale`, held exactly.
#[derive(Clone, Copy, Debug, PartialEq, Eq, Structural)]
pub struct Decimal {
    pub mantissa: i64,
    pub scale: u32,
}

impl Decimal {
    /// At most nine decimal places, and a mantissa of at most 10^18 in
    /// magnitude.
    pub open spec fn wf(&self) -> bool {
        &&& self.scale <= NANO_DIGITS
        &&& -MAX_MANTISSA <= self.mantissa <= MAX_MANTISSA
    }

    /// The value in units of 10^-9.
    pub open spec fn nano(&self) -> int {
        self.mantissa * pow10((NANO_DIGITS - self.scale) as nat)
    }

    /// The decimal `mantissa / 10^scale`.
    pub fn new(mantissa: i64, scale: u32) -> (r: Decimal)
        requires
            scale <= NANO_DIGITS,
            -MAX_MANTISSA <= mantissa <= MAX_MANTISSA,
        ensures
            r.wf(),
            r.mantissa == mantissa,
            r.scale == scale,
    {
        Decimal { mantissa, scale }
    }

    /// The value in units of 10^-9.
    pub fn to_nano(&self) -> (r: i128)
        requires
            self.wf(),
        ensures
            r as int == self.nano(),
            -1_000_000_000_000_000_000_000_000_000 <= r <= 1_000_000_000_000_000_000_000_000_000,
    {
        let p = pow10_exec(NANO_DIGITS - self.scale);
        let m = self.mantissa as i128;
        proof {
            let pi = p as int;
            let mi = m as int;
            assert(-1_000_000_000_000_000_000_000_000_000 <= mi * pi <= 1_000_000_000_000_000_000_000_000_000)
                by (nonlinear_arith)
                requires
                    0 < pi <= 1_000_000_000,
                    -1_000_000_000_000_000_000 <= mi <= 1_000_000_000_000_000_000,
            ;
        }
        m * p
    }
}

/// `10^k` for `k <= 9`.
fn pow10_exec(k: u32) -> (r: i128)
    requires
        k <= 9,
    ensures
        r as int == pow10(k as nat),
        0 < r <= 1_000_000_000,
{
    let mut r: i128 = 1;
    let mut i: u32 = 0;
    proof {
        reveal_with_fuel(pow10, 10);
    }
    while i < k
        invariant
            i <= k <= 9,
            r as int == pow10(i as nat),
            r >= 1,
            r * pow10((9 - i) as nat) == 1_000_000_000,
        decreases k - i,
    {
        proof {
            let c = pow10((9 - i - 1) as nat);
            assert(pow10((9 - i) as nat) == 10 * c);
            assert(pow10((i + 1) as nat) == 10 * pow10(i as nat));
            assert(r * (10 * c) == (r * 10) * c) by (nonlinear_arith);
            lemma_pow10_pos((9 - i - 1) as nat);
            assert(r * 10 <= 1_000_000_000) by (nonlinear_arith)
                requires
                    (r * 10) * c == 1_000_000_000,
                    c >= 1,
                    r >= 1,
            ;
        }
        r = r * 10;
        i = i + 1;
    }
    proof {
        lemma_pow10_pos((9 - i) as nat);
        lemma_pow10_pos(i as nat);
        assert(r <= 1_000_000_000) by (nonlinear_arith)
            requires
                r * pow10((9 - i) as nat) == 1_000_000_000,
                pow10((9 - i) as nat) >= 1,
                r >= 1,
        ;
    }
    r
}

proof fn lemma_pow10_pos(k: nat)
    ensures
        pow10(k) >= 1,
    decreases k,
{
    if k > 0 {
        lemma_pow10_pos((k - 1) as nat);
    }
}

/// `x` clamped to `[0, den]`.
pub open spec fn clamp(x: int, den: int) -> int {
    if x < 0 {
        0
    } else if x > den {
        den
    } else {
        x
    }
}

/// The raw draws whose fraction `raw / u32::MAX` lies in
/// `[lo / den, hi / den]`, after clamping both fractions to `[0, 1]`: the
/// ceiling of the scaled lower bound and the floor of the scaled upper
/// bound. When no integer lies between them, both bounds collapse to the
/// integer nearest the scaled midpoint (halves round up): the single best
/// guess, with nothing to tell it from a wider range.
pub open spec fn raw_range(lo: int, hi: int, den: int) -> (u32, u32) {
    let cl = clamp(lo, den);
    let ch = clamp(hi, den);
    let a = (raw_max() * cl + den - 1) / den;
    let b = (raw_max() * ch) / den;
    if a <= b {
        (a as u32, b as u32)
    } else {
        let m = (raw_max() * (cl + ch) + den) / (2 * den);
        (m as u32, m as u32)
    }
}

/// The raw range of an observation `observed` of a value scaled into
/// `[range_min, range_max]` and rounded to two decimals: the draws whose
/// scaled value lies within half a hundredth of `observed`.
pub open spec fn observed_raw_range(range_min: Decimal, range_max: Decimal, observed: Decimal) -> (u32, u32) {
    raw_range(
        observed.nano() - HALF_HUNDREDTH - range_min.nano(),
        observed.nano() + HALF_HUNDREDTH - range_min.nano(),
        range_max.nano() - range_min.nano(),
    )
}

/// The raw range of an observation known to lie in
/// `[lower_bound, upper_bound]` out of `[0, total_range]`.
pub open spec fn exact_raw_range(total_range: Decimal, lower_bound: Decimal, upper_bound: Decimal) -> (u32, u32) {
    raw_range(lower_bound.nano(), upper_bound.nano(), total_range.nano())
}

/// The three candidate bounds of `raw_range` are raw draws.
proof fn lemma_raw_range_bounds(cl: int, ch: int, den: int)
    requires
        0 < den,
        0 <= cl <= den,
        0 <= ch <= den,
    ensures
        0 <= (raw_max() * cl + den - 1) / den <= raw_max(),
        0 <= (raw_max() * ch) / den <= raw_max(),
        0 <= (raw_max() * (cl + ch) + den) / (2 * den) <= raw_max(),
{
    let u = raw_max();
    assert(0 <= u * cl <= den * u) by (nonlinear_arith)
        requires
            0 <= cl <= den,
            u == raw_max(),
    ;
    assert(0 <= u * ch <= den * u) by (nonlinear_arith)
        requires
            0 <= ch <= den,
            u == raw_max(),
    ;
    assert(0 <= u * (cl + ch) <= (2 * den) * u) by (nonlinear_arith)
        requires
            0 <= cl <= den,
            0 <= ch <= den,
            u == raw_max(),
    ;
    assert(u * cl + den - 1 < den * (u + 1)) by (nonlinear_arith)
        requires
            u * cl <= den * u,
            0 < den,
    ;
    lemma_div_pos_is_pos(u * cl + den - 1, den);
    lemma_multiply_divide_lt(u * cl + den - 1, den, u + 1);
    lemma_div_pos_is_pos(u * ch, den);
    lemma_multiply_divide_le(u * ch, den, u);
    assert(u * (cl + ch) + den < (2 * den) * (u + 1)) by (nonlinear_arith)
        requires
            u * (cl + ch) <= (2 * den) * u,
            0 < den,
    ;
    lemma_div_pos_is_pos(u * (cl + ch) + den, 2 * den);
    lemma_multiply_divide_lt(u * (cl + ch) + den, 2 * den, u + 1);
}

/// `x` clamped to `[0, den]`.
fn clamp_exec(x: i128, den: i128) -> (r: i128)
    ensures
        r as int == clamp(x as int, den as int),
{
    if x < 0 {
        0
    } else if x > den {
        den
    } else {
        x
    }
}

/// The raw range of the fraction interval `[lo / den, hi / den]`.
fn raw_bounds(lo: i128, hi: i128, den: i128) -> (r: (u32, u32))
    requires
        0 < den <= nano_bound(),
        -nano_bound() <= lo <= nano_bound(),
        -nano_bound() <= hi <= nano_bound(),
    ensures
        r == raw_range(lo as int, hi as int, den as int),
{
    let cl = clamp_exec(lo, den);
    let ch = clamp_exec(hi, den);
    let u: i128 = 0xffff_ffff;
    proof {
        lemma_raw_range_bounds(cl as int, ch as int, den as int);
        assert(u * cl <= u * nano_bound()) by (nonlinear_arith)
            requires
                0 <= cl <= nano_bound(),
                u == raw_max(),
        ;
        assert(u * (cl + ch) <= u * (2 * nano_bound())) by (nonlinear_arith)
            requires
                0 <= cl <= nano_bound(),
                0 <= ch <= nano_bound(),
                u == raw_max(),
        ;
    }
    let a = (u * cl + den - 1) / den;
    let b = (u * ch) / den;
    if a <= b {
        (a as u32, b as u32)
    } else {
        let m = (u * (cl + ch) + den) / (2 * den);
        (m as u32, m as u32)
    }
}

/// An observation of one draw: the step `offset` at which it was drawn and
/// the inclusive range `[min_u32, max_u32]` of raw draws consistent with it.
#[derive(Clone, Debug)]
pub struct DataPoint {
    pub offset: u64,
    pub name: String,
    pub min_u32: u32,
    pub max_u32: u32,
}

/// A seed that meets every observation, with the state it seeds.
#[derive(Clone, Copy, Debug, PartialEq, Eq, Structural)]
pub struct StateCandidate {
    pub seed: i32,
    pub state: u64,
}

impl DataPoint {
    /// The raw draws that, scaled into `[range_min, range_max]` and rounded
    /// to two decimals, give `observed`.
    pub fn calculate_observed_u32_range(range_min: Decimal, range_max: Decimal, observed: Decimal) -> (r: (u32, u32))
        requires
            range_min.wf(),
            range_max.wf(),
            observed.wf(),
            range_min.nano() < range_max.nano(),
        ensures
            r == observed_raw_range(range_min, range_max, observed),
    {
        let lo = range_min.to_nano();
        let hi = range_max.to_nano();
        let obs = observed.to_nano();
        raw_bounds(obs - HALF_HUNDREDTH - lo, obs + HALF_HUNDREDTH - lo, hi - lo)
    }

    /// The raw draws whose scaled value lies in `[lower_bound, upper_bound]`
    /// out of `[0, total_range]`.
    pub fn calculate_range_u32_range(total_range: Decimal, lower_bound: Decimal, upper_bound: Decimal) -> (r: (u32, u32))
        requires
            total_range.wf(),
            lower_bound.wf(),
            upper_bound.wf(),
            total_range.nano() > 0,
        ensures
            r == exact_raw_range(total_range, lower_bound, upper_bound),
    {
        raw_bounds(lower_bound.to_nano(), upper_bound.to_nano(), total_range.to_nano())
    }

    /// Whether the raw draw `value` lies in `[min_u32, max_u32]`.
    pub fn is_consistent_with(&self, value: u32) -> (r: bool)
        ensures
            r == (self.min_u32 <= value && value <= self.max_u32),
    {
        value >= self.min_u32 && value <= self.max_u32
    }
}

/// Where `u32::MAX * lo <= u32::MAX * c - den`, the ceiling of the scaled
/// lower bound does not pass the floor of the scaled upper bound.
proof fn lemma_wide_window(lo: int, c: int, den: int)
    requires
        0 < den,
        0 <= lo,
        raw_max() * lo + den <= raw_max() * c,
    ensures
        (raw_max() * lo + den - 1) / den <= (raw_max() * c) / den,
{
    let u = raw_max();
    let q = (u * c) / den;
    lemma_fundamental_div_mod(u * c, den);
    assert(u * c < (q + 1) * den) by (nonlinear_arith)
        requires
            u * c == den * q + (u * c) % den,
            (u * c) % den < den,
    ;
    assert(u * lo + den - 1 < den * (q + 1)) by (nonlinear_arith)
        requires
            u * lo + den <= u * c,
            u * c < (q + 1) * den,
    ;
    lemma_multiply_divide_lt(u * lo + den - 1, den, q + 1);
}

/// Where `den` does not divide `x`, the ceiling of `x / den` is one more
/// than its floor.
proof fn lemma_ceil_after_floor(x: int, den: int)
    requires
        0 < den,
        0 <= x,
        x % den != 0,
    ensures
        (x + den - 1) / den == x / den + 1,
{
    let q = x / den;
    let r = x % den;
    lemma_fundamental_div_mod(x, den);
    assert(x + den - 1 == (q + 1) * den + (r - 1)) by (nonlinear_arith)
        requires
            x == den * q + r,
    ;
    lemma_fundamental_div_mod_converse_div(x + den - 1, den, q + 1, r - 1);
}

/// The two-decimal number `k / 100`.
pub open spec fn hundredths(k: i64) -> Decimal {
    Decimal { mantissa: k, scale: 2 }
}

/// Consecutive two-decimal observations partition the raw draws: within
/// `[range_min, range_max]`, the raw range of `k / 100` ends just before the
/// raw range of `(k + 1) / 100` starts. This holds where each rounding
/// window spans at least one raw unit (`100 * (range_max - range_min)` at
/// most `u32::MAX`) and the boundary between the two windows does not fall
/// exactly on a raw draw.
pub proof fn lemma_consecutive_observations_adjacent(range_min: Decimal, range_max: Decimal, k: i64)
    requires
        range_min.wf(),
        range_max.wf(),
        -MAX_MANTISSA <= k,
        k + 1 <= MAX_MANTISSA,
        range_min.nano() <= hundredths(k).nano(),
        hundredths((k + 1) as i64).nano() <= range_max.nano(),
        100 * (range_max.nano() - range_min.nano()) <= raw_max() * pow10(NANO_DIGITS as nat),
        (raw_max() * (hundredths(k).nano() + HALF_HUNDREDTH - range_min.nano()))
            % (range_max.nano() - range_min.nano()) != 0,
    ensures
        observed_raw_range(range_min, range_max, hundredths(k)).1 as int + 1
            == observed_raw_range(range_min, range_max, hundredths((k + 1) as i64)).0 as int,
{
    let o1 = hundredths(k);
    let o2 = hundredths((k + 1) as i64);
    reveal_with_fuel(pow10, 10);
    assert(pow10(7) == 10_000_000);
    assert(pow10(NANO_DIGITS as nat) == 1_000_000_000);
    let den = range_max.nano() - range_min.nano();
    let u = raw_max();
    let c = o1.nano() + HALF_HUNDREDTH - range_min.nano();
    assert((NANO_DIGITS - 2) as nat == 7);
    assert(o1.nano() == k * 10_000_000);
    assert(o2.nano() == (k + 1) * 10_000_000);
    assert(o2.nano() == o1.nano() + 10_000_000);
    assert(o2.nano() - HALF_HUNDREDTH - range_min.nano() == c);
    assert(0 < c < den);
    let lo1 = o1.nano() - HALF_HUNDREDTH - range_min.nano();
    let hi2 = o2.nano() + HALF_HUNDREDTH - range_min.nano();
    let cl1 = clamp(lo1, den);
    let ch2 = clamp(hi2, den);
    assert(den <= u * 10_000_000);
    lemma_raw_range_bounds(cl1, c, den);
    lemma_raw_range_bounds(c, ch2, den);
    // the window of k / 100 holds a raw draw
    if lo1 < 0 {
        lemma_div_pos_is_pos(u * c, den);
        assert((u * 0 + den - 1) / den == 0) by {
            assert(den - 1 < den * 1);
            lemma_multiply_divide_lt(den - 1, den, 1);
        }
    } else {
        assert(cl1 == c - 10_000_000);
        assert(u * cl1 + den <= u * c) by (nonlinear_arith)
            requires
                cl1 == c - 10_000_000,
                den <= u * 10_000_000,
        ;
        lemma_wide_window(cl1, c, den);
    }
    // the window of (k + 1) / 100 holds a raw draw
    if hi2 > den {
        assert(ch2 == den);
        assert(u * c <= u * den) by (nonlinear_arith)
            requires
                0 < c < den,
                u > 0,
        ;
        assert((u * den) / den == u) by (nonlinear_arith)
            requires
                den > 0,
        ;
        assert(u * c + den - 1 < den * (u + 1)) by (nonlinear_arith)
            requires
                u * c <= u * den,
                den > 0,
        ;
        lemma_multiply_divide_lt(u * c + den - 1, den, u + 1);
    } else {
        assert(ch2 == c + 10_000_000);
        assert(u * c + den <= u * ch2) by (nonlinear_arith)
            requires
                ch2 == c + 10_000_000,
                den <= u * 10_000_000,
        ;
        lemma_wide_window(c, ch2, den);
    }
    assert(u * c >= 0) by (nonlinear_arith)
        requires
            c > 0,
            u > 0,
    ;
    lemma_ceil_after_floor(u * c, den);
}

} // verus!
