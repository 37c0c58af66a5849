use vstd::prelude::*;
use vstd::arithmetic::div_mod::{
    lemma_add_mod_noop,
    lemma_mul_mod_noop_left,
    lemma_mul_mod_noop_right,
    lemma_small_mod,
};

verus! {

/// Multiplier of the 64-bit linear congruential core.
pub const MULTIPLIER: u64 = 0x5851f42d4c957f2d;

/// Increment of the 64-bit linear congruential core.
pub const INCREMENT: u64 = 0xb47c73972972b7b7;

/// Offset subtracted from `seed * MULTIPLIER` when a generator is seeded.
pub const INITIAL_OFFSET: u64 = 0x3d657cc62bc341e;

/// Shift that leaves the five rotation bits of the state.
pub const ROTATE: u64 = 59;

/// Shift of the xorshift in the output permutation.
pub const XSHIFT: u64 = 18;

/// Shift that leaves the 32 output bits after the xorshift.
pub const SPARE: u64 = 27;

/// 2^64, the modulus of all state arithmetic.
pub open spec fn modulus() -> int {
    0x1_0000_0000_0000_0000
}

/// `a * b` modulo 2^64.
pub open spec fn mul_mod(a: int, b: int) -> int {
    (a * b) % modulus()
}

/// `a + b` modulo 2^64.
pub open spec fn add_mod(a: int, b: int) -> int {
    (a + b) % modulus()
}

/// One step of the linear congruential core.
pub open spec fn step_spec(s: u64) -> u64 {
    add_mod(mul_mod(s as int, MULTIPLIER as int), INCREMENT as int) as u64
}

/// The state reached from `s` after `n` steps, one at a time.
pub open spec fn steps(s: u64, n: nat) -> u64
    decreases n,
{
    if n == 0 {
        s
    } else {
        step_spec(steps(s, (n - 1) as nat))
    }
}

/// The state a generator seeded with `seed` starts from.
pub open spec fn seed_state(seed: u64) -> u64 {
    ((mul_mod(seed as int, MULTIPLIER as int) - INITIAL_OFFSET as int) % modulus()) as u64
}

/// Right rotation of a 32-bit word by `r` places, `r < 32`.
pub open spec fn rotr32(x: u32, r: u32) -> u32 {
    if r == 0 {
        x
    } else {
        (x >> r) | (x << ((32 - r) as u32))
    }
}

/// The output permutation (xorshift high, random rotate) applied to a state.
pub open spec fn output_spec(s: u64) -> u32 {
    rotr32((((s >> 18u64) ^ s) >> 27u64) as u32, (s >> 59u64) as u32)
}

/// The outputs of `k` successive draws from state `s`, in order.
pub open spec fn draws_from(s: u64, k: nat) -> Seq<u32>
    decreases k,
{
    if k == 0 {
        Seq::empty()
    } else {
        seq![output_spec(s)] + draws_from(step_spec(s), (k - 1) as nat)
    }
}

/// Applies the affine map `x -> m * x + p` modulo 2^64.
pub open spec fn apply_affine(f: (int, int), x: int) -> int {
    add_mod(mul_mod(f.0, x), f.1)
}

/// The affine map that applies `f` and then `g`.
pub open spec fn compose(f: (int, int), g: (int, int)) -> (int, int) {
    (mul_mod(f.0, g.0), add_mod(mul_mod(f.1, g.0), g.1))
}

proof fn lemma_mod_range(x: int)
    ensures
        0 <= x % modulus() < modulus(),
        0 <= x < modulus() ==> x % modulus() == x,
{
    if 0 <= x < modulus() {
        lemma_small_mod(x as nat, modulus() as nat);
    }
}

/// `(y % N + b) % N == (y + b) % N`.
proof fn lemma_mod_add_left(y: int, b: int)
    ensures
        (y % modulus() + b) % modulus() == (y + b) % modulus(),
{
    let n = modulus();
    lemma_add_mod_noop(y, b, n);
    lemma_add_mod_noop(y % n, b, n);
    lemma_mod_range(y % n);
}

/// `(a * (x % N) + b) % N == (a * x + b) % N`.
proof fn lemma_mod_mul_add(a: int, x: int, b: int)
    ensures
        (a * (x % modulus()) + b) % modulus() == (a * x + b) % modulus(),
{
    let n = modulus();
    lemma_mul_mod_noop_right(a, x, n);
    lemma_mod_add_left(a * (x % n), b);
    lemma_mod_add_left(a * x, b);
}

/// Applying `compose(f, g)` is applying `f` and then `g`.
proof fn lemma_compose_apply(f: (int, int), g: (int, int), x: int)
    ensures
        apply_affine(g, apply_affine(f, x)) == apply_affine(compose(f, g), x),
{
    let n = modulus();
    let (f0, f1, g0, g1) = (f.0, f.1, g.0, g.1);
    // left: (g0 * ((f0*x % n + f1) % n) % n + g1) % n
    lemma_mod_add_left(g0 * add_mod(mul_mod(f0, x), f1), g1);
    lemma_mod_mul_add(g0, mul_mod(f0, x) + f1, g1);
    assert(g0 * (mul_mod(f0, x) + f1) + g1 == g0 * mul_mod(f0, x) + (g0 * f1 + g1))
        by (nonlinear_arith);
    lemma_mod_mul_add(g0, f0 * x, g0 * f1 + g1);
    assert(apply_affine(g, apply_affine(f, x)) == (g0 * (f0 * x) + (g0 * f1 + g1)) % n);
    // right: ((f0*g0 % n) * x % n + ((f1*g0 % n) + g1) % n) % n
    let u = mul_mod(mul_mod(f0, g0), x);
    lemma_add_mod_noop(u, mul_mod(f1, g0) + g1, n);
    lemma_add_mod_noop(u, add_mod(mul_mod(f1, g0), g1), n);
    lemma_mod_range(mul_mod(f1, g0) + g1);
    lemma_mod_range(add_mod(mul_mod(f1, g0), g1));
    assert(apply_affine(compose(f, g), x) == (u + (mul_mod(f1, g0) + g1)) % n);
    lemma_mod_add_left(mul_mod(f0, g0) * x, mul_mod(f1, g0) + g1);
    lemma_mod_mul_add(x, f0 * g0, mul_mod(f1, g0) + g1);
    assert(mul_mod(f0, g0) * x == x * mul_mod(f0, g0)) by (nonlinear_arith);
    assert(x * (f0 * g0) + (mul_mod(f1, g0) + g1) == (f1 * g0) % n + (x * (f0 * g0) + g1));
    lemma_mod_add_left(f1 * g0, x * (f0 * g0) + g1);
    assert(x * (f0 * g0) == g0 * (f0 * x)) by (nonlinear_arith);
    assert(f1 * g0 == g0 * f1) by (nonlinear_arith);
}

/// Jump-ahead composes: advancing by `n` and then by `m` reaches the state
/// that advancing by `n + m` reaches, which is the state after `n + m`
/// single steps (the steps that `n + m` draws take).
pub proof fn lemma_steps_add(s: u64, n: nat, m: nat)
    ensures
        steps(steps(s, n), m) == steps(s, n + m),
    decreases m,
{
    if m > 0 {
        lemma_steps_add(s, n, (m - 1) as nat);
        assert((n + m - 1) as nat == n + (m - 1) as nat);
    }
}

/// One step is the affine map with the generator's multiplier and increment.
proof fn lemma_step_is_affine(x: u64)
    ensures
        step_spec(x) as int == apply_affine((MULTIPLIER as int, INCREMENT as int), x as int),
{
    assert(mul_mod(MULTIPLIER as int, x as int) == mul_mod(x as int, MULTIPLIER as int))
        by (nonlinear_arith);
    lemma_mod_range(add_mod(mul_mod(x as int, MULTIPLIER as int), INCREMENT as int));
}

/// Squaring the affine map of `cur` as the jump-ahead does it: the new
/// increment is `(m + 1) * p`.
proof fn lemma_square_increment(m: int, p: int)
    requires
        0 <= m < modulus(),
        0 <= p < modulus(),
    ensures
        mul_mod(add_mod(m, 1), p) == add_mod(mul_mod(p, m), p),
{
    let n = modulus();
    lemma_mul_mod_noop_left(m + 1, p, n);
    assert((m + 1) * p == p * m + p) by (nonlinear_arith);
    lemma_mod_add_left(p * m, p);
}

/// `a * b` modulo 2^64.
pub fn mul64(a: u64, b: u64) -> (r: u64)
    ensures
        r as int == mul_mod(a as int, b as int),
{
    a.wrapping_mul(b)
}

/// `a + b` modulo 2^64.
pub fn add64(a: u64, b: u64) -> (r: u64)
    ensures
        r as int == add_mod(a as int, b as int),
{
    let r = a.wrapping_add(b);
    proof {
        let n = modulus();
        if a + b >= n {
            lemma_mod_range(a + b - n);
            lemma_mod_add_left(a + b - n, n);
            assert(n % n == 0);
            lemma_mod_add_left(n, a + b - n);
        } else {
            lemma_mod_range(a + b);
        }
    }
    r
}

/// A permuted congruential generator: a 64-bit linear congruential core
/// whose 32-bit outputs go through the xorshift-high, random-rotate
/// permutation.
///
/// The state alone determines every future draw.
#[derive(Clone, Copy, PartialEq, Eq, Structural)]
pub struct SggPcg {
    state: u64,
}

impl View for SggPcg {
    type V = u64;

    closed spec fn view(&self) -> u64 {
        self.state
    }
}

impl SggPcg {
    /// A generator seeded with `seed`: its state is
    /// `seed * MULTIPLIER - INITIAL_OFFSET` modulo 2^64.
    pub fn new(seed: u64) -> (r: Self)
        ensures
            r@ == seed_state(seed),
    {
        let state = sub_initial_offset(mul64(seed, MULTIPLIER));
        SggPcg { state }
    }

    /// A generator that continues from `state`.
    pub fn from_state(state: u64) -> (r: Self)
        ensures
            r@ == state,
    {
        SggPcg { state }
    }

    /// The current state.
    pub fn state(&self) -> (r: u64)
        ensures
            r == self@,
    {
        self.state
    }

    /// Moves the state one step forward.
    fn step(&mut self)
        ensures
            final(self)@ == step_spec(old(self)@),
    {
        self.state = add64(mul64(self.state, MULTIPLIER), INCREMENT);
    }

    /// Moves the state `delta` steps forward, as `delta` draws would, in
    /// O(log delta) time.
    pub fn advance(&mut self, delta: u64)
        ensures
            final(self)@ == steps(old(self)@, delta as nat),
    {
        let (m, p) = jump_coefficients(delta);
        let s0 = self.state;
        self.state = jump(m, p, s0);
        proof {
            assert(apply_affine((m as int, p as int), s0 as int) == steps(s0, delta as nat) as int);
        }
    }

    /// Draws the next 32-bit output: the permutation of the current state,
    /// after which the state moves one step forward.
    pub fn next_u32(&mut self) -> (r: u32)
        ensures
            r == output_spec(old(self)@),
            final(self)@ == step_spec(old(self)@),
    {
        let state = self.state;
        self.step();
        output_function(state)
    }
}

/// The output permutation: xorshift high, then rotate right by the top five
/// bits of the state. The rotation is a pair of shifts joined by `|`.
pub fn output_function(state: u64) -> (r: u32)
    ensures
        r == output_spec(state),
{
    let rot = (state >> ROTATE) as u32;
    let xsh = (((state >> XSHIFT) ^ state) >> SPARE) as u32;
    assert(rot < 32) by (bit_vector)
        requires
            rot == (state >> 59u64) as u32,
    ;
    rotate_right(xsh, rot)
}

/// Rotates `x` right by `r` places, `r < 32`.
pub fn rotate_right(x: u32, r: u32) -> (res: u32)
    requires
        r < 32,
    ensures
        res == rotr32(x, r),
{
    if r == 0 {
        x
    } else {
        (x >> r) | (x << (32 - r))
    }
}

/// Drawing `k >= 1` times from a state yields, as its last output, what one
/// draw yields after advancing `k - 1` steps; and `k` draws leave the state
/// `k` steps on, as that advance and draw do.
pub proof fn lemma_kth_draw(s: u64, k: nat)
    requires
        k >= 1,
    ensures
        draws_from(s, k).len() == k,
        draws_from(s, k)[k - 1] == output_spec(steps(s, (k - 1) as nat)),
        steps(s, k) == step_spec(steps(s, (k - 1) as nat)),
{
    let j = (k - 1) as nat;
    lemma_draws_push(s, j);
    lemma_draws_len(s, j);
    assert(j + 1 == k);
}

/// The outputs of `k` successive draws from state `s` have length `k`.
proof fn lemma_draws_len(s: u64, k: nat)
    ensures
        draws_from(s, k).len() == k,
    decreases k,
{
    if k > 0 {
        lemma_draws_len(step_spec(s), (k - 1) as nat);
    }
}

/// `k + 1` draws are `k` draws and then one more.
proof fn lemma_draws_push(s: u64, k: nat)
    ensures
        draws_from(s, k + 1) == draws_from(s, k).push(output_spec(steps(s, k))),
    decreases k,
{
    if k > 0 {
        lemma_draws_push(step_spec(s), (k - 1) as nat);
        lemma_steps_add(s, 1, (k - 1) as nat);
        assert(steps(s, 1) == step_spec(steps(s, 0)));
        assert(1 + (k - 1) as nat == k);
        assert(draws_from(s, k + 1) == seq![output_spec(s)] + draws_from(step_spec(s), k));
        assert(draws_from(step_spec(s), k) == draws_from(step_spec(s), (k - 1) as nat).push(
            output_spec(steps(step_spec(s), (k - 1) as nat)),
        ));
        assert(seq![output_spec(s)] + draws_from(step_spec(s), (k - 1) as nat).push(
            output_spec(steps(s, k)),
        ) =~= (seq![output_spec(s)] + draws_from(step_spec(s), (k - 1) as nat)).push(
            output_spec(steps(s, k)),
        ));
    } else {
        assert(draws_from(s, 1) == seq![output_spec(s)] + draws_from(step_spec(s), 0));
        assert(draws_from(s, 1) =~= Seq::<u32>::empty().push(output_spec(s)));
    }
}

impl SggPcg {
    /// Draws `k` outputs in a row.
    pub fn next_u32_many(&mut self, k: usize) -> (r: Vec<u32>)
        ensures
            r@ == draws_from(old(self)@, k as nat),
            final(self)@ == steps(old(self)@, k as nat),
    {
        let ghost s0 = self@;
        let mut out: Vec<u32> = Vec::new();
        let mut i: usize = 0;
        while i < k
            invariant
                i <= k,
                out@ == draws_from(s0, i as nat),
                self@ == steps(s0, i as nat),
            decreases k - i,
        {
            let v = self.next_u32();
            out.push(v);
            proof {
                lemma_draws_push(s0, i as nat);
            }
            i = i + 1;
        }
        out
    }
}

/// The coefficients `(m, p)` of the affine map of `delta` steps,
/// `x -> m * x + p` modulo 2^64, in O(log delta) time: the maps of 1, 2, 4,
/// ... steps are squared in turn and those of the set bits of `delta` are
/// composed.
pub fn jump_coefficients(delta: u64) -> (r: (u64, u64))
    ensures
        forall|x: u64| #[trigger] apply_affine((r.0 as int, r.1 as int), x as int) == steps(x, delta as nat) as int,
{
        let mut acc_mult: u64 = 1;
        let mut acc_plus: u64 = 0;
        let mut cur_mult: u64 = MULTIPLIER;
        let mut cur_plus: u64 = INCREMENT;
        let mut mdelta: u64 = delta;
        let ghost mut done: nat = 0;
        let ghost mut pow: nat = 1;
        proof {
            assert forall|x: u64|
                apply_affine((acc_mult as int, acc_plus as int), x as int) == steps(x, done) as int by {
                lemma_mod_range(x as int);
            }
            assert forall|x: u64|
                apply_affine((cur_mult as int, cur_plus as int), x as int) == steps(x, pow) as int by {
                lemma_step_is_affine(x);
                assert(steps(x, 1) == step_spec(steps(x, 0)));
            }
        }
        while mdelta > 0
            invariant
                done + mdelta * pow == delta,
                pow > 0,
                forall|x: u64|
                    #[trigger] apply_affine((acc_mult as int, acc_plus as int), x as int)
                        == steps(x, done) as int,
                forall|x: u64|
                    #[trigger] apply_affine((cur_mult as int, cur_plus as int), x as int)
                        == steps(x, pow) as int,
            decreases mdelta,
        {
            let ghost acc0 = (acc_mult as int, acc_plus as int);
            let ghost cur0 = (cur_mult as int, cur_plus as int);
            let ghost done0 = done;
            let ghost md0 = mdelta;
            let odd = (mdelta & 1) != 0;
            assert(odd <==> md0 % 2 == 1) by (bit_vector)
                requires
                    odd == ((md0 & 1) != 0),
            ;
            if odd {
                acc_mult = mul64(acc_mult, cur_mult);
                acc_plus = add64(mul64(acc_plus, cur_mult), cur_plus);
                proof {
                    done = done + pow;
                    assert forall|x: u64|
                        #[trigger] apply_affine((acc_mult as int, acc_plus as int), x as int)
                            == steps(x, done) as int by {
                        lemma_compose_apply(acc0, cur0, x as int);
                        let y = steps(x, done0);
                        assert(apply_affine(acc0, x as int) == y as int);
                        assert(apply_affine(cur0, y as int) == steps(y, pow) as int);
                        lemma_steps_add(x, done0, pow);
                    }
                }
            }
            cur_plus = mul64(add64(cur_mult, 1), cur_plus);
            cur_mult = mul64(cur_mult, cur_mult);
            mdelta = mdelta / 2;
            proof {
                lemma_mod_range(cur0.0);
                lemma_square_increment(cur0.0, cur0.1);
                assert forall|x: u64|
                    #[trigger] apply_affine((cur_mult as int, cur_plus as int), x as int)
                        == steps(x, pow * 2) as int by {
                    lemma_compose_apply(cur0, cur0, x as int);
                    let y = steps(x, pow);
                    assert(apply_affine(cur0, x as int) == y as int);
                    assert(apply_affine(cur0, y as int) == steps(y, pow) as int);
                    lemma_steps_add(x, pow, pow);
                }
                assert(md0 == 2 * (md0 / 2) + md0 % 2);
                assert(done0 + md0 * pow == delta);
                assert((2 * (md0 / 2) + md0 % 2) * pow == (md0 / 2) * (pow * 2) + (md0 % 2) * pow)
                    by (nonlinear_arith);
                pow = pow * 2;
            }
        }
        (acc_mult, acc_plus)
}

/// Applies the affine map `x -> m * x + p` modulo 2^64 to a state.
pub fn jump(m: u64, p: u64, x: u64) -> (r: u64)
    ensures
        r as int == apply_affine((m as int, p as int), x as int),
{
    add64(mul64(m, x), p)
}

/// Subtracts `INITIAL_OFFSET` modulo 2^64: the last step of seeding.
pub fn sub_initial_offset(product: u64) -> (r: u64)
    ensures
        r as int == (product - INITIAL_OFFSET) % modulus(),
{
    let state = product.wrapping_sub(INITIAL_OFFSET);
    proof {
        let n = modulus();
        let d = product - INITIAL_OFFSET;
        if d < 0 {
            lemma_mod_range(d + n);
            lemma_mod_add_left(d + n, 0 - n);
            assert((0 - n) % n == 0);
            lemma_mod_add_left(0 - n, d + n);
        } else {
            lemma_mod_range(d);
        }
    }
    state
}

/// `2^k`.
pub open spec fn two_pow(k: nat) -> nat
    decreases k,
{
    if k == 0 {
        1
    } else {
        2 * two_pow((k - 1) as nat)
    }
}

/// The affine map of `2^k` steps, by repeated squaring of the one-step map.
pub open spec fn doubling(k: nat) -> (int, int)
    decreases k,
{
    if k == 0 {
        (MULTIPLIER as int, INCREMENT as int)
    } else {
        let d = doubling((k - 1) as nat);
        (mul_mod(d.0, d.0), mul_mod(add_mod(d.0, 1), d.1))
    }
}

/// `doubling(k)` is the map of `2^k` steps.
proof fn lemma_doubling_steps(k: nat)
    ensures
        0 <= doubling(k).0 < modulus(),
        0 <= doubling(k).1 < modulus(),
        forall|x: u64| #[trigger] apply_affine(doubling(k), x as int) == steps(x, two_pow(k)) as int,
    decreases k,
{
    if k == 0 {
        assert forall|x: u64| #[trigger] apply_affine(doubling(k), x as int) == steps(x, two_pow(k)) as int by {
            lemma_step_is_affine(x);
            assert(steps(x, 1) == step_spec(steps(x, 0)));
        }
    } else {
        let j = (k - 1) as nat;
        lemma_doubling_steps(j);
        let d = doubling(j);
        lemma_square_increment(d.0, d.1);
        lemma_mod_range(d.0 * d.0);
        lemma_mod_range(add_mod(d.0, 1) * d.1);
        assert(doubling(k) == compose(d, d));
        assert forall|x: u64| #[trigger] apply_affine(doubling(k), x as int) == steps(x, two_pow(k)) as int by {
            lemma_compose_apply(d, d, x as int);
            let y = steps(x, two_pow(j));
            assert(apply_affine(d, x as int) == y as int);
            assert(apply_affine(d, y as int) == steps(y, two_pow(j)) as int);
            lemma_steps_add(x, two_pow(j), two_pow(j));
        }
    }
}

/// The generator has full period: `2^64` steps lead back to the start.
pub proof fn lemma_full_period(x: u64)
    ensures
        steps(x, two_pow(64)) == x,
{
    assert(doubling(0) == (6364136223846793005int, 13005396917011789751int));
    assert(6364136223846793005int * 6364136223846793005int == 40502229875678917802724098623316930025int);
    assert(6364136223846793006int * 13005396917011789751int == 82768117625060135221978796453689281506int);
    assert(doubling(1) == (7520897724310334953int, 18170239111238241250int));
    assert(7520897724310334953int * 7520897724310334953int == 56563902579536375059487001727053512209int);
    assert(7520897724310334954int * 18170239111238241250int == 136656509981886331757643035481359652500int);
    assert(doubling(2) == (18108194425815612945int, 865801786965759636int));
    assert(18108194425815612945int * 18108194425815612945int == 327906705363139636192878887726051573025int);
    assert(18108194425815612946int * 865801786965759636int == 15678107092594565452624436917845847656int);
    assert(doubling(3) == (13086856194709077281int, 8697578503019130472int));
    assert(13086856194709077281int * 13086856194709077281int == 171265805060995350450261847618430352961int);
    assert(13086856194709077282int * 8697578503019130472int == 113823959111204410642889777397089137104int);
    assert(doubling(4) == (10186629832379121217int, 18238075205248578000int));
    assert(10186629832379121217int * 10186629832379121217int == 103767427341916283222216423985179561089int);
    assert(10186629832379121218int * 18238075205248578000int == 185784520970959128916168336884128004000int);
    assert(doubling(5) == (10828933358287359105int, 14286057085628823456int));
    assert(10828933358287359105int * 10828933358287359105int == 117265797678228741359801624435226401025int);
    assert(10828933358287359106int * 14286057085628823456int == 154702760132963457321362509404147990336int);
    assert(doubling(6) == (4910590176156014849int, 2025168096745930560int));
    assert(4910590176156014849int * 4910590176156014849int == 24113895878159960945643387481108492801int);
    assert(4910590176156014850int * 2025168096745930560int == 9944770560945140472752780404428816000int);
    assert(doubling(7) == (9908147928152388097int, 14692205072754589312int));
    assert(9908147928152388097int * 9908147928152388097int == 98171395366150460799108048164107281409int);
    assert(9908147928152388098int * 14692205072754589312int == 145572541251603390530646769022026808576int);
    assert(doubling(8) == (146241703003251713int, 3023180081895472384int));
    assert(146241703003251713int * 146241703003251713int == 21386635697291281093585051637434369int);
    assert(146241703003251714int * 3023180081895472384int == 442115003661903866422450606087666176int);
    assert(doubling(9) == (7321387688379467777int, 230117944907594240int));
    assert(7321387688379467777int * 7321387688379467777int == 53602717683554446765185054945781321729int);
    assert(7321387688379467778int * 230117944907594240int == 1684782688721645111667728321578398720int);
    assert(doubling(10) == (12255457568021647361int, 17705821773009908736int));
    assert(12255457568021647361int * 12255457568021647361int == 150196240201579071252389824704238264321int);
    assert(12255457568021647362int * 17705821773009908736int == 216992947446076748491028341371995154432int);
    assert(doubling(11) == (9867978473775767553int, 5614352108624275456int));
    assert(9867978473775767553int * 9867978473775767553int == 97376999158901926755713588434287607809int);
    assert(9867978473775767554int * 5614352108624275456int == 55402305752101940047632455163523354624int);
    assert(doubling(12) == (5088048636545613825int, 1788402994225074176int));
    assert(5088048636545613825int * 5088048636545613825int == 25888238927853679852445679846031130625int);
    assert(5088048636545613826int * 1788402994225074176int == 9099481416360981938304622562301157376int);
    assert(doubling(13) == (2150478223927705601int, 7723942536608194560int));
    assert(2150478223927705601int * 2150478223927705601int == 4624556591587259114471891728126771201int);
    assert(2150478223927705602int * 7723942536608194560int == 16610170227844847445364579052417925120int);
    assert(doubling(14) == (9196835419631190017int, 13383282471326400512int));
    assert(9196835419631190017int * 9196835419631190017int == 84581781735782806970328025083560460289int);
    assert(9196835419631190018int * 13383282471326400512int == 123083846263223886442516929751044489216int);
    assert(doubling(15) == (5957860013156466689int, 17289262332819439616int));
    assert(5957860013156466689int * 5957860013156466689int == 35496095936368773428543695738766622721int);
    assert(5957860013156466690int * 17289262332819439616int == 103007004709677230486992411092370391040int);
    assert(doubling(16) == (10389140232424652801int, 12282449709468811264int));
    assert(10389140232424652801int * 10389140232424652801int == 107934234768984568823181509665397145601int);
    assert(10389140232424652802int * 12282449709468811264int == 127604092429374915136587189882866761728int);
    assert(doubling(17) == (13023643825678581761int, 4945451238435717120int));
    assert(13023643825678581761int * 13023643825678581761int == 169615298498135844948271024856361861121int);
    assert(13023643825678581762int * 4945451238435717120int == 64407795486647822944597575047023165440int);
    assert(doubling(18) == (288945459443007489int, 8316576991842402304int));
    assert(288945459443007489int * 288945459443007489int == 83489478532730685695340537310085121int);
    assert(288945459443007490int * 8316576991842402304int == 2403037159901048087939790656265256960int);
    assert(doubling(19) == (13413133364217511937int, 16821035506982191104int));
    assert(13413133364217511937int * 13413133364217511937int == 179912146646284989734533243578737491969int);
    assert(13413133364217511938int * 16821035506982191104int == 225622792579390258483176902774517399552int);
    assert(doubling(20) == (8991946233350193153int, 12488088519623835648int));
    assert(8991946233350193153int * 8991946233350193153int == 80855097063460726295004120542408081409int);
    assert(8991946233350193154int * 12488088519623835648int == 112292220525775338638162975883150753792int);
    assert(doubling(21) == (1986842707489718273int, 4923851319868915712int));
    assert(1986842707489718273int * 1986842707489718273int == 3947543944305074207629194008910102529int);
    assert(1986842707489718274int * 4923851319868915712int == 9782918087645179348183739692732121088int);
    assert(doubling(22) == (13772462672974970881int, 3425376057061015552int));
    assert(13772462672974970881int * 13772462672974970881int == 189680728078488879714669476282797916161int);
    assert(13772462672974970882int * 3425376057061015552int == 47175863886775020631865935604549156864int);
    assert(doubling(23) == (11399802156803424257int, 18054933930833870848int));
    assert(11399802156803424257int * 11399802156803424257int == 129955489214260003490908086720736002049int);
    assert(11399802156803424258int * 18054933930833870848int == 205822674765663287667475174295322230784int);
    assert(doubling(24) == (13559343778149433345int, 7139618833676894208int));
    assert(13559343778149433345int * 13559343778149433345int == 183855803694039749477525285144597889025int);
    assert(13559343778149433346int * 7139618833676894208int == 96808546210775309473089993608389459968int);
    assert(doubling(25) == (8604389488178757633int, 9078705997647708160int));
    assert(8604389488178757633int * 8604389488178757633int == 74035518464281102740601878099355762689int);
    assert(8604389488178757634int * 9078705997647708160int == 78116722452425380823116935956204093440int);
    assert(doubling(26) == (16938562998715285505int, 15802029390180646912int));
    assert(16938562998715285505int * 16938562998715285505int == 286914916461446565180509121333663105025int);
    assert(16938562998715285506int * 15802029390180646912int == 267663670333125372907488397633857257472int);
    assert(doubling(27) == (14349518013152100353int, 3735784286192664576int));
    assert(14349518013152100353int * 14349518013152100353int == 205908667209776601679337451695382724609int);
    assert(14349518013152100354int * 3735784286192664576int == 53606703907972201634176549082212859904int);
    assert(doubling(28) == (5928836310318972929int, 6678935037968121856int));
    assert(5928836310318972929int * 5928836310318972929int == 35151099994556692666826247709434839041int);
    assert(5928836310318972930int * 6678935037968121856int == 39598312567367028960697744435005358080int);
    assert(doubling(29) == (13010594125244792833int, 10187335938267414528int));
    assert(13010594125244792833int * 13010594125244792833int == 169275559491854316014803735781088165889int);
    assert(13010594125244792834int * 10187335938267414528int == 132543293110317172972174977452161892352int);
    assert(doubling(30) == (12186130195207421953int, 7692535325859512320int));
    assert(12186130195207421953int * 12186130195207421953int == 148501769134546079874161365536586334209int);
    assert(12186130195207421954int * 7692535325859512320int == 93742237012156368119230309174901473280int);
    assert(doubling(31) == (5925516316705292289int, 1550012596436860928int));
    assert(5925516316705292289int * 5925516316705292289int == 35111743619540653788534411860922859521int);
    assert(5925516316705292290int * 1550012596436860928int == 9184624931285354826356700732320645120int);
    assert(doubling(32) == (11851032633410584577int, 3100025192873721856int));
    assert(11851032633410584577int * 11851032633410584577int == 140446974478162615130435582176870268929int);
    assert(11851032633410584578int * 3100025192873721856int == 36738499725141419299226752543535136768int);
    assert(doubling(33) == (5255321193111617537int, 6200050385747443712int));
    assert(5255321193111617537int * 5255321193111617537int == 27618400842768115264425581756565946369int);
    assert(5255321193111617538int * 6200050385747443712int == 32583256190578400444781268372927021056int);
    assert(doubling(34) == (10510642386223235073int, 12400100771494887424int));
    assert(10510642386223235073int * 10510642386223235073int == 110473603371072461036681042253817315329int);
    assert(10510642386223235074int * 12400100771494887424int == 130333024762313601754324871948718309376int);
    assert(doubling(35) == (2574540698736918529int, 6353457469280223232int));
    assert(2574540698736918529int * 2574540698736918529int == 6628259809452780692584635402383523841int);
    assert(2574540698736918530int * 6353457469280223232int == 16357234832356000015988598198197288960int);
    assert(doubling(36) == (5149081397473837057int, 12706914938560446464int));
    assert(5149081397473837057int * 5149081397473837057int == 26513039237811122760040378814586421249int);
    assert(5149081397473837058int * 12706914938560446464int == 65428939329424000038540562915668262912int);
    assert(doubling(37) == (10298162794947674113int, 6967085803411341312int));
    assert(10298162794947674113int * 10298162794947674113int == 106052156951244491019565189668450336769int);
    assert(10298162794947674114int * 6967085803411341312int == 71748183809898800242783366783401197568int);
    assert(doubling(38) == (2149581516185796609int, 13934171606822682624int));
    assert(2149581516185796609int * 2149581516185796609int == 4620700694727628168918278867915898881int);
    assert(2149581516185796610int * 13934171606822682624int == 29952637729386979905790685286645104640int);
    assert(doubling(39) == (4299163032371593217int, 9421599139935813632int));
    assert(4299163032371593217int * 4299163032371593217int == 18482802778910512667074789406920409089int);
    assert(4299163032371593218int * 9421599139935813632int == 40504990728236047162650833524963147776int);
    assert(doubling(40) == (8598326064743186433int, 396454206162075648int));
    assert(8598326064743186433int * 8598326064743186433int == 73931211115642050651102505498195263489int);
    assert(8598326064743186434int * 396454206162075648int == 3408842534320443840259983298875359232int);
    assert(doubling(41) == (17196652129486372865int, 792908412324151296int));
    assert(17196652129486372865int * 17196652129486372865int == 295724844462568202570016717733808308225int);
    assert(17196652129486372866int * 792908412324151296int == 13635370137281775359454116370853134336int);
    assert(doubling(42) == (15946560185263194113int, 1585816824648302592int));
    assert(15946560185263194113int * 15946560185263194113int == 254292781742221315751653652951117856769int);
    assert(15946560185263194114int * 1585816824648302592int == 25288323437057126395549102882305343488int);
    assert(doubling(43) == (13446376296816836609int, 3171633649296605184int));
    assert(13446376296816836609int * 13446376296816836609int == 180805035515597664450592462573802618881int);
    assert(13446376296816836610int * 3171633649296605184int == 42646979524088555497661686327006986240int);
    assert(doubling(44) == (8446008519924121601int, 6343267298593210368int));
    assert(8446008519924121601int * 8446008519924121601int == 71335059918630851191129838571434803201int);
    assert(8446008519924121602int * 6343267298593210368int == 53575289648074321821577294903599169536int);
    assert(doubling(45) == (16892017039848243201int, 12686534597186420736int));
    assert(16892017039848243201int * 16892017039848243201int == 285340239674523404730735320206042726401int);
    assert(16892017039848243202int * 12686534597186420736int == 214301158592297287260936110420023836672int);
    assert(doubling(46) == (15337290005986934785int, 6926325120663289856int));
    assert(15337290005986934785int * 15337290005986934785int == 235232464727746710053108688119842996225int);
    assert(15337290005986934786int * 6926325120663289856int == 106231057051365325679574937432087330816int);
    assert(doubling(47) == (12227835938264317953int, 13852650241326579712int));
    assert(12227835938264317953int * 12227835938264317953int == 149519971733108412973573853808278110209int);
    assert(12227835938264317954int * 13852650241326579712int == 169387934461099028366280337651293749248int);
    assert(doubling(48) == (6008927802819084289int, 9258556408943607808int));
    assert(6008927802819084289int * 6008927802819084289int == 36107213339492187917377904628486635521int);
    assert(6008927802819084290int * 9258556408943607808int == 55633997019670064510320002667454136320int);
    assert(doubling(49) == (12017855605638168577int, 70368744177664000int));
    assert(12017855605638168577int * 12017855605638168577int == 144428853357968751645475907302670204929int);
    assert(12017855605638168578int * 70368744177664000int == 845681406677257539614225614241792000int);
    assert(doubling(50) == (5588967137566785537int, 140737488355328000int));
    assert(5588967137566785537int * 5588967137566785537int == 31236553664801468249361040982952378369int);
    assert(5588967137566785538int * 140737488355328000int == 786577197441616343910179315646464000int);
    assert(doubling(51) == (11177934275133571073int, 281474976710656000int));
    assert(11177934275133571073int * 11177934275133571073int == 124946214659205872975088295381542371329int);
    assert(11177934275133571074int * 281474976710656000int == 3146308789766465375077767309164544000int);
    assert(doubling(52) == (3909124476557590529int, 562949953421312000int));
    assert(3909124476557590529int * 3909124476557590529int == 15281254173221656145310282806030499841int);
    assert(3909124476557590530int * 562949953421312000int == 2200641441996206242124176671375360000int);
    assert(doubling(53) == (7818248953115181057int, 1125899906842624000int));
    assert(7818248953115181057int * 7818248953115181057int == 61125016692886624565604633317891637249int);
    assert(7818248953115181058int * 1125899906842624000int == 8802565767984824966244906871816192000int);
    assert(doubling(54) == (15636497906230362113int, 2251799813685248000int));
    assert(15636497906230362113int * 15636497906230362113int == 244500066771546498231145537459105824769int);
    assert(15636497906230362114int * 2251799813685248000int == 35210263071939299860476027859894272000int);
    assert(doubling(55) == (12826251738751172609int, 4503599627370496000int));
    assert(12826251738751172609int * 12826251738751172609int == 164512733665817478608012749172511866881int);
    assert(12826251738751172610int * 4503599627370496000int == 57764302551199957376408970917314560000int);
    assert(doubling(56) == (7205759403792793601int, 9007199254740992000int));
    assert(7205759403792793601int * 7205759403792793601int == 51922968585348276299716482099786547201int);
    assert(7205759403792793602int * 9007199254740992000int == 64903710731685345374645602624733184000int);
    assert(doubling(57) == (14411518807585587201int, 18014398509481984000int));
    assert(14411518807585587201int * 14411518807585587201int == 207691874341393105170042890783975014401int);
    assert(14411518807585587202int * 18014398509481984000int == 259614842926741381462553613479968768000int);
    assert(doubling(58) == (10376293541461622785int, 17582052945254416384int));
    assert(10376293541461622785int * 10376293541461622785int == 107667467658578185725960958965631156225int);
    assert(10376293541461622786int * 17582052945254416384int == 182436542421479703591211624913986125824int);
    assert(doubling(59) == (2305843009213693953int, 16717361816799281152int));
    assert(2305843009213693953int * 2305843009213693953int == 5316911983139663496226914259548766209int);
    assert(2305843009213693954int * 16717361816799281152int == 38547611877762560347645128381728555008int);
    assert(doubling(60) == (4611686018427387905int, 14987979559889010688int));
    assert(4611686018427387905int * 4611686018427387905int == 21267647932558653975684285001340289025int);
    assert(4611686018427387906int * 14987979559889010688int == 69119855780815625420973926254355939328int);
    assert(doubling(61) == (9223372036854775809int, 11529215046068469760int));
    assert(9223372036854775809int * 9223372036854775809int == 85070591730234615884290395931651604481int);
    assert(9223372036854775810int * 11529215046068469760int == 106338239662793269855362994914564505600int);
    assert(doubling(62) == (1int, 4611686018427387904int));
    assert(1int * 1int == 1int);
    assert(2int * 4611686018427387904int == 9223372036854775808int);
    assert(doubling(63) == (1int, 9223372036854775808int));
    assert(1int * 1int == 1int);
    assert(2int * 9223372036854775808int == 18446744073709551616int);
    assert(doubling(64) == (1int, 0int));
    lemma_doubling_steps(64);
    assert(apply_affine(doubling(64), x as int) == steps(x, two_pow(64)) as int);
    lemma_mod_range(x as int);
}

/// Jump-ahead composes with wrap-around: advancing by `n` and then by `m`
/// reaches the state that advancing by `n + m` modulo 2^64 reaches, since a
/// jump of 2^64 steps is no jump at all.
pub proof fn lemma_advance_wraps(s: u64, n: u64, m: u64)
    ensures
        steps(steps(s, n as nat), m as nat) == steps(s, ((n + m) % modulus()) as nat),
{
    lemma_steps_add(s, n as nat, m as nat);
    reveal_with_fuel(two_pow, 65);
    assert(two_pow(64) == modulus());
    if n + m >= modulus() {
        let r = (n + m - modulus()) as nat;
        lemma_steps_add(s, r, two_pow(64));
        lemma_full_period(steps(s, r));
        assert((n + m) % modulus() == r) by {
            lemma_mod_add_left(r as int, modulus());
            lemma_mod_range(r as int);
            assert(modulus() % modulus() == 0);
            lemma_mod_add_left(modulus(), r as int);
        }
        assert(r + two_pow(64) == n + m);
    } else {
        lemma_mod_range(n + m);
    }
}

} // verus!
