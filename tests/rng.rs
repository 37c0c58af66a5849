use routefinder::rng::{rotate_right, SggPcg, INCREMENT, INITIAL_OFFSET, MULTIPLIER};

fn stepped(seed: u64, n: u64) -> SggPcg {
    let mut g = SggPcg::new(seed);
    for _ in 0..n {
        g.next_u32();
    }
    g
}

#[test]
fn seeding_formula() {
    for seed in [0u64, 1, 12345, u64::MAX, (-5i32) as u64] {
        let expected = seed.wrapping_mul(MULTIPLIER).wrapping_sub(INITIAL_OFFSET);
        assert_eq!(SggPcg::new(seed).state(), expected);
    }
    assert_eq!(SggPcg::new(0).state(), 0u64.wrapping_sub(0x3d657cc62bc341e));
}

#[test]
fn next_u32_steps_and_permutes() {
    let mut g = SggPcg::new(7);
    let s = g.state();
    let r = g.next_u32();
    assert_eq!(g.state(), s.wrapping_mul(MULTIPLIER).wrapping_add(INCREMENT));
    let rot = (s >> 59) as u32;
    let xsh = (((s >> 18) ^ s) >> 27) as u32;
    assert_eq!(r, xsh.rotate_right(rot));
}

#[test]
fn advance_matches_single_steps() {
    for n in [0u64, 1, 2, 3, 10, 64, 1000, 4097] {
        let mut g = SggPcg::new(99);
        g.advance(n);
        assert_eq!(g.state(), stepped(99, n).state());
        assert!(g == stepped(99, n));
    }
}

#[test]
fn advance_composes() {
    let pairs = [
        (0u64, 0u64),
        (0, 1),
        (1, 0),
        (5, 7),
        (u32::MAX as u64, 1),
        ((1u64 << 32) - 3, 5),
        (1u64 << 63, (1u64 << 63) - 1),
        (u64::MAX - 1, 1),
    ];
    for (n, m) in pairs {
        let mut a = SggPcg::new(12345);
        a.advance(n);
        a.advance(m);
        let mut b = SggPcg::new(12345);
        b.advance(n + m);
        assert_eq!(a.state(), b.state());
    }
}

#[test]
fn kth_draw_is_draw_after_advance() {
    for k in [1usize, 2, 5, 17, 100] {
        let mut a = SggPcg::new(2024);
        let draws = a.next_u32_many(k);
        assert_eq!(draws.len(), k);
        let mut b = SggPcg::new(2024);
        b.advance(k as u64 - 1);
        assert_eq!(b.next_u32(), draws[k - 1]);
        assert_eq!(a.state(), b.state());
    }
}

#[test]
fn rotation_by_shifts() {
    assert_eq!(rotate_right(0x8000_0001, 1), 0xC000_0000);
    assert_eq!(rotate_right(0x1234_5678, 0), 0x1234_5678);
    assert_eq!(rotate_right(0x1234_5678, 31), 0x1234_5678u32.rotate_right(31));
    assert_eq!(rotate_right(0x1234_5678, 16), 0x5678_1234);
}

#[test]
fn equal_states_draw_equal_sequences() {
    let mut a = SggPcg::from_state(0xDEAD_BEEF);
    let mut b = SggPcg::from_state(0xDEAD_BEEF);
    assert_eq!(a.next_u32_many(50), b.next_u32_many(50));
    let mut c = a;
    assert_eq!(c.next_u32(), a.next_u32());
    assert_eq!(c.state(), a.state());
}

#[test]
fn advance_wraps_at_two_to_the_64() {
    let start = SggPcg::new(12345);
    let mut a = start;
    a.advance(u64::MAX);
    a.advance(1);
    assert_eq!(a.state(), start.state());
    for (n, m) in [(u64::MAX, 5u64), (1u64 << 63, 1u64 << 63), (u64::MAX - 2, 10)] {
        let mut x = start;
        x.advance(n);
        x.advance(m);
        let mut y = start;
        y.advance(n.wrapping_add(m));
        assert_eq!(x.state(), y.state());
    }
}
