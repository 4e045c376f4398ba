use metaballs::ball::{Ball, Potential};
use metaballs::ballset::BallSet;
use metaballs::fixed::{isqrt, quotient_by_root, scale, ONE, REACH};

fn centred_ball() -> Ball {
    Ball::spawn(2 * ONE, 5 * ONE, 2 * ONE, 0, 0)
}

fn three_balls() -> Vec<Ball> {
    vec![
        Ball::spawn(2 * ONE, 5 * ONE, 2 * ONE, 0, 0),
        Ball::spawn(3 * ONE + 100, 20 * ONE + 7, 9 * ONE - 3, ONE, -ONE),
        Ball::spawn(ONE / 2, 3 * ONE, 3 * ONE + 1, -5, 9),
    ]
}

#[test]
fn isqrt_rounds_down() {
    assert_eq!(isqrt(0), 0);
    assert_eq!(isqrt(1), 1);
    assert_eq!(isqrt(3), 1);
    assert_eq!(isqrt(4), 2);
    assert_eq!(isqrt(99), 9);
    assert_eq!(isqrt(100), 10);
    assert_eq!(isqrt(2 * 65536 * 65536), 92681);
    assert_eq!(isqrt(1u128 << 64), 1u128 << 32);
    assert_eq!(isqrt(1_000_000_000_000_000_000_000_000_000_000), 1_000_000_000_000_000);
    assert_eq!(isqrt(u128::MAX), u64::MAX as u128);
}

#[test]
fn isqrt_brackets_every_small_number() {
    let mut n: u128 = 0;
    while n < 5000 {
        let s: u128 = isqrt(n);
        assert!(s * s <= n && n < (s + 1) * (s + 1));
        n += 1;
    }
}

#[test]
fn scale_selects_a_point_of_the_range() {
    assert_eq!(scale(0, 5, 10), 5);
    assert_eq!(scale(0x8000_0000, 0, 10), 5);
    assert_eq!(scale(0x4000_0000, 3 * ONE, 10 * ONE), 311296);
    assert_eq!(scale(u32::MAX, 0, 65536), 65535);
    assert_eq!(scale(u32::MAX, -2 * ONE, 2 * ONE), 131071);
    assert_eq!(scale(0xc000_0000, -2 * ONE, 2 * ONE), 65536);
    assert_eq!(scale(u32::MAX, 7, 7), 7);
}

#[test]
fn scale_takes_the_ends_in_either_order() {
    assert_eq!(scale(0, 10, 0), 10);
    assert_eq!(scale(0x4000_0000, 10, 0), 8);
    assert_eq!(scale(0x8000_0000, 10, 0), 5);
    assert_eq!(scale(u32::MAX, 4 * REACH, -4 * REACH), -4 * REACH + 2048);
}

#[test]
fn scale_spans_the_whole_machine_range() {
    assert_eq!(scale(0, i64::MIN, i64::MAX), i64::MIN);
    assert_eq!(scale(1, i64::MIN, i64::MAX), i64::MIN + 4294967295);
    assert_eq!(scale(0x8000_0000, i64::MIN, i64::MAX), -1);
    assert_eq!(scale(u32::MAX, i64::MIN, i64::MAX), 9223372032559808511);
    assert_eq!(scale(u32::MAX, i64::MAX, i64::MIN), -9223372032559808512);
}

#[test]
fn quotient_by_root_rounds_down_once() {
    assert_eq!(quotient_by_root(10, 1), 10);
    assert_eq!(quotient_by_root(10, 4), 5);
    assert_eq!(quotient_by_root(10, 5), 4);
    assert_eq!(quotient_by_root(7, 2), 4);
    assert_eq!(quotient_by_root(0, 5), 0);
    assert_eq!(quotient_by_root(1000, 999_999), 1);
    assert_eq!(quotient_by_root(1000, 1_000_000), 1);
    assert_eq!(quotient_by_root(1000, 1_000_001), 0);
    assert_eq!(quotient_by_root(u64::MAX, 1), u64::MAX);
    assert_eq!(quotient_by_root(u64::MAX, u128::MAX), 0);
}

#[test]
fn quotient_by_root_brackets_the_exact_quotient() {
    let mut r: u64 = 0;
    while r < 40 {
        let mut d2: u128 = 1;
        while d2 < 60 {
            let c: u128 = quotient_by_root(r, d2) as u128;
            let rr: u128 = r as u128 * r as u128;
            assert!(c * c * d2 <= rr && rr < (c + 1) * (c + 1) * d2);
            d2 += 1;
        }
        r += 1;
    }
}

#[test]
fn the_contour_of_one_ball_is_its_circle() {
    // A centre 300 units off the lattice: the point two cells above it is
    // outside the circle of radius 2.0 by a hair, and below the threshold.
    let ball: Ball = Ball::spawn(2 * ONE, 5 * ONE + 300, 2 * ONE, 0, 0);
    assert_eq!(ball.implicit_f(5, 4), Potential::Finite(65535));
    assert!(ball.implicit_f(5, 4).below(65536));
    // On the circle itself the contribution is the threshold, and not below.
    let centred: Ball = centred_ball();
    assert_eq!(centred.implicit_f(5, 4), Potential::Finite(65536));
    assert!(!centred.implicit_f(5, 4).below(65536));
    // Every grid point is below exactly when it is outside the circle.
    let mut y: i32 = -3;
    while y <= 8 {
        let mut x: i32 = -3;
        while x <= 13 {
            let outside: bool = (x - 5) * (x - 5) + (y - 2) * (y - 2) > 4;
            assert_eq!(centred.implicit_f(x, y).below(65536), outside);
            x += 1;
        }
        y += 1;
    }
}

#[test]
fn contribution_is_radius_over_distance() {
    let ball: Ball = centred_ball();
    assert_eq!(ball.implicit_f(5, 4), Potential::Finite(65536));
    assert_eq!(ball.implicit_f(7, 2), Potential::Finite(65536));
    assert_eq!(ball.implicit_f(6, 3), Potential::Finite(92681));
    assert_eq!(ball.implicit_f(8, 2), Potential::Finite(43690));
    assert_eq!(ball.implicit_f(0, 0), Potential::Finite(24339));
    assert_eq!(ball.implicit_f(10, 5), Potential::Finite(22478));
}

#[test]
fn contribution_at_the_centre_is_unbounded() {
    let ball: Ball = centred_ball();
    assert_eq!(ball.implicit_f(5, 2), Potential::Unbounded);
    assert!(!ball.implicit_f(5, 2).below(u64::MAX));
    let set: BallSet = BallSet { balls: three_balls() };
    assert_eq!(set.borders_val(5, 2), Potential::Unbounded);
}

#[test]
fn below_is_strict() {
    assert!(Potential::Finite(65535).below(65536));
    assert!(!Potential::Finite(65536).below(65536));
    assert!(!Potential::Finite(65537).below(65536));
    assert!(!Potential::Finite(0).below(0));
    assert!(!Potential::Unbounded.below(65536));
}

#[test]
fn field_symmetry() {
    let ball: Ball = centred_ball();
    // The eight grid points at squared distance 5 from the centre.
    let ring: [(i32, i32); 8] =
        [(6, 4), (7, 3), (7, 1), (6, 0), (4, 0), (3, 1), (3, 3), (4, 4)];
    let first: Potential = ball.implicit_f(6, 4);
    for (x, y) in ring {
        assert_eq!(ball.implicit_f(x, y), first);
    }
    assert_eq!(ball.implicit_f(3, 2), ball.implicit_f(7, 2));
    assert_eq!(ball.implicit_f(5, 0), ball.implicit_f(5, 4));
}

#[test]
fn field_decreases_with_distance() {
    let ball: Ball = centred_ball();
    let mut last: u128 = u128::MAX;
    let mut x: i32 = 6;
    while x < 200 {
        match ball.implicit_f(x, 2) {
            Potential::Finite(v) => {
                assert!(v < last);
                last = v;
            }
            Potential::Unbounded => panic!("off the centre the contribution is finite"),
        }
        x += 1;
    }
}

#[test]
fn aggregate_field_is_the_sum() {
    let set: BallSet = BallSet { balls: three_balls() };
    assert_eq!(set.borders_val(0, 0), Potential::Finite(41031));
    assert_eq!(set.borders_val(4, 3), Potential::Finite(136959));
    assert_eq!(set.borders_val(12, 7), Potential::Finite(42417));
    assert_eq!(set.borders_val(20, 9), Potential::Finite(1692740769));
}

#[test]
fn aggregate_field_of_no_ball_is_zero() {
    let set: BallSet = BallSet::new();
    assert_eq!(set.len(), 0);
    assert_eq!(set.borders_val(3, 4), Potential::Finite(0));
    assert!(set.borders_val(3, 4).below(1));
}

#[test]
fn aggregation_commutativity() {
    let b: Vec<Ball> = three_balls();
    let orders: [[usize; 3]; 6] =
        [[0, 1, 2], [0, 2, 1], [1, 0, 2], [1, 2, 0], [2, 0, 1], [2, 1, 0]];
    let reference: BallSet = BallSet { balls: b.clone() };
    for order in orders {
        let mut set: BallSet = BallSet::new();
        for i in order {
            set.push(b[i]);
        }
        assert_eq!(set.len(), 3);
        let mut y: i32 = -2;
        while y <= 12 {
            let mut x: i32 = -2;
            while x <= 24 {
                assert_eq!(set.borders_val(x, y), reference.borders_val(x, y));
                x += 1;
            }
            y += 1;
        }
    }
}
