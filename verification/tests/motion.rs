use metaballs::animation::Animation;
use metaballs::ball::Ball;
use metaballs::ballset::BallSet;
use metaballs::config::Config;
use metaballs::fixed::{ONE, REACH};

fn arena(width: u16, height: u16) -> Config {
    Config {
        width,
        height,
        fill_char: 'A',
        n_of_balls: 3,
        ball_radius: (3 * ONE, 10 * ONE),
        ball_speed: (-2 * ONE, 2 * ONE),
    }
}

#[test]
fn spawn_keeps_what_it_is_given() {
    let ball: Ball = Ball::spawn(1, 2, 3, -4, 5);
    assert_eq!(ball, Ball { radius: 1, x_pos: 2, y_pos: 3, x_velocity: -4, y_velocity: 5 });
    assert!(ball.is_valid());
}

#[test]
fn validity_of_a_ball() {
    assert!(!Ball::spawn(0, 0, 0, 0, 0).is_valid());
    assert!(!Ball::spawn(-1, 0, 0, 0, 0).is_valid());
    assert!(Ball::spawn(REACH, 2 * REACH, -2 * REACH, REACH, -REACH).is_valid());
    assert!(!Ball::spawn(REACH + 1, 0, 0, 0, 0).is_valid());
    assert!(!Ball::spawn(1, 0, 0, REACH + 1, 0).is_valid());
    assert!(!Ball::spawn(1, 0, 0, 0, -REACH - 1).is_valid());
    // Beyond twice the reach only by one step, and only moving outward.
    assert!(Ball::spawn(1, 2 * REACH + 5, 0, 5, 0).is_valid());
    assert!(!Ball::spawn(1, 2 * REACH + 5, 0, -5, 0).is_valid());
    assert!(!Ball::spawn(1, 2 * REACH + 6, 0, 5, 0).is_valid());
    assert!(Ball::spawn(1, 0, -2 * REACH - 5, 0, -5).is_valid());
    assert!(!Ball::spawn(1, 0, -2 * REACH - 5, 0, 5).is_valid());
}

#[test]
fn validity_of_a_configuration() {
    assert!(arena(80, 24).is_valid());
    assert!(!arena(0, 24).is_valid());
    assert!(!arena(80, 0).is_valid());
    let mut config: Config = arena(80, 24);
    config.ball_radius = (5 * ONE, 4 * ONE);
    assert!(!config.is_valid());
    config.ball_radius = (0, 4 * ONE);
    assert!(!config.is_valid());
    config.ball_radius = (ONE, REACH + 1);
    assert!(!config.is_valid());
    config.ball_radius = (ONE, ONE);
    assert!(config.is_valid());
    config.ball_speed = (ONE, -ONE);
    assert!(!config.is_valid());
    config.ball_speed = (-REACH - 1, 0);
    assert!(!config.is_valid());
    config.ball_speed = (0, 0);
    assert!(config.is_valid());
}

#[test]
fn free_flight_adds_the_velocity() {
    let config: Config = arena(80, 24);
    let mut ball: Ball = Ball::spawn(3 * ONE, 40 * ONE, 12 * ONE, ONE + 7, -ONE / 2);
    ball.advance(&config);
    assert_eq!(ball, Ball::spawn(3 * ONE, 41 * ONE + 7, 12 * ONE - ONE / 2, ONE + 7, -ONE / 2));
}

#[test]
fn boundary_reflection() {
    let config: Config = arena(80, 24);
    // Exactly `radius` from the left wall and moving left: the ball turns round.
    let mut ball: Ball = Ball::spawn(3 * ONE, 3 * ONE, 12 * ONE, -ONE, 0);
    ball.advance(&config);
    assert_eq!(ball.x_velocity, ONE);
    assert_eq!(ball.x_pos, 3 * ONE + ONE);
    assert_eq!(ball.y_velocity, 0);
    assert_eq!(ball.y_pos, 12 * ONE);
    assert_eq!(ball.radius, 3 * ONE);
}

#[test]
fn boundary_reflection_in_a_set() {
    let mut config: Config = arena(10, 10);
    config.ball_radius = (2 * ONE, 2 * ONE);
    let mut set: BallSet = BallSet::new();
    set.push(Ball::spawn(2 * ONE, 2 * ONE, 5 * ONE, -ONE, 0));
    set.advance(&config);
    assert_eq!(set.balls, vec![Ball::spawn(2 * ONE, 3 * ONE, 5 * ONE, ONE, 0)]);
}

#[test]
fn reflection_beyond_a_wall() {
    let config: Config = arena(80, 24);
    // The left edge is beyond the wall and the ball moves left: it turns round.
    let mut ball: Ball = Ball::spawn(3 * ONE, 3 * ONE - 1, 12 * ONE, -ONE, 0);
    ball.advance(&config);
    assert_eq!((ball.x_pos, ball.x_velocity), (4 * ONE - 1, ONE));
    assert_eq!((ball.y_pos, ball.y_velocity), (12 * ONE, 0));
}

#[test]
fn one_unit_short_of_a_wall_is_free_flight() {
    let config: Config = arena(80, 24);
    let mut ball: Ball = Ball::spawn(3 * ONE, 3 * ONE + 1, 21 * ONE - 1, -ONE, ONE);
    ball.advance(&config);
    assert_eq!(ball, Ball::spawn(3 * ONE, 2 * ONE + 1, 22 * ONE - 1, -ONE, ONE));
}

#[test]
fn touching_a_wall_while_moving_away_turns_toward_it() {
    let config: Config = arena(80, 24);
    // The test looks at the position alone: the ball is turned toward the wall,
    let mut ball: Ball = Ball::spawn(3 * ONE, 3 * ONE, 12 * ONE, ONE, 0);
    ball.advance(&config);
    assert_eq!((ball.x_pos, ball.x_velocity), (2 * ONE, -ONE));
    // and the next step turns it back and returns it to the wall.
    ball.advance(&config);
    assert_eq!((ball.x_pos, ball.x_velocity), (3 * ONE, ONE));
}

#[test]
fn reflection_at_exact_contact_with_each_wall() {
    let config: Config = arena(80, 24);
    let mut left: Ball = Ball::spawn(3 * ONE, 3 * ONE, 12 * ONE, -5, 0);
    left.advance(&config);
    assert_eq!((left.x_pos, left.x_velocity), (3 * ONE + 5, 5));
    let mut right: Ball = Ball::spawn(3 * ONE, 77 * ONE, 12 * ONE, 5, 0);
    right.advance(&config);
    assert_eq!((right.x_pos, right.x_velocity), (77 * ONE - 5, -5));
    let mut bottom: Ball = Ball::spawn(3 * ONE, 40 * ONE, 3 * ONE, 0, -5);
    bottom.advance(&config);
    assert_eq!((bottom.y_pos, bottom.y_velocity), (3 * ONE + 5, 5));
    let mut top: Ball = Ball::spawn(3 * ONE, 40 * ONE, 21 * ONE, 0, 5);
    top.advance(&config);
    assert_eq!((top.y_pos, top.y_velocity), (21 * ONE - 5, -5));
}

#[test]
fn a_ball_too_wide_for_the_grid_turns_round_at_once() {
    // Touching the left wall, but the right edge is beyond the right wall.
    let config: Config = arena(5, 24);
    let mut ball: Ball = Ball::spawn(3 * ONE, 3 * ONE, 12 * ONE, -ONE, 0);
    ball.advance(&config);
    assert_eq!((ball.x_pos, ball.x_velocity), (4 * ONE, ONE));
    // And again on every step, for one edge or the other is always beyond.
    ball.advance(&config);
    assert_eq!((ball.x_pos, ball.x_velocity), (3 * ONE, -ONE));
}

#[test]
fn reflection_at_each_wall() {
    let config: Config = arena(80, 24);
    let mut right: Ball = Ball::spawn(3 * ONE, 77 * ONE + 1, 12 * ONE, ONE, 0);
    right.advance(&config);
    assert_eq!((right.x_pos, right.x_velocity), (76 * ONE + 1, -ONE));
    let mut bottom: Ball = Ball::spawn(3 * ONE, 40 * ONE, 3 * ONE - 1, 0, -ONE);
    bottom.advance(&config);
    assert_eq!((bottom.y_pos, bottom.y_velocity), (4 * ONE - 1, ONE));
    let mut top: Ball = Ball::spawn(3 * ONE, 40 * ONE, 21 * ONE + 1, 0, ONE);
    top.advance(&config);
    assert_eq!((top.y_pos, top.y_velocity), (20 * ONE + 1, -ONE));
    let mut corner: Ball = Ball::spawn(3 * ONE, 3 * ONE - 1, 21 * ONE + 1, -ONE, ONE);
    corner.advance(&config);
    assert_eq!(corner, Ball::spawn(3 * ONE, 4 * ONE - 1, 20 * ONE + 1, ONE, -ONE));
}

#[test]
fn a_fast_ball_overshoots_for_one_frame() {
    let config: Config = arena(10, 10);
    let mut ball: Ball = Ball::spawn(2 * ONE, 2 * ONE + ONE / 2, 5 * ONE, -2 * ONE, 0);
    ball.advance(&config);
    // The edge was inside, so nothing was reflected, and the step took it out.
    assert_eq!((ball.x_pos, ball.x_velocity), (ONE / 2, -2 * ONE));
    assert!(ball.x_pos - ball.radius < 0);
    ball.advance(&config);
    assert_eq!((ball.x_pos, ball.x_velocity), (2 * ONE + ONE / 2, 2 * ONE));
}

#[test]
fn set_advances_every_ball() {
    let config: Config = arena(80, 24);
    let mut set: BallSet = BallSet::new();
    set.push(Ball::spawn(3 * ONE, 40 * ONE, 12 * ONE, ONE, ONE));
    set.push(Ball::spawn(3 * ONE, 3 * ONE - 1, 12 * ONE, -ONE, 0));
    set.push(Ball::spawn(5 * ONE, 10 * ONE, 10 * ONE, 0, 0));
    assert!(set.is_valid());
    set.advance(&config);
    assert_eq!(
        set.balls,
        vec![
            Ball::spawn(3 * ONE, 41 * ONE, 13 * ONE, ONE, ONE),
            Ball::spawn(3 * ONE, 4 * ONE - 1, 12 * ONE, ONE, 0),
            Ball::spawn(5 * ONE, 10 * ONE, 10 * ONE, 0, 0),
        ]
    );
    assert!(set.is_valid());
}

#[test]
fn validity_of_a_set() {
    let mut set: BallSet = BallSet::new();
    assert!(set.is_valid());
    set.push(Ball::spawn(ONE, 0, 0, 0, 0));
    assert!(set.is_valid());
    set.push(Ball::spawn(0, 0, 0, 0, 0));
    assert!(!set.is_valid());
}

fn speed(v: i64) -> i64 {
    if v < 0 {
        -v
    } else {
        v
    }
}

#[test]
fn no_ball_escapes_bounds() {
    let mut config: Config = arena(80, 24);
    config.n_of_balls = 16;
    let right: i64 = 80 * ONE;
    let top: i64 = 24 * ONE;
    let animation: Animation = Animation::init(config);
    let mut set: BallSet = animation.balls;
    assert_eq!(set.len(), 16);
    let start: Vec<Ball> = set.balls.clone();
    for ball in &start {
        assert!(ball.x_pos - ball.radius >= 0 && ball.x_pos + ball.radius <= right);
        assert!(ball.y_pos - ball.radius >= 0 && ball.y_pos + ball.radius <= top);
    }
    let mut out_x: Vec<bool> = vec![false; 16];
    let mut out_y: Vec<bool> = vec![false; 16];
    let mut frame: u32 = 0;
    while frame < 10_000 {
        set.advance(&config);
        for (i, ball) in set.balls.iter().enumerate() {
            let sx: i64 = speed(ball.x_velocity);
            let sy: i64 = speed(ball.y_velocity);
            assert_eq!(ball.radius, start[i].radius);
            assert_eq!(sx, speed(start[i].x_velocity));
            assert_eq!(sy, speed(start[i].y_velocity));
            // An edge is beyond its wall by less than one step, if at all.
            assert!(ball.x_pos - ball.radius >= -sx && ball.x_pos + ball.radius <= right + sx);
            assert!(ball.y_pos - ball.radius >= -sy && ball.y_pos + ball.radius <= top + sy);
            // And never for two frames in a row.
            let now_x: bool = ball.x_pos - ball.radius < 0 || ball.x_pos + ball.radius > right;
            let now_y: bool = ball.y_pos - ball.radius < 0 || ball.y_pos + ball.radius > top;
            assert!(!(now_x && out_x[i]));
            assert!(!(now_y && out_y[i]));
            out_x[i] = now_x;
            out_y[i] = now_y;
        }
        frame += 1;
    }
    assert!(set.is_valid());
}

#[test]
fn balls_at_rest_stay_where_they_are() {
    let config: Config = arena(20, 10);
    let mut set: BallSet = BallSet::new();
    set.push(Ball::spawn(2 * ONE, 5 * ONE, 5 * ONE, 0, 0));
    set.push(Ball::spawn(3 * ONE, 3 * ONE, 7 * ONE, 0, 0));
    let before: Vec<Ball> = set.balls.clone();
    let mut frame: u32 = 0;
    while frame < 10_000 {
        set.advance(&config);
        frame += 1;
    }
    assert_eq!(set.balls, before);
}

#[test]
fn balls_on_the_lattice_never_leave_the_grid() {
    // The distance to every wall is a whole number of steps: the ball reaches
    // each wall exactly, turns round there, and is inside at every frame.
    let config: Config = arena(20, 10);
    let right: i64 = 20 * ONE;
    let top: i64 = 10 * ONE;
    let mut set: BallSet = BallSet::new();
    set.push(Ball::spawn(2 * ONE, 5 * ONE, 5 * ONE, ONE, -ONE / 2));
    set.push(Ball::spawn(3 * ONE, 3 * ONE, 7 * ONE, -ONE / 4, ONE / 8));
    set.push(Ball::spawn(ONE, 19 * ONE, ONE, 3 * ONE, -4 * ONE));
    let mut touched: u32 = 0;
    let mut frame: u32 = 0;
    while frame < 10_000 {
        set.advance(&config);
        for ball in &set.balls {
            assert!(ball.x_pos - ball.radius >= 0 && ball.x_pos + ball.radius <= right);
            assert!(ball.y_pos - ball.radius >= 0 && ball.y_pos + ball.radius <= top);
            if ball.x_pos == ball.radius || ball.x_pos + ball.radius == right {
                touched += 1;
            }
        }
        frame += 1;
    }
    assert!(touched > 100);
}
