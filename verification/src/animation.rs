//! The animation: balls spawned at random within the configured ranges, and
//! the cycle of rendering a frame, advancing the balls and pacing, as one
//! transition that the caller drives with readings of its clock.
use vstd::prelude::*;
use crate::ball::{Ball, Motion};
use crate::ballset::{after_frames, all_in_play, lemma_after_frames, stepped, BallSet};
use crate::config::Config;
use crate::fixed::{lemma_lerp_range, lerp, scale, ONE};
use crate::pacer::{is_due, FramePacer, FPS, POLL_MS};
use crate::raster::{blank_cells, cells, frame, glyphs, new_grids, pattern, shaped, update, Grid};

verus! {

/// The default threshold of the field: 1.0 in fixed point.
pub const THRESHOLD: u64 = 65536;

/// The five uniform 32-bit draws that one ball is made of, in the order in
/// which they are drawn.
#[derive(Clone, Copy, Debug, PartialEq, Eq)]
pub struct Draws {
    pub radius: u32,
    pub x: u32,
    pub y: u32,
    pub x_velocity: u32,
    pub y_velocity: u32,
}

/// What the caller does next.
#[derive(Clone, Debug, PartialEq, Eq)]
pub enum Action {
    /// Show these rows of glyphs, top row first, then ask again.
    Present(Vec<Vec<char>>),
    /// Sleep for this many milliseconds, then ask again.
    Sleep(u64),
}

/// The whole state of a running animation.
#[derive(Clone, Debug, PartialEq, Eq)]
pub struct Animation {
    pub config: Config,
    pub balls: BallSet,
    pub grids: Vec<Vec<Grid>>,
    pub pacer: FramePacer,
    pub threshold: u64,
}

impl Config {
    /// The largest ball that may be spawned fits between the walls.
    pub open spec fn roomy(self) -> bool {
        &&& 2 * self.ball_radius.1 <= self.right()
        &&& 2 * self.ball_radius.1 <= self.top()
    }
}

/// The ball that the draws `d` make in the grid of `config`: a radius of the
/// radius range, a centre between `radius` and the far wall less `radius` on
/// each axis, and a velocity of the speed range on each axis.
pub open spec fn spawned(config: Config, d: Draws) -> Motion {
    let radius = lerp(d.radius, config.ball_radius.0 as int, config.ball_radius.1 as int);
    Motion {
        radius,
        x: lerp(d.x, radius, config.right() - radius),
        y: lerp(d.y, radius, config.top() - radius),
        vx: lerp(d.x_velocity, config.ball_speed.0 as int, config.ball_speed.1 as int),
        vy: lerp(d.y_velocity, config.ball_speed.0 as int, config.ball_speed.1 as int),
    }
}

/// The balls that a sequence of draws makes, in order.
pub open spec fn spawned_all(config: Config, draws: Seq<Draws>) -> Seq<Motion> {
    Seq::new(draws.len(), |i: int| spawned(config, draws[i]))
}

/// Some draws make the ball `m` in the grid of `config`.
pub open spec fn may_spawn(config: Config, m: Motion) -> bool {
    exists|d: Draws| #[trigger] spawned(config, d) == m
}

/// A spawned ball is well formed, its radius and both components of its
/// velocity lie in the configured ranges, and, where the configuration is
/// roomy, the whole ball lies inside the grid.
pub proof fn lemma_spawned(config: Config, d: Draws)
    requires
        config.wf(),
    ensures
        spawned(config, d).wf(),
        config.ball_radius.0 <= spawned(config, d).radius <= config.ball_radius.1,
        config.ball_speed.0 <= spawned(config, d).vx <= config.ball_speed.1,
        config.ball_speed.0 <= spawned(config, d).vy <= config.ball_speed.1,
        config.roomy() ==> spawned(config, d).inside(config),
        config.roomy() ==> spawned(config, d).in_play(config),
{
    let radius = lerp(d.radius, config.ball_radius.0 as int, config.ball_radius.1 as int);
    lemma_lerp_range(d.radius, config.ball_radius.0 as int, config.ball_radius.1 as int);
    lemma_lerp_range(d.x, radius, config.right() - radius);
    lemma_lerp_range(d.y, radius, config.top() - radius);
    lemma_lerp_range(d.x_velocity, config.ball_speed.0 as int, config.ball_speed.1 as int);
    lemma_lerp_range(d.y_velocity, config.ball_speed.0 as int, config.ball_speed.1 as int);
    assert(0 < config.right() <= 65535 * 65536);
    assert(0 < config.top() <= 65535 * 65536);
}

/// Balls spawned in a roomy grid never stray: however many frames pass, both
/// edges of every ball are within one step of the walls on both axes, and no
/// edge stays beyond a wall for two frames in a row.
pub proof fn lemma_spawned_never_stray(config: Config, draws: Seq<Draws>, n: nat, i: int)
    requires
        config.wf(),
        config.roomy(),
        0 <= i < draws.len(),
    ensures
        after_frames(spawned_all(config, draws), config, n).len() == draws.len(),
        after_frames(spawned_all(config, draws), config, n)[i] == spawned(config, draws[i]).after(
            config,
            n,
        ),
        after_frames(spawned_all(config, draws), config, n)[i].near_grid(config),
        after_frames(spawned_all(config, draws), config, n)[i].in_play(config),
{
    let balls = spawned_all(config, draws);
    assert forall|j: int| 0 <= j < balls.len() implies (#[trigger] balls[j]).in_play(config) by {
        lemma_spawned(config, draws[j]);
    }
    lemma_after_frames(balls, config, n, i);
}

/// `rand::random::<u32>()`: one value of the thread-local generator. Nothing
/// is claimed of the value. The generator seeds itself from the operating
/// system at its first use in a thread and stops the program if that fails.
#[verifier::external_body]
fn draw() -> (d: u32) {
    rand::random::<u32>()
}

/// Draws the five values of one ball: radius, x, y, then the two components
/// of the velocity.
pub fn draw_ball() -> (d: Draws) {
    let radius: u32 = draw();
    let x: u32 = draw();
    let y: u32 = draw();
    let x_velocity: u32 = draw();
    let y_velocity: u32 = draw();
    Draws { radius, x, y, x_velocity, y_velocity }
}

/// Draws the values of `n` balls.
pub fn draw_all(n: u8) -> (draws: Vec<Draws>)
    ensures
        draws@.len() == n,
{
    let mut draws: Vec<Draws> = Vec::new();
    let mut i: u8 = 0;
    while i < n
        invariant
            i <= n,
            draws@.len() == i,
        decreases n - i,
    {
        draws.push(draw_ball());
        i += 1;
    }
    draws
}

/// Makes the ball that the draws select from the ranges of `config`.
pub fn spawn_from(config: &Config, draws: &Draws) -> (ball: Ball)
    requires
        config.wf(),
    ensures
        ball@ == spawned(*config, *draws),
        ball.wf(),
{
    proof {
        lemma_spawned(*config, *draws);
        lemma_lerp_range(draws.radius, config.ball_radius.0 as int, config.ball_radius.1 as int);
    }
    let right: i64 = config.width as i64 * ONE;
    let top: i64 = config.height as i64 * ONE;
    let radius: i64 = scale(draws.radius, config.ball_radius.0, config.ball_radius.1);
    Ball::spawn(
        radius,
        scale(draws.x, radius, right - radius),
        scale(draws.y, radius, top - radius),
        scale(draws.x_velocity, config.ball_speed.0, config.ball_speed.1),
        scale(draws.y_velocity, config.ball_speed.0, config.ball_speed.1),
    )
}

/// Makes one ball for each element of `draws`, in order.
pub fn spawn_all(config: &Config, draws: &Vec<Draws>) -> (set: BallSet)
    requires
        config.wf(),
    ensures
        set@ == spawned_all(*config, draws@),
        set.wf(),
        config.roomy() ==> all_in_play(set@, *config),
{
    let mut set: BallSet = BallSet::new();
    let n: usize = draws.len();
    let mut i: usize = 0;
    while i < n
        invariant
            i <= n,
            n == draws@.len(),
            config.wf(),
            set@.len() == i,
            forall|j: int| 0 <= j < i ==> #[trigger] set@[j] == spawned(*config, draws@[j]),
        decreases n - i,
    {
        let ball: Ball = spawn_from(config, &draws[i]);
        set.push(ball);
        i += 1;
    }
    assert(set@ =~= spawned_all(*config, draws@));
    proof {
        assert forall|j: int| 0 <= j < set@.len() implies (#[trigger] set@[j]).wf() && (
        config.roomy() ==> set@[j].in_play(*config)) by {
            lemma_spawned(*config, draws@[j]);
        }
    }
    set
}

impl Animation {
    /// The balls are well formed, the buffer has the shape of the grid, and
    /// the frame rate is positive.
    pub open spec fn wf(self) -> bool {
        &&& self.balls.wf()
        &&& shaped(cells(self.grids), self.config)
        &&& self.pacer.wf()
    }

    /// Every ball is in play in the grid.
    pub open spec fn in_play(self) -> bool {
        all_in_play(self.balls@, self.config)
    }

    /// Makes an animation of the given balls, with a fresh buffer and a pacer
    /// at frame 0.
    pub fn assemble(config: Config, balls: BallSet, threshold: u64, fps: u64) -> (animation:
        Animation)
        requires
            balls.wf(),
            fps > 0,
        ensures
            animation.wf(),
            animation.config == config,
            animation.balls == balls,
            animation.threshold == threshold,
            animation.pacer == (FramePacer { fps, frames: 0 }),
            cells(animation.grids) == blank_cells(config),
    {
        let grids: Vec<Vec<Grid>> = new_grids(&config);
        Animation { config, balls, grids, pacer: FramePacer::new(fps), threshold }
    }

    /// Makes an animation whose balls are spawned from the given draws.
    pub fn init_from(config: Config, draws: &Vec<Draws>, threshold: u64, fps: u64) -> (animation:
        Animation)
        requires
            config.wf(),
            fps > 0,
        ensures
            animation.wf(),
            animation.config == config,
            animation.balls@ == spawned_all(config, draws@),
            animation.threshold == threshold,
            animation.pacer == (FramePacer { fps, frames: 0 }),
            cells(animation.grids) == blank_cells(config),
            config.roomy() ==> animation.in_play(),
    {
        let balls: BallSet = spawn_all(&config, draws);
        Animation::assemble(config, balls, threshold, fps)
    }

    /// Makes an animation of `config.n_of_balls` balls spawned at random, at
    /// the default threshold and frame rate. Whatever is drawn, every ball is
    /// one that some draws make, and so well formed and within the configured
    /// ranges.
    pub fn init(config: Config) -> (animation: Animation)
        requires
            config.wf(),
        ensures
            animation.wf(),
            animation.config == config,
            animation.balls@.len() == config.n_of_balls,
            forall|i: int|
                0 <= i < animation.balls@.len() ==> may_spawn(config, #[trigger] animation.balls@[i]),
            animation.threshold == THRESHOLD,
            animation.pacer == (FramePacer { fps: FPS, frames: 0 }),
            cells(animation.grids) == blank_cells(config),
            config.roomy() ==> animation.in_play(),
    {
        let draws: Vec<Draws> = draw_all(config.n_of_balls);
        let animation: Animation = Animation::init_from(config, &draws, THRESHOLD, FPS);
        assert forall|i: int| 0 <= i < animation.balls@.len() implies may_spawn(
            config,
            #[trigger] animation.balls@[i],
        ) by {
            assert(spawned(config, draws@[i]) == animation.balls@[i]);
        }
        animation
    }

    /// Renders the current frame into rows of glyphs. Only the buffer of
    /// records changes.
    pub fn render(&mut self) -> (rows: Vec<Vec<char>>)
        requires
            old(self).wf(),
        ensures
            glyphs(rows) == frame(old(self).config, old(self).balls@, old(self).threshold as int),
            cells(final(self).grids) == pattern(
                old(self).config,
                old(self).balls@,
                old(self).threshold as int,
            ),
            final(self).config == old(self).config,
            final(self).balls == old(self).balls,
            final(self).pacer == old(self).pacer,
            final(self).threshold == old(self).threshold,
            final(self).wf(),
    {
        let rows: Vec<Vec<char>> = update(&self.config, &mut self.grids, &self.balls, self.threshold);
        rows
    }

    /// One transition of the animation at the clock reading `elapsed_ms`,
    /// milliseconds since the start. If the next frame is due, it is
    /// rendered, the balls are advanced by one step, the frame is counted,
    /// and its rows are handed out. If not, nothing changes and a short sleep
    /// is asked for.
    pub fn tick(&mut self, elapsed_ms: u64) -> (action: Action)
        requires
            old(self).wf(),
            old(self).pacer.frames < u64::MAX,
        ensures
            final(self).config == old(self).config,
            final(self).threshold == old(self).threshold,
            final(self).pacer.fps == old(self).pacer.fps,
            is_due(old(self).pacer.fps as int, old(self).pacer.frames as int, elapsed_ms as int)
                ==> {
                &&& action matches Action::Present(rows) && glyphs(rows) == frame(
                    old(self).config,
                    old(self).balls@,
                    old(self).threshold as int,
                )
                &&& cells(final(self).grids) == pattern(
                    old(self).config,
                    old(self).balls@,
                    old(self).threshold as int,
                )
                &&& final(self).balls@ == stepped(old(self).balls@, old(self).config)
                &&& final(self).pacer.frames == old(self).pacer.frames + 1
            },
            !is_due(old(self).pacer.fps as int, old(self).pacer.frames as int, elapsed_ms as int)
                ==> action == Action::Sleep(POLL_MS) && *final(self) == *old(self),
            final(self).wf(),
            old(self).in_play() ==> final(self).in_play(),
    {
        if self.pacer.due(elapsed_ms) {
            let rows: Vec<Vec<char>> = self.render();
            self.balls.advance(&self.config);
            self.pacer.completed();
            Action::Present(rows)
        } else {
            Action::Sleep(POLL_MS)
        }
    }
}

} // verus!
