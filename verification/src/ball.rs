//! One ball: its kinematic state, its contribution to the scalar field, and
//! its motion with reflection at the walls of the grid.
use vstd::prelude::*;
use vstd::arithmetic::div_mod::{lemma_mod_add_multiples_vanish, lemma_mod_self_0,
    lemma_mod_sub_multiples_vanish, lemma_small_mod};
use crate::config::Config;
use crate::fixed::{lemma_root_quotient_below, lemma_root_quotient_bounds,
    lemma_root_quotient_monotone, quotient_by_root, root_quotient, ONE, REACH};

verus! {

/// The kinematic state of a ball, in 16.16 fixed-point grid cells.
#[derive(Clone, Copy, Debug, PartialEq, Eq)]
pub struct Ball {
    pub radius: i64,
    pub x_pos: i64,
    pub y_pos: i64,
    pub x_velocity: i64,
    pub y_velocity: i64,
}

/// The mathematical state of a ball: the same five quantities as unbounded
/// integers, still in fixed-point units.
pub struct Motion {
    pub radius: int,
    pub x: int,
    pub y: int,
    pub vx: int,
    pub vy: int,
}

impl View for Ball {
    type V = Motion;

    open spec fn view(&self) -> Motion {
        Motion {
            radius: self.radius as int,
            x: self.x_pos as int,
            y: self.y_pos as int,
            vx: self.x_velocity as int,
            vy: self.y_velocity as int,
        }
    }
}

/// A value of the scalar field: a finite fixed-point number, or unbounded at
/// the exact centre of a ball, where the distance is zero.
#[derive(Clone, Copy, Debug, PartialEq, Eq)]
pub enum Potential {
    Finite(u128),
    Unbounded,
}

impl View for Potential {
    type V = Option<int>;

    /// `Some` of the finite value, `None` for the unbounded one.
    open spec fn view(&self) -> Option<int> {
        match *self {
            Potential::Finite(v) => Some(v as int),
            Potential::Unbounded => None,
        }
    }
}

/// A field value is below a threshold when it is finite and strictly smaller.
/// The unbounded value is below no threshold.
pub open spec fn is_below(p: Option<int>, threshold: int) -> bool {
    match p {
        Some(v) => v < threshold,
        None => false,
    }
}

impl Potential {
    /// Compares the value with a threshold.
    pub fn below(&self, threshold: u64) -> (r: bool)
        ensures
            r == is_below(self@, threshold as int),
    {
        match *self {
            Potential::Finite(v) => v < threshold as u128,
            Potential::Unbounded => false,
        }
    }
}

/// The absolute value of `v`.
pub open spec fn magnitude(v: int) -> int {
    if v < 0 {
        -v
    } else {
        v
    }
}

/// The velocity on one axis after the reflection test: reversed when either
/// edge of the ball, `pos - radius` or `pos + radius`, has reached or passed
/// its wall at 0 or at `extent`, and unchanged otherwise. The test looks at
/// the position alone, not at the direction of the motion: a ball that
/// touches a wall while it moves away from it is turned toward that wall,
/// passes it by one step, and is turned back by the next step.
pub open spec fn reflect(pos: int, radius: int, vel: int, extent: int) -> int {
    if pos - radius <= 0 || pos + radius >= extent {
        -vel
    } else {
        vel
    }
}

/// The ball lies between the walls of one axis.
pub open spec fn axis_inside(pos: int, radius: int, extent: int) -> bool {
    0 <= pos - radius && pos + radius <= extent
}

/// What motion maintains on one axis: an edge is beyond its wall by no more
/// than one step, and only while the ball still moves away from the grid, so
/// that the next step brings that edge back.
pub open spec fn axis_in_play(pos: int, radius: int, vel: int, extent: int) -> bool {
    &&& -magnitude(vel) <= pos - radius
    &&& pos + radius <= extent + magnitude(vel)
    &&& (pos - radius < 0 ==> vel <= 0)
    &&& (pos + radius > extent ==> vel >= 0)
}

/// On one axis the ball moves on the lattice of its own speed: it lies
/// between the walls, its distance to each wall is a whole number of steps,
/// and where an edge touches a wall the ball does not move away from it.
pub open spec fn axis_on_lattice(pos: int, radius: int, vel: int, extent: int) -> bool {
    &&& axis_inside(pos, radius, extent)
    &&& (vel != 0 ==> (pos - radius) % magnitude(vel) == 0)
    &&& (vel != 0 ==> (extent - pos - radius) % magnitude(vel) == 0)
    &&& (pos - radius == 0 ==> vel <= 0)
    &&& (pos + radius == extent ==> vel >= 0)
}

/// The machine bound on one axis: the speed is within `REACH`, and the
/// position is within `2 * REACH` of the origin, or beyond by no more than
/// the one step that took it there, the velocity still pointing outward, so
/// that the reflection of the next step brings it back.
pub open spec fn axis_bounded(pos: int, vel: int) -> bool {
    &&& -REACH <= vel <= REACH
    &&& -2 * REACH - magnitude(vel) <= pos <= 2 * REACH + magnitude(vel)
    &&& (pos < -2 * REACH ==> vel <= 0)
    &&& (pos > 2 * REACH ==> vel >= 0)
}

impl Motion {
    /// The radius is positive and within `REACH`, and both axes are bounded.
    /// This is what the arithmetic of a step and of a field sample needs, and
    /// every step maintains it, in every grid.
    pub open spec fn wf(self) -> bool {
        &&& 0 < self.radius <= REACH
        &&& axis_bounded(self.x, self.vx)
        &&& axis_bounded(self.y, self.vy)
    }

    /// The squared distance, in fixed-point units, from the centre of the ball
    /// to the grid point `(px, py)`.
    pub open spec fn dist2(self, px: int, py: int) -> int {
        let dx = px * ONE - self.x;
        let dy = py * ONE - self.y;
        dx * dx + dy * dy
    }

    /// The contribution of the ball to the field at the grid point `(px, py)`:
    /// radius over Euclidean distance, as a fixed-point number, rounded down
    /// to a whole unit. Nothing else is rounded. At the centre of the ball the
    /// contribution is unbounded.
    pub open spec fn potential_at(self, px: int, py: int) -> Option<int> {
        let d2 = self.dist2(px, py);
        if d2 == 0 {
            None
        } else {
            Some(root_quotient(self.radius * ONE, d2))
        }
    }

    /// The ball one step later: on each axis the velocity is reflected first,
    /// at the position the ball has now, and then added to the position.
    pub open spec fn step(self, config: Config) -> Motion {
        let vx = reflect(self.x, self.radius, self.vx, config.right());
        let vy = reflect(self.y, self.radius, self.vy, config.top());
        Motion { radius: self.radius, x: self.x + vx, y: self.y + vy, vx, vy }
    }

    /// The ball `n` steps later.
    pub open spec fn after(self, config: Config, n: nat) -> Motion
        decreases n,
    {
        if n == 0 {
            self
        } else {
            self.after(config, (n - 1) as nat).step(config)
        }
    }

    /// The whole ball lies inside the grid.
    pub open spec fn inside(self, config: Config) -> bool {
        &&& axis_inside(self.x, self.radius, config.right())
        &&& axis_inside(self.y, self.radius, config.top())
    }

    /// The ball is well formed, fits between the walls, and is in play on both
    /// axes.
    pub open spec fn in_play(self, config: Config) -> bool {
        &&& 0 < self.radius <= REACH
        &&& 2 * self.radius <= config.right()
        &&& 2 * self.radius <= config.top()
        &&& -REACH <= self.vx <= REACH
        &&& -REACH <= self.vy <= REACH
        &&& axis_in_play(self.x, self.radius, self.vx, config.right())
        &&& axis_in_play(self.y, self.radius, self.vy, config.top())
    }

    /// The ball moves on the lattice of its own speed on both axes.
    pub open spec fn on_lattice(self, config: Config) -> bool {
        &&& axis_on_lattice(self.x, self.radius, self.vx, config.right())
        &&& axis_on_lattice(self.y, self.radius, self.vy, config.top())
    }

    /// Both edges of the ball are within one step of the walls on both axes.
    pub open spec fn near_grid(self, config: Config) -> bool {
        &&& -magnitude(self.vx) <= self.x - self.radius
        &&& self.x + self.radius <= config.right() + magnitude(self.vx)
        &&& -magnitude(self.vy) <= self.y - self.radius
        &&& self.y + self.radius <= config.top() + magnitude(self.vy)
    }
}

impl Ball {
    /// The ball's state is well formed.
    pub open spec fn wf(self) -> bool {
        self@.wf()
    }

    /// Makes a ball of the given state.
    pub fn spawn(radius: i64, x_pos: i64, y_pos: i64, x_velocity: i64, y_velocity: i64) -> (ball:
        Ball)
        ensures
            ball == (Ball { radius, x_pos, y_pos, x_velocity, y_velocity }),
    {
        Ball { radius, x_pos, y_pos, x_velocity, y_velocity }
    }

    /// Tells whether the ball is well formed.
    pub fn is_valid(&self) -> (r: bool)
        ensures
            r == self.wf(),
    {
        0 < self.radius && self.radius <= REACH && axis_is_bounded(self.x_pos, self.x_velocity)
            && axis_is_bounded(self.y_pos, self.y_velocity)
    }

    /// Advances the ball by one frame: reflects the velocity on each axis on
    /// which an edge of the ball has reached or passed a wall, then moves the
    /// ball by its velocity. The ball stays well formed, and a ball in play
    /// stays in play.
    pub fn advance(&mut self, config: &Config)
        requires
            old(self).wf(),
        ensures
            final(self)@ == old(self)@.step(*config),
            final(self).wf(),
            old(self)@.in_play(*config) ==> final(self)@.in_play(*config),
    {
        proof {
            lemma_step_wf(self@, *config);
            if self@.in_play(*config) {
                lemma_step_in_play(self@, *config);
            }
        }
        let right: i64 = config.width as i64 * ONE;
        let top: i64 = config.height as i64 * ONE;
        if self.x_pos - self.radius <= 0 || self.x_pos + self.radius >= right {
            self.x_velocity = -self.x_velocity;
        }
        if self.y_pos - self.radius <= 0 || self.y_pos + self.radius >= top {
            self.y_velocity = -self.y_velocity;
        }
        self.x_pos = self.x_pos + self.x_velocity;
        self.y_pos = self.y_pos + self.y_velocity;
    }

    /// Evaluates the contribution of the ball to the field at the grid point
    /// `(checker_x, checker_y)`.
    pub fn implicit_f(&self, checker_x: i32, checker_y: i32) -> (p: Potential)
        requires
            self.wf(),
        ensures
            p@ == self@.potential_at(checker_x as int, checker_y as int),
            p matches Potential::Finite(v) ==> v <= REACH * ONE,
    {
        let unit: i128 = ONE as i128;
        assert(unit == 65536);
        let x: i128 = checker_x as i128 * unit - self.x_pos as i128;
        let y: i128 = checker_y as i128 * unit - self.y_pos as i128;
        assert(0 <= x * x <= 0x1_0000_0000_0000 * 0x1_0000_0000_0000) by (nonlinear_arith)
            requires
                -0x1_0000_0000_0000 <= x <= 0x1_0000_0000_0000,
        ;
        assert(0 <= y * y <= 0x1_0000_0000_0000 * 0x1_0000_0000_0000) by (nonlinear_arith)
            requires
                -0x1_0000_0000_0000 <= y <= 0x1_0000_0000_0000,
        ;
        let d2: u128 = (x * x + y * y) as u128;
        if d2 == 0 {
            Potential::Unbounded
        } else {
            let scaled: u64 = self.radius as u64 * ONE as u64;
            Potential::Finite(quotient_by_root(scaled, d2) as u128)
        }
    }
}

/// Tells whether one axis of a ball is within the machine bound.
pub fn axis_is_bounded(pos: i64, vel: i64) -> (r: bool)
    ensures
        r == axis_bounded(pos as int, vel as int),
{
    if vel < -REACH || vel > REACH {
        return false;
    }
    let speed: i64 = if vel < 0 {
        -vel
    } else {
        vel
    };
    -2 * REACH - speed <= pos && pos <= 2 * REACH + speed && (pos >= -2 * REACH || vel <= 0) && (pos
        <= 2 * REACH || vel >= 0)
}

/// One step keeps a ball well formed, whatever the grid.
pub proof fn lemma_step_wf(m: Motion, config: Config)
    requires
        m.wf(),
    ensures
        m.step(config).wf(),
{
    assert(0 <= config.right() <= 65535 * 65536);
    assert(0 <= config.top() <= 65535 * 65536);
}

/// A ball that lies inside a grid is in play there.
pub proof fn lemma_inside_in_play(m: Motion, config: Config)
    requires
        m.wf(),
        m.inside(config),
    ensures
        m.in_play(config),
{
    assert(0 <= config.right() <= 65535 * 65536);
    assert(0 <= config.top() <= 65535 * 65536);
}

/// A ball in play is well formed and within one step of the walls.
pub proof fn lemma_in_play_near_grid(m: Motion, config: Config)
    requires
        m.in_play(config),
    ensures
        m.wf(),
        m.near_grid(config),
{
    assert(config.right() <= 65535 * 65536);
    assert(config.top() <= 65535 * 65536);
}

/// One step keeps a ball in play, keeps its radius and the magnitude of its
/// velocity on each axis, and brings back an edge that was beyond a wall.
pub proof fn lemma_step_in_play(m: Motion, config: Config)
    requires
        m.in_play(config),
    ensures
        m.step(config).in_play(config),
        m.step(config).wf(),
        m.step(config).radius == m.radius,
        magnitude(m.step(config).vx) == magnitude(m.vx),
        magnitude(m.step(config).vy) == magnitude(m.vy),
        m.x - m.radius < 0 ==> m.step(config).x - m.radius >= 0,
        m.x + m.radius > config.right() ==> m.step(config).x + m.radius <= config.right(),
        m.y - m.radius < 0 ==> m.step(config).y - m.radius >= 0,
        m.y + m.radius > config.top() ==> m.step(config).y + m.radius <= config.top(),
{
    lemma_in_play_near_grid(m.step(config), config);
}

/// However many steps a ball in play makes, it stays in play: at every frame
/// both of its edges are within one step of the walls, on both axes, and its
/// speed on each axis is the one it started with.
pub proof fn lemma_after_in_play(m: Motion, config: Config, n: nat)
    requires
        m.in_play(config),
    ensures
        m.after(config, n).in_play(config),
        m.after(config, n).near_grid(config),
        m.after(config, n).radius == m.radius,
        magnitude(m.after(config, n).vx) == magnitude(m.vx),
        magnitude(m.after(config, n).vy) == magnitude(m.vy),
    decreases n,
{
    if n > 0 {
        lemma_after_in_play(m, config, (n - 1) as nat);
        lemma_step_in_play(m.after(config, (n - 1) as nat), config);
    }
    lemma_in_play_near_grid(m.after(config, n), config);
}

/// A ball at rest stays where it is.
pub proof fn lemma_resting_stays(m: Motion, config: Config, n: nat)
    requires
        m.vx == 0,
        m.vy == 0,
    ensures
        m.after(config, n) == m,
    decreases n,
{
    if n > 0 {
        lemma_resting_stays(m, config, (n - 1) as nat);
    }
}

/// A whole number of steps is no step or at least one, and stays whole when
/// a step is added or taken away.
pub proof fn lemma_whole_steps(gap: int, speed: int)
    requires
        0 < speed,
        0 <= gap,
        gap % speed == 0,
    ensures
        gap == 0 || gap >= speed,
        (gap + speed) % speed == 0,
        gap >= speed ==> (gap - speed) % speed == 0,
        speed % speed == 0,
{
    if gap < speed {
        lemma_small_mod(gap as nat, speed as nat);
    }
    lemma_mod_add_multiples_vanish(gap, speed);
    lemma_mod_sub_multiples_vanish(gap, speed);
    lemma_mod_self_0(speed);
}

/// One step keeps an axis on the lattice.
pub proof fn lemma_axis_lattice_step(pos: int, radius: int, vel: int, extent: int)
    requires
        axis_on_lattice(pos, radius, vel, extent),
    ensures
        axis_on_lattice(
            pos + reflect(pos, radius, vel, extent),
            radius,
            reflect(pos, radius, vel, extent),
            extent,
        ),
{
    if vel != 0 {
        let speed = magnitude(vel);
        lemma_whole_steps(pos - radius, speed);
        lemma_whole_steps(extent - pos - radius, speed);
    }
}

/// A ball on the lattice of its own speed never leaves the grid: it reaches
/// each wall exactly, is reflected there, and so lies inside the grid at
/// every frame. A ball at rest inside the grid is the simplest case.
pub proof fn lemma_lattice_stays_inside(m: Motion, config: Config, n: nat)
    requires
        m.on_lattice(config),
    ensures
        m.after(config, n).on_lattice(config),
        m.after(config, n).inside(config),
    decreases n,
{
    if n > 0 {
        lemma_lattice_stays_inside(m, config, (n - 1) as nat);
        let before = m.after(config, (n - 1) as nat);
        lemma_axis_lattice_step(before.x, before.radius, before.vx, config.right());
        lemma_axis_lattice_step(before.y, before.radius, before.vy, config.top());
    }
}

/// A ball that moves toward a wall which its edge has reached or passed
/// turns round, at each of the four walls alike: after one step its velocity
/// on that axis is the opposite one, pointing into the grid, and its position
/// has moved by that new velocity.
pub proof fn lemma_reflects_at_walls(m: Motion, config: Config)
    ensures
        m.x - m.radius <= 0 && m.vx < 0 ==> m.step(config).vx == -m.vx && m.step(config).vx > 0
            && m.step(config).x == m.x - m.vx,
        m.x + m.radius >= config.right() && m.vx > 0 ==> m.step(config).vx == -m.vx && m.step(
            config,
        ).vx < 0 && m.step(config).x == m.x - m.vx,
        m.y - m.radius <= 0 && m.vy < 0 ==> m.step(config).vy == -m.vy && m.step(config).vy > 0
            && m.step(config).y == m.y - m.vy,
        m.y + m.radius >= config.top() && m.vy > 0 ==> m.step(config).vy == -m.vy && m.step(
            config,
        ).vy < 0 && m.step(config).y == m.y - m.vy,
{
}

/// A ball strictly between the walls of an axis keeps its velocity there.
pub proof fn lemma_free_flight(m: Motion, config: Config)
    ensures
        0 < m.x - m.radius && m.x + m.radius < config.right() ==> m.step(config).vx == m.vx
            && m.step(config).x == m.x + m.vx,
        0 < m.y - m.radius && m.y + m.radius < config.top() ==> m.step(config).vy == m.vy
            && m.step(config).y == m.y + m.vy,
{
}

/// The reflection test does not ask where the ball is going. A ball in play
/// whose left edge touches the left wall while it moves right is turned
/// toward the wall and passes it by one step; the step after turns it back
/// and returns it to the wall. The same holds at the other three walls.
pub proof fn lemma_turned_toward_touched_wall(m: Motion, config: Config)
    requires
        m.in_play(config),
        m.x == m.radius,
        m.vx > 0,
    ensures
        m.step(config).vx == -m.vx,
        m.step(config).x == m.x - m.vx,
        m.step(config).x - m.radius < 0,
        m.step(config).step(config).vx == m.vx,
        m.step(config).step(config).x == m.x,
{
}

/// Two grid points at the same distance from a ball get the same
/// contribution from it.
pub proof fn lemma_potential_symmetric(m: Motion, px: int, py: int, qx: int, qy: int)
    requires
        m.dist2(px, py) == m.dist2(qx, qy),
    ensures
        m.potential_at(px, py) == m.potential_at(qx, qy),
{
}

/// The contribution of a ball is unbounded at one point only: the grid point,
/// if there is one, that coincides with its centre. Everywhere else the
/// squared distance is positive and the contribution finite.
pub proof fn lemma_unbounded_at_centre_only(m: Motion, px: int, py: int)
    ensures
        m.dist2(px, py) >= 0,
        m.potential_at(px, py) is None <==> (px * ONE == m.x && py * ONE == m.y),
{
    let dx = px * ONE - m.x;
    let dy = py * ONE - m.y;
    assert(dx * dx >= 0 && (dx * dx == 0 <==> dx == 0)) by (nonlinear_arith);
    assert(dy * dy >= 0 && (dy * dy == 0 <==> dy == 0)) by (nonlinear_arith);
}

/// The contribution of a ball does not grow with the distance: of two grid
/// points off its centre, the farther one gets no more than the nearer one.
pub proof fn lemma_potential_monotone(m: Motion, px: int, py: int, qx: int, qy: int)
    requires
        0 < m.radius,
        0 < m.dist2(px, py) <= m.dist2(qx, qy),
    ensures
        m.potential_at(px, py) is Some,
        m.potential_at(qx, qy) is Some,
        m.potential_at(px, py).unwrap() >= m.potential_at(qx, qy).unwrap() >= 0,
{
    lemma_root_quotient_monotone(m.radius * ONE, m.dist2(px, py), m.dist2(qx, qy));
}

/// Where the contribution strictly decreases with the distance. The exact
/// quotient of radius and distance always does; its fixed-point value does
/// exactly when a whole unit lies between the two: when the exact
/// contribution at the nearer point is at least the unit next above the
/// value at the farther one.
pub proof fn lemma_potential_strictly_monotone(m: Motion, px: int, py: int, qx: int, qy: int)
    requires
        0 < m.radius,
        0 < m.dist2(px, py),
        0 < m.dist2(qx, qy),
    ensures
        ({
            let near = m.potential_at(px, py).unwrap();
            let far = m.potential_at(qx, qy).unwrap();
            let r = m.radius * ONE;
            near > far <==> (far + 1) * (far + 1) * m.dist2(px, py) <= r * r
        }),
{
    let near = m.potential_at(px, py).unwrap();
    let far = m.potential_at(qx, qy).unwrap();
    let r = m.radius * ONE;
    lemma_root_quotient_bounds(r, m.dist2(px, py));
    lemma_root_quotient_bounds(r, m.dist2(qx, qy));
    lemma_root_quotient_below(r, m.dist2(px, py), far + 1);
}

/// The fixed-point contribution `c` is the exact quotient of radius and
/// distance, rounded down: with `r` the radius times `ONE` and `d` the
/// distance, `c <= r / d < c + 1`. It is stated over squares, so that no root
/// appears.
pub proof fn lemma_potential_brackets(m: Motion, px: int, py: int)
    requires
        0 < m.radius,
        0 < m.dist2(px, py),
    ensures
        ({
            let c = m.potential_at(px, py).unwrap();
            let r = m.radius * ONE;
            let d2 = m.dist2(px, py);
            &&& 0 <= c <= r
            &&& c * c * d2 <= r * r
            &&& r * r < (c + 1) * (c + 1) * d2
        }),
{
    lemma_root_quotient_bounds(m.radius * ONE, m.dist2(px, py));
}

/// The contour of one ball is a circle. Off the centre, the contribution is
/// below a threshold `t` exactly when the grid point is farther from the
/// centre than `radius * ONE / t`; at the threshold 1.0 that is the circle of
/// the ball's own radius, and a point on the circle itself is not below.
pub proof fn lemma_contour_is_circle(m: Motion, px: int, py: int, t: int)
    requires
        0 < m.radius,
        0 <= t,
    ensures
        is_below(m.potential_at(px, py), t) <==> (m.radius * ONE) * (m.radius * ONE) < t * t
            * m.dist2(px, py),
        is_below(m.potential_at(px, py), ONE as int) <==> m.radius * m.radius < m.dist2(px, py),
{
    lemma_unbounded_at_centre_only(m, px, py);
    let d2 = m.dist2(px, py);
    let r = m.radius * ONE;
    if d2 > 0 {
        lemma_root_quotient_below(r, d2, t);
        lemma_root_quotient_below(r, d2, ONE as int);
        assert(r * r < 65536 * 65536 * d2 <==> m.radius * m.radius < d2) by (nonlinear_arith)
            requires
                r == m.radius * 65536,
        ;
    } else {
        assert(t * t * d2 == 0) by (nonlinear_arith)
            requires
                d2 == 0,
        ;
        assert(r * r >= 0) by (nonlinear_arith);
        assert(m.radius * m.radius > 0) by (nonlinear_arith)
            requires
                0 < m.radius,
        ;
    }
}

} // verus!
