//! The set of balls: the aggregate field, which is the sum of the
//! contributions of all balls, and the physics step of the whole set.
use vstd::prelude::*;
use vstd::seq_lib::{to_multiset_contains, to_multiset_len, to_multiset_remove};
use crate::ball::{lemma_after_in_play, lemma_step_in_play, lemma_step_wf, Ball, Motion, Potential};
use crate::config::Config;
use crate::fixed::{ONE, REACH};

verus! {

/// The balls of one animation, in the order in which they were added. The
/// order has no effect on the field.
#[derive(Clone, Debug, PartialEq, Eq)]
pub struct BallSet {
    pub balls: Vec<Ball>,
}

impl View for BallSet {
    type V = Seq<Motion>;

    /// The states of the balls, in order.
    open spec fn view(&self) -> Seq<Motion> {
        Seq::new(self.balls@.len(), |i: int| self.balls@[i]@)
    }
}

/// The sum of two field values: unbounded as soon as one of them is.
pub open spec fn combine(a: Option<int>, b: Option<int>) -> Option<int> {
    match (a, b) {
        (Some(x), Some(y)) => Some(x + y),
        _ => None,
    }
}

/// The aggregate field at the grid point `(px, py)`: the sum of the
/// contributions of all the balls.
pub open spec fn field_at(balls: Seq<Motion>, px: int, py: int) -> Option<int>
    decreases balls.len(),
{
    if balls.len() == 0 {
        Some(0)
    } else {
        combine(field_at(balls.drop_last(), px, py), balls.last().potential_at(px, py))
    }
}

/// Every ball one step later.
pub open spec fn stepped(balls: Seq<Motion>, config: Config) -> Seq<Motion> {
    Seq::new(balls.len(), |i: int| balls[i].step(config))
}

/// Every ball `n` frames later.
pub open spec fn after_frames(balls: Seq<Motion>, config: Config, n: nat) -> Seq<Motion>
    decreases n,
{
    if n == 0 {
        balls
    } else {
        stepped(after_frames(balls, config, (n - 1) as nat), config)
    }
}

/// Every ball is well formed.
pub open spec fn all_wf(balls: Seq<Motion>) -> bool {
    forall|i: int| 0 <= i < balls.len() ==> (#[trigger] balls[i]).wf()
}

/// Every ball is in play in the grid of `config`.
pub open spec fn all_in_play(balls: Seq<Motion>, config: Config) -> bool {
    forall|i: int| 0 <= i < balls.len() ==> (#[trigger] balls[i]).in_play(config)
}

impl BallSet {
    /// Every ball of the set is well formed.
    pub open spec fn wf(self) -> bool {
        all_wf(self@)
    }

    /// Makes an empty set.
    pub fn new() -> (set: BallSet)
        ensures
            set@ == Seq::<Motion>::empty(),
            set.balls@ == Seq::<Ball>::empty(),
    {
        let set = BallSet { balls: Vec::new() };
        assert(set@ =~= Seq::<Motion>::empty());
        set
    }

    /// Adds a ball at the end of the set.
    pub fn push(&mut self, ball: Ball)
        ensures
            final(self)@ == old(self)@.push(ball@),
            final(self).balls@ == old(self).balls@.push(ball),
    {
        self.balls.push(ball);
        assert(self@ =~= old(self)@.push(ball@));
    }

    /// The number of balls.
    pub fn len(&self) -> (n: usize)
        ensures
            n == self@.len(),
    {
        self.balls.len()
    }

    /// Tells whether every ball of the set is well formed.
    pub fn is_valid(&self) -> (r: bool)
        ensures
            r == self.wf(),
    {
        let n: usize = self.balls.len();
        let mut i: usize = 0;
        while i < n
            invariant
                i <= n,
                n == self.balls.len(),
                forall|j: int| 0 <= j < i ==> (#[trigger] self@[j]).wf(),
            decreases n - i,
        {
            if !self.balls[i].is_valid() {
                assert(!self@[i as int].wf());
                return false;
            }
            i += 1;
        }
        true
    }

    /// Evaluates the aggregate field at the grid point `(x, y)`.
    pub fn borders_val(&self, x: i32, y: i32) -> (total: Potential)
        requires
            self.wf(),
        ensures
            total@ == field_at(self@, x as int, y as int),
    {
        let n: usize = self.balls.len();
        let mut sum: u128 = 0;
        let mut unbounded: bool = false;
        let mut i: usize = 0;
        assert(self@.take(0) =~= Seq::<Motion>::empty());
        assert(REACH * ONE == 0x100_0000_0000_0000);
        while i < n
            invariant
                i <= n,
                n == self.balls.len(),
                self.wf(),
                sum <= i * (REACH * ONE),
                REACH * ONE == 0x100_0000_0000_0000,
                field_at(self@.take(i as int), x as int, y as int) == (if unbounded {
                    None
                } else {
                    Some(sum as int)
                }),
            decreases n - i,
        {
            assert(self@[i as int].wf());
            let p: Potential = self.balls[i].implicit_f(x, y);
            proof {
                let upto = self@.take(i as int + 1);
                assert(upto.drop_last() =~= self@.take(i as int));
                assert(upto.last() == self@[i as int]);
            }
            match p {
                Potential::Finite(v) => {
                    sum = sum + v;
                },
                Potential::Unbounded => {
                    unbounded = true;
                },
            }
            i += 1;
        }
        assert(self@.take(n as int) =~= self@);
        if unbounded {
            Potential::Unbounded
        } else {
            Potential::Finite(sum)
        }
    }

    /// Advances every ball by one frame, each on its own: balls do not
    /// collide with each other. The set stays well formed, and balls in play
    /// stay in play.
    pub fn advance(&mut self, config: &Config)
        requires
            old(self).wf(),
        ensures
            final(self)@ == stepped(old(self)@, *config),
            final(self).wf(),
            all_in_play(old(self)@, *config) ==> all_in_play(final(self)@, *config),
    {
        let n: usize = self.balls.len();
        let mut i: usize = 0;
        while i < n
            invariant
                i <= n,
                n == self.balls.len(),
                n == old(self).balls.len(),
                old(self).wf(),
                forall|j: int|
                    0 <= j < i ==> (#[trigger] self.balls[j])@ == old(self).balls[j]@.step(*config),
                forall|j: int| i <= j < n ==> #[trigger] self.balls[j] == old(self).balls[j],
            decreases n - i,
        {
            assert(old(self)@[i as int].wf());
            self.balls[i].advance(config);
            i += 1;
        }
        assert(self@ =~= stepped(old(self)@, *config));
        proof {
            lemma_stepped_wf(old(self)@, *config);
            if all_in_play(old(self)@, *config) {
                lemma_stepped_in_play(old(self)@, *config);
            }
        }
    }
}

/// One step of every ball keeps a set well formed.
pub proof fn lemma_stepped_wf(balls: Seq<Motion>, config: Config)
    requires
        all_wf(balls),
    ensures
        all_wf(stepped(balls, config)),
{
    assert forall|i: int| 0 <= i < balls.len() implies (#[trigger] stepped(balls, config)[i]).wf() by {
        assert(balls[i].wf());
        lemma_step_wf(balls[i], config);
    }
}

/// One step of every ball keeps a set in play.
pub proof fn lemma_stepped_in_play(balls: Seq<Motion>, config: Config)
    requires
        all_in_play(balls, config),
    ensures
        all_in_play(stepped(balls, config), config),
{
    assert forall|i: int| 0 <= i < balls.len() implies (#[trigger] stepped(balls, config)[i]).in_play(
        config,
    ) by {
        assert(balls[i].in_play(config));
        lemma_step_in_play(balls[i], config);
    }
}

/// Balls move independently of each other: after `n` frames each ball of a
/// set is where its own `n` steps take it. If the set was in play, it still
/// is, and every ball is within one step of the walls.
pub proof fn lemma_after_frames(balls: Seq<Motion>, config: Config, n: nat, i: int)
    requires
        0 <= i < balls.len(),
    ensures
        after_frames(balls, config, n).len() == balls.len(),
        after_frames(balls, config, n)[i] == balls[i].after(config, n),
        all_in_play(balls, config) ==> all_in_play(after_frames(balls, config, n), config),
        all_in_play(balls, config) ==> after_frames(balls, config, n)[i].near_grid(config),
        all_in_play(balls, config) ==> after_frames(balls, config, n)[i].in_play(config),
    decreases n,
{
    if n > 0 {
        lemma_after_frames(balls, config, (n - 1) as nat, i);
        if all_in_play(balls, config) {
            lemma_stepped_in_play(after_frames(balls, config, (n - 1) as nat), config);
        }
    }
    if all_in_play(balls, config) {
        assert(balls[i].in_play(config));
        lemma_after_in_play(balls[i], config, n);
    }
}

/// The sum of field values does not depend on the order of its terms.
pub proof fn lemma_combine_commutes(a: Option<int>, b: Option<int>, c: Option<int>)
    ensures
        combine(a, b) == combine(b, a),
        combine(combine(a, b), c) == combine(a, combine(b, c)),
{
}

/// The field of a set is the field of the set without one ball plus the
/// contribution of that ball, wherever in the set the ball stands.
pub proof fn lemma_field_without(balls: Seq<Motion>, i: int, px: int, py: int)
    requires
        0 <= i < balls.len(),
    ensures
        field_at(balls, px, py) == combine(
            field_at(balls.remove(i), px, py),
            balls[i].potential_at(px, py),
        ),
    decreases balls.len(),
{
    if i == balls.len() - 1 {
        assert(balls.remove(i) =~= balls.drop_last());
    } else {
        let front = balls.drop_last();
        let rest = balls.remove(i);
        lemma_field_without(front, i, px, py);
        assert(rest.drop_last() =~= front.remove(i));
        assert(rest.last() == balls.last());
        assert(front[i] == balls[i]);
        lemma_combine_commutes(
            field_at(front.remove(i), px, py),
            balls[i].potential_at(px, py),
            balls.last().potential_at(px, py),
        );
        lemma_combine_commutes(
            field_at(front.remove(i), px, py),
            balls.last().potential_at(px, py),
            balls[i].potential_at(px, py),
        );
        lemma_combine_commutes(
            balls[i].potential_at(px, py),
            balls.last().potential_at(px, py),
            None,
        );
    }
}

/// The aggregate field is the same for every reordering of the balls: two
/// sequences that hold the same balls, each as many times, give the same
/// field at every point.
pub proof fn lemma_field_order_free(a: Seq<Motion>, b: Seq<Motion>, px: int, py: int)
    requires
        a.to_multiset() == b.to_multiset(),
    ensures
        field_at(a, px, py) == field_at(b, px, py),
    decreases a.len(),
{
    to_multiset_len(a);
    to_multiset_len(b);
    if a.len() > 0 {
        let last: int = a.len() - 1;
        let x = a[last];
        assert(a.contains(x));
        to_multiset_contains(a, x);
        to_multiset_contains(b, x);
        assert(b.contains(x));
        let j: int = choose|j: int| 0 <= j < b.len() && b[j] == x;
        assert(a.drop_last() =~= a.remove(last));
        to_multiset_remove(a, last);
        to_multiset_remove(b, j);
        lemma_field_order_free(a.drop_last(), b.remove(j), px, py);
        lemma_field_without(b, j, px, py);
    }
}

} // verus!
