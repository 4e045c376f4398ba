//! Frame pacing: frame `n` of a run is released once `n` frame intervals have
//! passed since the start. The pacer decides; the caller reads the clock and
//! sleeps.
use vstd::prelude::*;

verus! {

/// The default target frame rate, in frames per second.
pub const FPS: u64 = 24;

/// How long the caller sleeps before it asks again, in milliseconds.
pub const POLL_MS: u64 = 10;

/// Frame `frame` is due `elapsed_ms` milliseconds after the start: at least
/// `frame` intervals of `1000 / fps` milliseconds have passed. The comparison
/// is made on the products, so that nothing is rounded.
pub open spec fn is_due(fps: int, frame: int, elapsed_ms: int) -> bool {
    elapsed_ms * fps >= frame * 1000
}

/// The decision of the pacer.
#[derive(Clone, Copy, Debug, PartialEq, Eq)]
pub enum Pace {
    /// The frame with this number is released.
    Release(u64),
    /// No frame is due: sleep for this many milliseconds and ask again.
    Sleep(u64),
}

/// The target frame rate and the number of the next frame.
#[derive(Clone, Copy, Debug, PartialEq, Eq)]
pub struct FramePacer {
    pub fps: u64,
    pub frames: u64,
}

impl FramePacer {
    /// The frame rate is positive.
    pub open spec fn wf(self) -> bool {
        self.fps > 0
    }

    /// Makes a pacer whose next frame is frame 0.
    pub fn new(fps: u64) -> (pacer: FramePacer)
        requires
            fps > 0,
        ensures
            pacer == (FramePacer { fps, frames: 0 }),
    {
        FramePacer { fps, frames: 0 }
    }

    /// Tells whether the next frame is due at the clock reading `elapsed_ms`.
    pub fn due(&self, elapsed_ms: u64) -> (r: bool)
        ensures
            r == is_due(self.fps as int, self.frames as int, elapsed_ms as int),
    {
        assert(elapsed_ms * self.fps <= 0xffff_ffff_ffff_ffff * 0xffff_ffff_ffff_ffff)
            by (nonlinear_arith)
            requires
                0 <= elapsed_ms <= 0xffff_ffff_ffff_ffff,
                0 <= self.fps <= 0xffff_ffff_ffff_ffff,
        ;
        elapsed_ms as u128 * self.fps as u128 >= self.frames as u128 * 1000
    }

    /// Counts the frame that was just completed.
    pub fn completed(&mut self)
        requires
            old(self).frames < u64::MAX,
        ensures
            *final(self) == (FramePacer { fps: old(self).fps, frames: (old(self).frames + 1) as u64 }),
    {
        self.frames = self.frames + 1;
    }

    /// Releases the next frame if it is due at the clock reading
    /// `elapsed_ms`, and counts it; otherwise asks for a short sleep and
    /// changes nothing.
    pub fn poll(&mut self, elapsed_ms: u64) -> (pace: Pace)
        requires
            old(self).frames < u64::MAX,
        ensures
            final(self).fps == old(self).fps,
            is_due(old(self).fps as int, old(self).frames as int, elapsed_ms as int) ==> pace
                == Pace::Release(old(self).frames) && final(self).frames == old(self).frames + 1,
            !is_due(old(self).fps as int, old(self).frames as int, elapsed_ms as int) ==> pace
                == Pace::Sleep(POLL_MS) && final(self).frames == old(self).frames,
    {
        if self.due(elapsed_ms) {
            let frame: u64 = self.frames;
            self.completed();
            Pace::Release(frame)
        } else {
            Pace::Sleep(POLL_MS)
        }
    }
}

/// The clock readings at which frames were released, in the order of the
/// frames, when a fresh pacer is polled once at each of `readings`.
pub open spec fn releases(fps: int, readings: Seq<int>) -> Seq<int>
    decreases readings.len(),
{
    if readings.len() == 0 {
        Seq::empty()
    } else {
        let before = releases(fps, readings.drop_last());
        if is_due(fps, before.len() as int, readings.last()) {
            before.push(readings.last())
        } else {
            before
        }
    }
}

/// The readings never decrease.
pub open spec fn monotonic(readings: Seq<int>) -> bool {
    forall|i: int, j: int| 0 <= i <= j < readings.len() ==> readings[i] <= readings[j]
}

/// Frame 0 is due at once, a frame that is due stays due as time passes, and
/// a frame is never due before the one that precedes it.
pub proof fn lemma_due_order(fps: int, frame: int, elapsed_ms: int, later_ms: int)
    requires
        fps > 0,
        0 <= frame,
        0 <= elapsed_ms <= later_ms,
    ensures
        is_due(fps, 0, elapsed_ms),
        is_due(fps, frame, elapsed_ms) ==> is_due(fps, frame, later_ms),
        is_due(fps, frame + 1, elapsed_ms) ==> is_due(fps, frame, elapsed_ms),
{
    assert(elapsed_ms * fps >= 0 && later_ms * fps >= elapsed_ms * fps) by (nonlinear_arith)
        requires
            fps > 0,
            0 <= elapsed_ms <= later_ms,
    ;
}

/// A frame that is due has waited for its whole intervals: the clock reads at
/// least `frame * 1000 / fps` milliseconds.
pub proof fn lemma_due_after_interval(fps: int, frame: int, elapsed_ms: int)
    requires
        fps > 0,
        0 <= frame,
        is_due(fps, frame, elapsed_ms),
    ensures
        elapsed_ms >= (frame * 1000) / fps,
{
    assert(elapsed_ms >= (frame * 1000) / fps) by (nonlinear_arith)
        requires
            fps > 0,
            elapsed_ms * fps >= frame * 1000,
    ;
}

/// Every release is one of the readings, and no frame is released before its
/// time: release `n` happened at a reading of at least `n` intervals.
pub proof fn lemma_releases_on_time(fps: int, readings: Seq<int>, n: int)
    requires
        0 <= n < releases(fps, readings).len(),
    ensures
        is_due(fps, n, releases(fps, readings)[n]),
        readings.contains(releases(fps, readings)[n]),
        releases(fps, readings).len() <= readings.len(),
    decreases readings.len(),
{
    let before = releases(fps, readings.drop_last());
    lemma_releases_count(fps, readings.drop_last());
    if n < before.len() {
        lemma_releases_on_time(fps, readings.drop_last(), n);
        let at: int = choose|at: int|
            0 <= at < readings.drop_last().len() && readings.drop_last()[at] == before[n];
        assert(readings[at] == before[n]);
    } else {
        assert(readings[readings.len() - 1] == readings.last());
    }
}

/// There are no more releases than readings.
pub proof fn lemma_releases_count(fps: int, readings: Seq<int>)
    ensures
        releases(fps, readings).len() <= readings.len(),
    decreases readings.len(),
{
    if readings.len() > 0 {
        lemma_releases_count(fps, readings.drop_last());
    }
}

/// Under a clock that never runs backwards, frames are released in order:
/// frame `n` is not released before frame `n - 1`.
pub proof fn lemma_releases_in_order(fps: int, readings: Seq<int>, m: int, n: int)
    requires
        monotonic(readings),
        0 <= m <= n < releases(fps, readings).len(),
    ensures
        releases(fps, readings)[m] <= releases(fps, readings)[n],
    decreases readings.len(),
{
    let front = readings.drop_last();
    let before = releases(fps, front);
    assert(monotonic(front)) by {
        assert forall|i: int, j: int| 0 <= i <= j < front.len() implies front[i] <= front[j] by {
            assert(readings[i] <= readings[j]);
        }
    }
    if n < before.len() {
        lemma_releases_in_order(fps, front, m, n);
    } else if m < n {
        lemma_releases_on_time(fps, front, m);
        let at: int = choose|at: int| 0 <= at < front.len() && front[at] == before[m];
        assert(readings[at] <= readings[readings.len() - 1]);
    }
}

} // verus!
