use metaballs::pacer::{FramePacer, Pace, FPS, POLL_MS};

#[test]
fn defaults() {
    assert_eq!(FPS, 24);
    assert_eq!(POLL_MS, 10);
    assert_eq!(FramePacer::new(24), FramePacer { fps: 24, frames: 0 });
}

#[test]
fn frame_zero_is_due_at_once() {
    let mut pacer: FramePacer = FramePacer::new(24);
    assert!(pacer.due(0));
    assert_eq!(pacer.poll(0), Pace::Release(0));
    assert_eq!(pacer.frames, 1);
    assert!(!pacer.due(0));
    assert_eq!(pacer.poll(0), Pace::Sleep(10));
    assert_eq!(pacer.frames, 1);
}

#[test]
fn due_compares_without_rounding() {
    let mut pacer: FramePacer = FramePacer::new(24);
    pacer.completed();
    // One interval is 41.67 ms.
    assert!(!pacer.due(41));
    assert!(pacer.due(42));
    pacer.completed();
    pacer.completed();
    // Three intervals are 125 ms exactly.
    assert!(!pacer.due(124));
    assert!(pacer.due(125));
    assert_eq!(pacer, FramePacer { fps: 24, frames: 3 });
}

#[test]
fn due_on_the_widest_values() {
    let pacer: FramePacer = FramePacer { fps: u64::MAX, frames: u64::MAX };
    assert!(!pacer.due(999));
    assert!(pacer.due(1000));
    assert!(pacer.due(u64::MAX));
    let slow: FramePacer = FramePacer { fps: 1, frames: u64::MAX - 1 };
    assert!(!slow.due(u64::MAX));
}

#[test]
fn pacing_monotonicity() {
    // A clock that is read every millisecond.
    let mut pacer: FramePacer = FramePacer::new(24);
    let mut released: Vec<u64> = Vec::new();
    let mut now: u64 = 0;
    while released.len() < 11 {
        match pacer.poll(now) {
            Pace::Release(frame) => {
                assert_eq!(frame as usize, released.len());
                assert!(now * 24 >= frame * 1000);
                released.push(now);
            }
            Pace::Sleep(ms) => {
                assert_eq!(ms, 10);
                now += 1;
            }
        }
    }
    assert_eq!(released, vec![0, 42, 84, 125, 167, 209, 250, 292, 334, 375, 417]);
    for n in 1..released.len() {
        assert!(released[n - 1] <= released[n]);
    }
}

#[test]
fn pacing_with_the_polling_sleep() {
    // The caller sleeps as long as it is told: releases overshoot, never undershoot.
    let mut pacer: FramePacer = FramePacer::new(24);
    let mut released: Vec<u64> = Vec::new();
    let mut now: u64 = 0;
    while released.len() < 11 {
        match pacer.poll(now) {
            Pace::Release(_) => released.push(now),
            Pace::Sleep(ms) => now += ms,
        }
    }
    assert_eq!(released, vec![0, 50, 90, 130, 170, 210, 250, 300, 340, 380, 420]);
    for (n, at) in released.iter().enumerate() {
        assert!(*at * 24 >= n as u64 * 1000);
    }
}

#[test]
fn a_late_caller_catches_up_frame_by_frame() {
    let mut pacer: FramePacer = FramePacer::new(10);
    assert_eq!(pacer.poll(250), Pace::Release(0));
    assert_eq!(pacer.poll(250), Pace::Release(1));
    assert_eq!(pacer.poll(250), Pace::Release(2));
    assert_eq!(pacer.poll(250), Pace::Sleep(10));
    assert_eq!(pacer.poll(299), Pace::Sleep(10));
    assert_eq!(pacer.poll(300), Pace::Release(3));
}
