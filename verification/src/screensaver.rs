//! When the screen saver starts: ticks of inactivity are counted up to a
//! threshold, and from then on each tick moves the picture.

use vstd::prelude::*;

verus! {

/// Ticks of inactivity before the screen saver starts (about five minutes
/// at ten ticks a second).
pub const IDLE_THRESHOLD: u32 = 3000;

/// What a tick does.
#[derive(Clone, Copy, Debug, PartialEq, Eq, Structural)]
pub enum IdleTick {
    /// The screen saver is running: move the picture.
    Animate,
    /// Still counting.
    Waiting,
    /// The threshold was reached: start the screen saver.
    Activate,
}

/// The inactivity count and whether the screen saver runs.
pub struct IdleWatch {
    pub active: bool,
    pub idle_ticks: u32,
    pub idle_threshold: u32,
}

impl IdleWatch {
    /// While not running, the count stays below the threshold (or is 0).
    pub open spec fn wf(&self) -> bool {
        !self.active ==> (self.idle_ticks < self.idle_threshold || self.idle_ticks == 0)
    }

    /// Not running, nothing counted.
    pub fn new() -> (w: IdleWatch)
        ensures
            !w.active,
            w.idle_ticks == 0,
            w.idle_threshold == IDLE_THRESHOLD,
            w.wf(),
    {
        IdleWatch { active: false, idle_ticks: 0, idle_threshold: IDLE_THRESHOLD }
    }

    /// A key was pressed: stop the screen saver and count from 0 again.
    pub fn reset_idle(&mut self)
        ensures
            !final(self).active,
            final(self).idle_ticks == 0,
            final(self).idle_threshold == old(self).idle_threshold,
            final(self).wf(),
    {
        self.idle_ticks = 0;
        self.active = false;
    }

    /// One tick without input.
    pub fn tick(&mut self) -> (r: IdleTick)
        requires
            old(self).wf(),
        ensures
            final(self).wf(),
            (*final(self), r) == tick_step(*old(self)),
    {
        if self.active {
            IdleTick::Animate
        } else {
            self.idle_ticks = self.idle_ticks + 1;
            if self.idle_ticks >= self.idle_threshold {
                self.active = true;
                IdleTick::Activate
            } else {
                IdleTick::Waiting
            }
        }
    }
}

/// What a tick does to the watch: a running screen saver moves on;
/// otherwise the count goes up by one and the screen saver starts when it
/// reaches the threshold.
pub open spec fn tick_step(w: IdleWatch) -> (IdleWatch, IdleTick) {
    if w.active {
        (w, IdleTick::Animate)
    } else {
        let n = (w.idle_ticks + 1) as u32;
        if n >= w.idle_threshold {
            (IdleWatch { active: true, idle_ticks: n, idle_threshold: w.idle_threshold }, IdleTick::Activate)
        } else {
            (IdleWatch { active: false, idle_ticks: n, idle_threshold: w.idle_threshold }, IdleTick::Waiting)
        }
    }
}

/// The watch after `k` ticks without input.
pub open spec fn after_ticks(w: IdleWatch, k: nat) -> IdleWatch
    decreases k,
{
    if k == 0 {
        w
    } else {
        tick_step(after_ticks(w, (k - 1) as nat)).0
    }
}

/// From a reset, the screen saver starts on the tick that brings the count
/// to the threshold, and not before.
pub proof fn lemma_starts_at_threshold(w: IdleWatch, k: nat)
    requires
        !w.active,
        w.idle_ticks == 0,
        w.idle_threshold > 0,
        k <= w.idle_threshold,
    ensures
        k < w.idle_threshold ==> !after_ticks(w, k).active && after_ticks(w, k).idle_ticks == k,
        k == w.idle_threshold ==> after_ticks(w, k).active,
        after_ticks(w, k).idle_threshold == w.idle_threshold,
    decreases k,
{
    if k > 0 {
        lemma_starts_at_threshold(w, (k - 1) as nat);
    }
}

} // verus!
