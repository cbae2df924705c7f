use vstd::prelude::*;

verus! {

/// Length of a crossfade, in microseconds.
pub const FADE_DURATION_MICROS: u64 = 250_000;

/// Timed opacity transition of one mesh instance. Times are in microseconds.
#[derive(Clone, Copy, Debug, PartialEq, Eq, Structural)]
pub struct FadeUniform {
    pub duration: u64,
    pub remaining: u64,
    pub delay: u64,
    pub fade_in: bool,
}

/// Delay left after `dt` has elapsed.
pub open spec fn delay_after(delay: u64, dt: u64) -> u64 {
    if delay > dt { (delay - dt) as u64 } else { 0 }
}

/// Part of `dt` left for the countdown once the delay has been consumed.
pub open spec fn countdown_time(delay: u64, dt: u64) -> int {
    if delay > dt { 0 } else { dt - delay }
}

/// `remaining` after counting down by `t`, clamped to `[0, duration]`.
pub open spec fn remaining_after(remaining: u64, duration: u64, t: int) -> u64 {
    let r = remaining - t;
    if r <= 0 { 0 } else if r >= duration { duration } else { r as u64 }
}

/// The state of `f` once `dt` microseconds have elapsed.
pub open spec fn fade_step(f: FadeUniform, dt: u64) -> FadeUniform {
    if f.delay > dt {
        FadeUniform { delay: (f.delay - dt) as u64, ..f }
    } else {
        FadeUniform {
            delay: 0,
            remaining: remaining_after(f.remaining, f.duration, countdown_time(f.delay, dt)),
            ..f
        }
    }
}

impl FadeUniform {
    /// A fade-in of the standard duration, starting now.
    pub fn fade_in() -> (r: FadeUniform)
        ensures
            r == (FadeUniform {
                duration: FADE_DURATION_MICROS,
                remaining: FADE_DURATION_MICROS,
                delay: 0,
                fade_in: true,
            }),
    {
        FadeUniform {
            duration: FADE_DURATION_MICROS,
            remaining: FADE_DURATION_MICROS,
            delay: 0,
            fade_in: true,
        }
    }

    /// A fade-out of the standard duration, starting now.
    pub fn fade_out() -> (r: FadeUniform)
        ensures
            r == (FadeUniform {
                duration: FADE_DURATION_MICROS,
                remaining: FADE_DURATION_MICROS,
                delay: 0,
                fade_in: false,
            }),
    {
        FadeUniform {
            duration: FADE_DURATION_MICROS,
            remaining: FADE_DURATION_MICROS,
            delay: 0,
            fade_in: false,
        }
    }

    /// True once a fade-out has run to its end: the mesh may be reaped.
    pub fn is_finished_fade_out(&self) -> (r: bool)
        ensures
            r == (!self.fade_in && self.remaining == 0),
    {
        !self.fade_in && self.remaining == 0
    }

    /// Advances the fade by `dt` microseconds: the delay is consumed first, then
    /// `remaining` counts down, clamped to `[0, duration]`.
    pub fn update(&mut self, dt: u64)
        ensures
            *final(self) == fade_step(*old(self), dt),
    {
        let mut dt = dt;
        if self.delay > 0 {
            if self.delay > dt {
                self.delay = self.delay - dt;
                return;
            } else {
                dt = dt - self.delay;
                self.delay = 0;
            }
        }
        let r = if self.remaining > dt { self.remaining - dt } else { 0 };
        self.remaining = if r > self.duration { self.duration } else { r };
    }
}

/// Advances every fade in `fades` by `dt`.
pub fn mesh_fade_update_system(fades: &mut Vec<FadeUniform>, dt: u64)
    ensures
        final(fades)@.len() == old(fades)@.len(),
        forall|i: int|
            0 <= i < old(fades)@.len() ==> #[trigger] final(fades)@[i] == fade_step(old(fades)@[i], dt),
{
    let n = fades.len();
    let mut i: usize = 0;
    while i < n
        invariant
            n == old(fades)@.len(),
            fades@.len() == n,
            0 <= i <= n,
            forall|j: int| 0 <= j < i ==> #[trigger] fades@[j] == fade_step(old(fades)@[j], dt),
            forall|j: int| i <= j < n ==> #[trigger] fades@[j] == old(fades)@[j],
        decreases n - i,
    {
        let mut f = fades[i];
        f.update(dt);
        fades.set(i, f);
        i = i + 1;
    }
}

/// Over one step, `remaining` never grows (for a well-formed fade, whose
/// `remaining` lies within `[0, duration]`), stays within `[0, duration]`, and is
/// left untouched while the delay outlasts the step.
pub proof fn lemma_fade_monotone(f: FadeUniform, dt: u64)
    requires
        f.remaining <= f.duration,
    ensures
        fade_step(f, dt).remaining <= f.remaining,
        fade_step(f, dt).remaining <= fade_step(f, dt).duration,
        fade_step(f, dt).duration == f.duration,
        f.delay > dt ==> fade_step(f, dt).remaining == f.remaining,
        fade_step(f, dt).delay <= f.delay,
{
}

} // verus!
