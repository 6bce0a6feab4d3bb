use vstd::prelude::*;

verus! {

/// Wall-clock milliseconds that must elapse between two applied steps.
pub const STEP_INTERVAL_MS: u64 = 100;

/// Whether a tick at time `now` fires a step, given the time `last` of
/// the last fired step: true once a full interval has elapsed.
pub open spec fn sched_fires(last: u64, now: u64) -> bool {
    now - last >= STEP_INTERVAL_MS
}

/// The scheduler's remembered timestamp after a tick at time `now`.
pub open spec fn sched_next(last: u64, now: u64) -> u64 {
    if sched_fires(last, now) {
        now
    } else {
        last
    }
}

/// The step scheduler: remembers when the last step fired and throttles
/// stepping to one per elapsed interval, so the visible step rate does
/// not depend on the display refresh rate.
pub struct StepScheduler {
    last_step_ms: u64,
}

impl StepScheduler {
    /// The time the last step fired (or the scheduler was created).
    pub closed spec fn last_ms(&self) -> u64 {
        self.last_step_ms
    }

    pub fn new(now_ms: u64) -> (sched: StepScheduler)
        ensures
            sched.last_ms() == now_ms,
    {
        StepScheduler { last_step_ms: now_ms }
    }

    /// One display tick at wall-clock time `now_ms`: report whether a
    /// step is due, and if it is, measure the next interval from now.
    /// Time must not run backwards between ticks.
    pub fn should_step(&mut self, now_ms: u64) -> (fire: bool)
        requires
            now_ms >= old(self).last_ms(),
        ensures
            fire == sched_fires(old(self).last_ms(), now_ms),
            final(self).last_ms() == sched_next(old(self).last_ms(), now_ms),
    {
        if now_ms - self.last_step_ms >= STEP_INTERVAL_MS {
            self.last_step_ms = now_ms;
            true
        } else {
            false
        }
    }
}

/// Two ticks less than one interval apart fire at most one step between
/// them: whichever fires first moves the interval past the other tick.
pub proof fn lemma_ticks_gated(last: u64, t1: u64, t2: u64)
    requires
        last <= t1 <= t2,
        t2 - t1 < STEP_INTERVAL_MS,
    ensures
        !(sched_fires(last, t1) && sched_fires(sched_next(last, t1), t2)),
{
}

/// Once a full interval has elapsed, a tick fires exactly then, and the
/// next interval is measured from that tick.
pub proof fn lemma_tick_fires_after_interval(last: u64, t: u64)
    requires
        t >= last,
        t - last >= STEP_INTERVAL_MS,
    ensures
        sched_fires(last, t),
        sched_next(last, t) == t,
{
}

} // verus!
