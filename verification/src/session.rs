use crate::pool::Pool;
use crate::scheduler::{sched_fires, sched_next, StepScheduler};
use crate::stepper::{next_cursor, step, step_spec, StepCursor};
use vstd::prelude::*;

verus! {

/// One running visualization: the pool being sorted, the cursor of the
/// active pass, and the scheduler that throttles stepping.
pub struct Session {
    pub pool: Pool,
    pub cursor: StepCursor,
    pub scheduler: StepScheduler,
}

impl Session {
    /// A live session holds a well-formed pool and a cursor inside the
    /// active pass.
    pub open spec fn wf(&self) -> bool {
        &&& self.pool.wf()
        &&& self.cursor.in_range(self.pool@.len())
    }

    /// Start a session: a fresh shuffled pool of length `target_len`
    /// (floored to 1), the cursor at the start of its first pass, and the
    /// step interval measured from `now_ms`.
    pub fn new(target_len: u16, now_ms: u64) -> (session: Session)
        ensures
            session.wf(),
            session.pool@.len() == if target_len == 0 {
                1nat
            } else {
                target_len as nat
            },
            session.cursor@ == 0nat,
            session.scheduler.last_ms() == now_ms,
    {
        Session {
            pool: Pool::generate(target_len),
            cursor: StepCursor::new(),
            scheduler: StepScheduler::new(now_ms),
        }
    }

    /// Replace the pool wholesale: a fresh shuffled pool of length
    /// `target_len` (floored to 1), and the cursor reset to 0 whatever
    /// its prior position. The scheduler keeps its timestamp.
    pub fn restart(&mut self, target_len: u16)
        ensures
            final(self).wf(),
            final(self).pool@.len() == if target_len == 0 {
                1nat
            } else {
                target_len as nat
            },
            final(self).cursor@ == 0nat,
            final(self).scheduler.last_ms() == old(self).scheduler.last_ms(),
    {
        self.pool = Pool::generate(target_len);
        self.cursor = StepCursor::new();
    }

    /// One display tick at time `now_ms`: apply exactly one step if a
    /// full interval has elapsed since the last one; then, if the restart
    /// trigger fired this tick, regenerate the pool at `target_len`
    /// (floored to 1) with a fresh cursor.
    pub fn tick(&mut self, now_ms: u64, restart: bool, target_len: u16)
        requires
            old(self).wf(),
            now_ms >= old(self).scheduler.last_ms(),
        ensures
            final(self).wf(),
            final(self).scheduler.last_ms() == sched_next(
                old(self).scheduler.last_ms(),
                now_ms,
            ),
            ({
                let fired = sched_fires(old(self).scheduler.last_ms(), now_ms);
                let stepped = if fired {
                    step_spec(old(self).pool@, old(self).cursor@ as int)
                } else {
                    old(self).pool@
                };
                let stepped_cursor = if fired {
                    next_cursor(old(self).cursor@, old(self).pool@.len())
                } else {
                    old(self).cursor@
                };
                if restart {
                    &&& final(self).pool@.len() == if target_len == 0 {
                        1nat
                    } else {
                        target_len as nat
                    }
                    &&& final(self).cursor@ == 0nat
                } else {
                    &&& final(self).pool@ == stepped
                    &&& final(self).cursor@ == stepped_cursor
                }
            }),
    {
        if self.scheduler.should_step(now_ms) {
            step(&mut self.pool, &mut self.cursor);
        }
        if restart {
            self.restart(target_len);
        }
    }
}

} // verus!
