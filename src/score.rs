use vstd::prelude::*;

use crate::timer::{Timer, TimerMode};
use crate::units::NANOS_PER_SECOND;

verus! {

/// Time between two points of score: one second.
pub const SCORE_PERIOD: u64 = NANOS_PER_SECOND;

/// The score, which grows by one each time its repeating timer wraps.
pub struct ScoreKeeper {
    pub score: u64,
    pub timer: Timer,
}

impl ScoreKeeper {
    pub open spec fn wf(&self) -> bool {
        &&& self.timer.wf()
        &&& self.timer.mode == TimerMode::Repeating
        &&& self.timer.duration == SCORE_PERIOD
    }

    pub fn new() -> (r: ScoreKeeper)
        ensures
            r.wf(),
            r.score == 0,
            r.timer == Timer::fresh(SCORE_PERIOD, TimerMode::Repeating),
    {
        ScoreKeeper { score: 0, timer: Timer::new(SCORE_PERIOD, TimerMode::Repeating) }
    }

    /// Advances the score timer by `dt`; when it wraps the score grows by
    /// one (once per tick, however many periods the tick spans) and the new
    /// score is returned.
    pub fn tick(&mut self, dt: u64) -> (r: Option<u64>)
        requires
            old(self).wf(),
            old(self).score < u64::MAX,
        ensures
            final(self).wf(),
            final(self).timer == old(self).timer.ticked(dt),
            final(self).timer.just_finished ==> final(self).score == old(self).score + 1 && r
                == Some(final(self).score),
            !final(self).timer.just_finished ==> final(self).score == old(self).score && r
                is None,
    {
        self.timer.tick(dt);
        if self.timer.finished() {
            self.score = self.score + 1;
            Some(self.score)
        } else {
            None
        }
    }
}

} // verus!
