//! Windows that live off a debugging session: when a sample is due, and what
//! the window is told of the core.
use vstd::prelude::*;
use crate::sampling::beat_ms;

verus! {

/// A beat that may fall behind: each tick comes one interval after the one
/// before, and late ticks follow at once. All times are in nanoseconds.
#[derive(Debug, Clone, Copy, PartialEq, Eq, Structural)]
pub struct Metronome {
    /// The time between two ticks.
    pub interval: u128,
    /// When the next tick is due.
    pub next: u128,
}

impl Metronome {
    /// The intervals that a number of milliseconds can give.
    pub open spec fn wf(self) -> bool {
        10_000_000 <= self.interval <= u64::MAX * 1_000_000
    }

    /// A beat whose first tick is due now.
    pub fn start(now: u64, interval_ms: u64) -> (r: Metronome)
        ensures
            r.wf(),
            r.next == now,
            r.interval == if interval_ms < 10 {
                10_000_000
            } else {
                interval_ms * 1_000_000
            },
    {
        let ms: u64 = beat_ms(interval_ms);
        Metronome { interval: ms as u128 * 1_000_000, next: now as u128 }
    }

    /// Whether a tick is due. If so, the next one is due an interval later.
    pub fn due(&mut self, now: u64) -> (r: bool)
        requires
            old(self).wf(),
        ensures
            final(self).wf(),
            r == (old(self).next <= now),
            final(self).interval == old(self).interval,
            final(self).next == if r {
                old(self).next + old(self).interval
            } else {
                old(self).next as int
            },
    {
        if (now as u128) < self.next {
            return false;
        }
        self.next = self.next + self.interval;
        true
    }
}

/// What a tick gives to a plot.
#[derive(Debug, Clone, Copy, PartialEq, Eq, Structural)]
pub struct PlotTick {
    /// Whether the plot is to pause, or to go on, where that changes.
    pub pause: Option<bool>,
    /// Whether a sample is taken.
    pub sample: bool,
}

/// What a tick gives to a plot, from whether the core ran at the tick before,
/// and whether it runs.
pub open spec fn plot_tick(was_running: Option<bool>, running: bool) -> PlotTick {
    PlotTick {
        pause: if was_running == Some(running) {
            None
        } else {
            Some(!running)
        },
        sample: running,
    }
}

/// The link to a plot.
#[derive(Debug, Clone, Copy, PartialEq, Eq, Structural)]
pub struct PlotLink {
    /// When samples are due.
    pub beat: Metronome,
    /// Whether the core ran at the last tick.
    pub was_running: Option<bool>,
}

impl PlotLink {
    /// A link before its first tick.
    pub fn open(now: u64, interval_ms: u64) -> (r: PlotLink)
        ensures
            r.beat.wf(),
            r.beat.next == now,
            r.beat.interval == if interval_ms < 10 {
                10_000_000
            } else {
                interval_ms * 1_000_000
            },
            r.was_running is None,
    {
        PlotLink { beat: Metronome::start(now, interval_ms), was_running: None }
    }

    /// Decides what a tick gives to the plot.
    pub fn plot_sample(&mut self, running: bool) -> (r: PlotTick)
        ensures
            r == plot_tick(old(self).was_running, running),
            final(self).was_running == Some(running),
            final(self).beat == old(self).beat,
    {
        let changed: bool = match self.was_running {
            Some(was) => was != running,
            None => true,
        };
        self.was_running = Some(running);
        PlotTick {
            pause: if changed {
                Some(!running)
            } else {
                None
            },
            sample: running,
        }
    }
}

/// Whether the core ran at the last of several ticks.
pub open spec fn last_running(runs: Seq<bool>) -> Option<bool> {
    if runs.len() == 0 {
        None
    } else {
        Some(runs.last())
    }
}

/// The pause marks that a plot gets over several ticks.
pub open spec fn pause_marks(runs: Seq<bool>) -> Seq<bool>
    decreases runs.len(),
{
    if runs.len() == 0 {
        Seq::empty()
    } else {
        let front = runs.drop_last();
        match plot_tick(last_running(front), runs.last()).pause {
            Some(m) => pause_marks(front).push(m),
            None => pause_marks(front),
        }
    }
}

/// A plot follows the core: after any tick its last mark says whether the core
/// stands, and no two marks in a row are the same. Samples come only while the
/// last mark lets the plot go on.
pub proof fn law_plot_follows_core(runs: Seq<bool>)
    requires
        runs.len() > 0,
    ensures
        pause_marks(runs).len() > 0,
        pause_marks(runs).last() == !runs.last(),
        forall|i: int|
            0 < i < pause_marks(runs).len() ==> #[trigger] pause_marks(runs)[i] != pause_marks(
                runs,
            )[i - 1],
        plot_tick(last_running(runs.drop_last()), runs.last()).sample == !pause_marks(runs).last(),
    decreases runs.len(),
{
    let front = runs.drop_last();
    if front.len() > 0 {
        law_plot_follows_core(front);
    } else {
        assert(pause_marks(front) =~= Seq::empty());
    }
}

}
