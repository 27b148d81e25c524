//! The clock of the animation: readings of a tick counter, and the time that
//! passed between them.

use vstd::prelude::*;
use crate::ratio::Ratio;

verus! {

/// The tick counter could not be read.
#[derive(Clone, Copy, Debug, PartialEq, Eq, Structural)]
pub enum ClockError {
    Unavailable,
}

/// The number of ticks from the reading `from` to the reading `to`, for a
/// counter of 64 bits that wraps around: the difference, brought back into the
/// range of `i64` by adding or taking away two to the power of 64.
pub open spec fn ticks_between(from: i64, to: i64) -> int {
    let difference = to - from;
    if difference > i64::MAX {
        difference - 0x1_0000_0000_0000_0000
    } else if difference < i64::MIN {
        difference + 0x1_0000_0000_0000_0000
    } else {
        difference
    }
}

/// A timer as a mathematical value: three readings of the counter and the
/// number of ticks in a second.
pub struct TimerView {
    pub start: i64,
    pub previous: i64,
    pub current: i64,
    pub frequency: i64,
}

impl TimerView {
    /// A timer started at the reading `counter`.
    pub open spec fn started(frequency: i64, counter: i64) -> TimerView {
        TimerView { start: counter, previous: counter, current: counter, frequency }
    }

    /// The timer after a reset. The latest reading becomes the one before it,
    /// and `counter` becomes the latest; with no reading to take, the latest
    /// stays what it was.
    pub open spec fn after_reset(self, counter: Option<i64>) -> TimerView {
        TimerView {
            previous: self.current,
            current: match counter {
                Some(reading) => reading,
                None => self.current,
            },
            ..self
        }
    }

    /// The timer after one reset for each entry of `counters`, in their order.
    pub open spec fn after_resets(self, counters: Seq<Option<i64>>) -> TimerView
        decreases counters.len(),
    {
        if counters.len() == 0 {
            self
        } else {
            self.after_resets(counters.drop_last()).after_reset(counters.last())
        }
    }

    /// Seconds from the start to the latest reading.
    pub open spec fn total(self) -> Ratio {
        Ratio {
            numerator: ticks_between(self.start, self.current) as i64,
            denominator: self.frequency,
        }
    }

    /// Seconds from the reading before the latest to the latest.
    pub open spec fn delta(self) -> Ratio {
        Ratio {
            numerator: ticks_between(self.previous, self.current) as i64,
            denominator: self.frequency,
        }
    }

    /// The counter runs forward and has not wrapped since the start: the
    /// timer's latest reading is not below its start, no reading in `counters`
    /// is below the latest or below a reading taken before it, and none is
    /// further from the start than an `i64` can tell.
    pub open spec fn steady(self, counters: Seq<Option<i64>>) -> bool {
        &&& self.start <= self.current
        &&& self.current - self.start <= i64::MAX
        &&& forall|n: int|
            0 <= n < counters.len() ==> (#[trigger] counters[n] matches Some(reading)
                ==> self.current <= reading && reading - self.start <= i64::MAX)
        &&& forall|m: int, n: int|
            0 <= m <= n < counters.len() ==> (#[trigger] counters[m] matches Some(before)
                ==> (#[trigger] counters[n] matches Some(after) ==> before <= after))
    }

    /// Resets change neither the start nor the frequency, and the latest
    /// reading after them is the timer's own or one of those taken: not below
    /// the timer's own, and not below any that was taken.
    pub proof fn lemma_after_resets(self, counters: Seq<Option<i64>>)
        requires
            self.steady(counters),
        ensures
            self.after_resets(counters).start == self.start,
            self.after_resets(counters).frequency == self.frequency,
            self.current <= self.after_resets(counters).current,
            self.after_resets(counters).current - self.start <= i64::MAX,
            forall|n: int|
                0 <= n < counters.len() ==> (#[trigger] counters[n] matches Some(reading)
                    ==> reading <= self.after_resets(counters).current),
            counters.len() > 0 ==> (counters.last() matches Some(reading) ==> self.after_resets(
                counters,
            ).current == reading),
        decreases counters.len(),
    {
        if counters.len() > 0 {
            let front = counters.drop_last();
            assert forall|n: int| 0 <= n < front.len() implies front[n] == counters[n] by {}
            assert(self.steady(front));
            self.lemma_after_resets(front);
            assert(counters.last() == counters[counters.len() - 1]);
        }
    }

    /// The latest reading after some resets is the timer's own or one of
    /// those taken.
    proof fn lemma_latest_was_taken(self, counters: Seq<Option<i64>>)
        ensures
            self.after_resets(counters).current == self.current || exists|k: int|
                0 <= k < counters.len() && counters[k] == Some(self.after_resets(counters).current),
        decreases counters.len(),
    {
        if counters.len() > 0 {
            let front = counters.drop_last();
            self.lemma_latest_was_taken(front);
            let latest = self.after_resets(front).current;
            match counters.last() {
                Some(reading) => {
                    assert(counters[counters.len() - 1] == Some(reading));
                },
                None => {
                    if latest != self.current {
                        let k = choose|k: int| 0 <= k < front.len() && front[k] == Some(latest);
                        assert(counters[k] == Some(latest));
                    }
                },
            }
        }
    }

    /// The time since the start never decreases: while the counter runs at a
    /// positive rate, runs forward and does not wrap, the total after the
    /// `n`-th reset is at least the total after the one before it, whether or
    /// not the reset found a reading to take.
    pub proof fn lemma_total_elapsed_monotone(self, counters: Seq<Option<i64>>, n: int)
        requires
            self.frequency > 0,
            self.steady(counters),
            1 <= n <= counters.len(),
        ensures
            self.after_resets(counters.take(n - 1)).total().le(
                self.after_resets(counters.take(n)).total(),
            ),
    {
        let shorter = counters.take(n - 1);
        let longer = counters.take(n);
        assert(longer.drop_last() =~= shorter);
        assert forall|k: int| 0 <= k < shorter.len() implies shorter[k] == counters[k] by {}
        assert forall|k: int| 0 <= k < longer.len() implies longer[k] == counters[k] by {}
        assert(self.steady(shorter));
        assert(self.steady(longer));
        self.lemma_after_resets(shorter);
        self.lemma_after_resets(longer);
        let before = self.after_resets(shorter);
        let after = self.after_resets(longer);
        assert(after == before.after_reset(longer.last()));
        assert(before.current <= after.current) by {
            if let Some(reading) = longer.last() {
                if before.current != self.current {
                    self.lemma_latest_was_taken(shorter);
                    let k = choose|k: int|
                        0 <= k < shorter.len() && shorter[k] == Some(before.current);
                    assert(counters[k] == Some(before.current));
                    assert(counters[n - 1] == Some(reading));
                }
            }
        }
        let earlier = ticks_between(before.start, before.current);
        let later = ticks_between(after.start, after.current);
        assert(0 <= earlier <= later <= i64::MAX);
        assert(earlier * self.frequency <= later * self.frequency) by (nonlinear_arith)
            requires
                earlier <= later,
                self.frequency > 0,
        ;
    }
}

/// Measures time in ticks of a counter that only the caller can read.
pub struct Timer {
    start_time: i64,
    previous_call_to_update: i64,
    current_call_to_update: i64,
    frequency: i64,
}

impl View for Timer {
    type V = TimerView;

    closed spec fn view(&self) -> TimerView {
        TimerView {
            start: self.start_time,
            previous: self.previous_call_to_update,
            current: self.current_call_to_update,
            frequency: self.frequency,
        }
    }
}

impl Timer {
    /// Starts a timer. `frequency` is the number of ticks in a second and
    /// `counter` the counter's reading now, each `None` if it could not be had.
    pub fn new(frequency: Option<i64>, counter: Option<i64>) -> (result: Result<Timer, ClockError>)
        ensures
            match (frequency, counter) {
                (Some(f), Some(c)) => {
                    &&& result matches Ok(timer)
                    &&& timer@ == TimerView::started(f, c)
                },
                _ => result matches Err(ClockError::Unavailable),
            },
    {
        match (frequency, counter) {
            (Some(f), Some(c)) => Ok(
                Timer {
                    start_time: c,
                    previous_call_to_update: c,
                    current_call_to_update: c,
                    frequency: f,
                },
            ),
            _ => Err(ClockError::Unavailable),
        }
    }

    /// Seconds since the timer was started, as of the latest reading.
    pub fn get_time_total(&self) -> (elapsed: Ratio)
        ensures
            elapsed == self@.total(),
    {
        let delta: i64 = self.current_call_to_update.wrapping_sub(self.start_time);
        Ratio { numerator: delta, denominator: self.frequency }
    }

    /// Seconds between the two latest readings.
    pub fn get_time_delta(&self) -> (elapsed: Ratio)
        ensures
            elapsed == self@.delta(),
    {
        let delta: i64 = self.current_call_to_update.wrapping_sub(self.previous_call_to_update);
        Ratio { numerator: delta, denominator: self.frequency }
    }

    /// Takes a reading: the latest reading becomes the one before, and
    /// `counter` the latest. With no reading to take, the latest still becomes
    /// the one before, and the call fails.
    pub fn reset(&mut self, counter: Option<i64>) -> (result: Result<(), ClockError>)
        ensures
            final(self)@ == old(self)@.after_reset(counter),
            match counter {
                Some(_) => result is Ok,
                None => result matches Err(ClockError::Unavailable),
            },
    {
        self.previous_call_to_update = self.current_call_to_update;
        match counter {
            Some(c) => {
                self.current_call_to_update = c;
                Ok(())
            },
            None => Err(ClockError::Unavailable),
        }
    }
}

} // verus!
