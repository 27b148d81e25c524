//! The driver of the animation: it keeps the clock and says which step the
//! host's loop may take next.
//!
//! A driver is `Uninitialized` until the plot is built and a drawing surface is
//! attached. From then on it is `Ready`, except while a frame is being drawn,
//! when it is in `Render`. A shutdown between two frames ends it: it is
//! `Terminated` for good.

use vstd::prelude::*;
use crate::clock::{ClockError, Timer, TimerView};
use crate::ratio::Ratio;

verus! {

/// Where the animation stands.
#[derive(Clone, Copy, Debug, PartialEq, Eq, Structural)]
pub enum DriverState {
    Uninitialized,
    Ready,
    Render,
    Terminated,
}

/// What the host's loop can ask of the driver.
pub enum Step {
    Attach,
    BeginFrame,
    EndFrame,
    Shutdown,
}

/// The state that a step leads to, or `None` where the step cannot be taken.
///
/// Frames follow one another: a frame begins only when the driver is ready and
/// ends before the next begins. A shutdown is taken between frames, never
/// within one, and nothing follows it.
pub open spec fn next_state(state: DriverState, step: Step) -> Option<DriverState> {
    match (state, step) {
        (DriverState::Uninitialized, Step::Attach) => Some(DriverState::Ready),
        (DriverState::Ready, Step::BeginFrame) => Some(DriverState::Render),
        (DriverState::Render, Step::EndFrame) => Some(DriverState::Ready),
        (DriverState::Uninitialized, Step::Shutdown) => Some(DriverState::Terminated),
        (DriverState::Ready, Step::Shutdown) => Some(DriverState::Terminated),
        _ => None,
    }
}

/// Why a step was refused.
#[derive(Clone, Copy, Debug, PartialEq, Eq, Structural)]
pub enum DriverError {
    /// The driver is in a state from which this step cannot be taken.
    OutOfTurn,
    /// The frame could not begin, because the tick counter could not be read.
    ClockUnavailable,
}

/// A driver as a mathematical value.
pub struct DriverView {
    pub state: DriverState,
    pub timer: TimerView,
}

impl DriverView {
    /// The driver after a step that leaves the clock alone, and what the step
    /// returns: the step is taken if the state allows it, and refused
    /// otherwise, with nothing changed.
    pub open spec fn stepped(
        self,
        step: Step,
        after: DriverView,
        result: Result<(), DriverError>,
    ) -> bool {
        match next_state(self.state, step) {
            Some(state) => result is Ok && after == (DriverView { state, timer: self.timer }),
            None => result == Err::<(), DriverError>(DriverError::OutOfTurn) && after == self,
        }
    }
}

/// The state of the animation together with its clock.
pub struct Driver {
    state: DriverState,
    timer: Timer,
}

impl View for Driver {
    type V = DriverView;

    closed spec fn view(&self) -> DriverView {
        DriverView { state: self.state, timer: self.timer@ }
    }
}

impl Driver {
    /// A driver that keeps `timer` and waits for a drawing surface.
    pub fn new(timer: Timer) -> (driver: Driver)
        ensures
            driver@ == (DriverView { state: DriverState::Uninitialized, timer: timer@ }),
    {
        Driver { state: DriverState::Uninitialized, timer }
    }

    /// Where the animation stands.
    pub fn state(&self) -> (state: DriverState)
        ensures
            state == self@.state,
    {
        self.state
    }

    /// The clock of the animation.
    pub fn timer(&self) -> (timer: &Timer)
        ensures
            timer@ == self@.timer,
    {
        &self.timer
    }

    /// The plot is built and a drawing surface is attached: an uninitialized
    /// driver becomes ready. In any other state nothing changes.
    pub fn attach(&mut self) -> (result: Result<(), DriverError>)
        ensures
            old(self)@.stepped(Step::Attach, final(self)@, result),
    {
        match self.state {
            DriverState::Uninitialized => {
                self.state = DriverState::Ready;
                Ok(())
            },
            _ => Err(DriverError::OutOfTurn),
        }
    }

    /// Begins a frame. `counter` is the tick counter's reading now, or `None`
    /// if it could not be read.
    ///
    /// A ready driver takes the reading, once, and enters `Render`; the result
    /// is the time since the timer was started, which is the angle at which
    /// the frame is to be drawn. Without a reading the timer notes the failed
    /// attempt and the driver stays ready. In any other state nothing changes.
    pub fn begin_frame(&mut self, counter: Option<i64>) -> (result: Result<Ratio, DriverError>)
        ensures
            match (next_state(old(self)@.state, Step::BeginFrame), counter) {
                (Some(state), Some(_)) => {
                    &&& final(self)@.state == state
                    &&& final(self)@.timer == old(self)@.timer.after_reset(counter)
                    &&& result == Ok::<Ratio, DriverError>(final(self)@.timer.total())
                },
                (Some(_), None) => {
                    &&& final(self)@.state == old(self)@.state
                    &&& final(self)@.timer == old(self)@.timer.after_reset(counter)
                    &&& result == Err::<Ratio, DriverError>(DriverError::ClockUnavailable)
                },
                (None, _) => {
                    &&& final(self)@ == old(self)@
                    &&& result == Err::<Ratio, DriverError>(DriverError::OutOfTurn)
                },
            },
    {
        match self.state {
            DriverState::Ready => {
                match self.timer.reset(counter) {
                    Ok(()) => {
                        self.state = DriverState::Render;
                        Ok(self.timer.get_time_total())
                    },
                    Err(ClockError::Unavailable) => Err(DriverError::ClockUnavailable),
                }
            },
            _ => Err(DriverError::OutOfTurn),
        }
    }

    /// The frame is over, drawn or failed: a driver in `Render` is ready
    /// again. In any other state nothing changes.
    pub fn end_frame(&mut self) -> (result: Result<(), DriverError>)
        ensures
            old(self)@.stepped(Step::EndFrame, final(self)@, result),
    {
        match self.state {
            DriverState::Render => {
                self.state = DriverState::Ready;
                Ok(())
            },
            _ => Err(DriverError::OutOfTurn),
        }
    }

    /// The host asks to stop. Between frames, and before the first, the driver
    /// terminates. A frame that is being drawn is not cut short, and a driver
    /// that has terminated stays as it is: then nothing changes.
    pub fn shutdown(&mut self) -> (result: Result<(), DriverError>)
        ensures
            old(self)@.stepped(Step::Shutdown, final(self)@, result),
    {
        match self.state {
            DriverState::Uninitialized | DriverState::Ready => {
                self.state = DriverState::Terminated;
                Ok(())
            },
            _ => Err(DriverError::OutOfTurn),
        }
    }
}

} // verus!
