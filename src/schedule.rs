//! The polling schedule: what the poller does on each timer tick or
//! shutdown request.
use vstd::prelude::*;

verus! {

/// What woke the poller.
#[derive(Debug, Clone, Copy, PartialEq, Eq, Structural)]
pub enum PollerEvent {
    /// The polling timer fired.
    Tick,
    /// The process was asked to stop.
    Shutdown,
}

/// What the poller does next.
#[derive(Debug, Clone, Copy, PartialEq, Eq, Structural)]
pub enum PollerAction {
    /// Poll every configured feed, then save the record of known items.
    PollAll,
    /// Do nothing this time.
    Skip,
    /// Save the record of known items and stop.
    SaveAndStop,
}

/// Where the poller stands.
#[derive(Debug, Clone, Copy, PartialEq, Eq, Structural)]
pub struct PollerState {
    /// Whether every feed was polled once before the timer started.
    pub primed: bool,
    /// Whether the timer has fired before.
    pub ticked: bool,
    /// Whether the poller has stopped.
    pub stopped: bool,
}

/// The next state and action: a shutdown stops the poller and saves; a
/// tick after stopping does nothing; the first tick does nothing when the
/// feeds were already polled before the timer started; any other tick
/// polls.
pub open spec fn step(s: PollerState, e: PollerEvent) -> (PollerState, PollerAction) {
    match e {
        PollerEvent::Shutdown => (PollerState { stopped: true, ..s }, PollerAction::SaveAndStop),
        PollerEvent::Tick => if s.stopped {
            (s, PollerAction::Skip)
        } else if !s.ticked && s.primed {
            (PollerState { ticked: true, ..s }, PollerAction::Skip)
        } else {
            (PollerState { ticked: true, ..s }, PollerAction::PollAll)
        },
    }
}

impl PollerState {
    /// A poller whose timer has not fired yet; `primed` tells whether every
    /// feed was polled once already.
    pub fn new(primed: bool) -> (r: PollerState)
        ensures
            r == (PollerState { primed, ticked: false, stopped: false }),
    {
        PollerState { primed, ticked: false, stopped: false }
    }

    /// Takes one event and returns what to do.
    pub fn on_event(&mut self, event: PollerEvent) -> (r: PollerAction)
        ensures
            (*final(self), r) == step(*old(self), event),
    {
        match event {
            PollerEvent::Shutdown => {
                self.stopped = true;
                PollerAction::SaveAndStop
            },
            PollerEvent::Tick => {
                if self.stopped {
                    PollerAction::Skip
                } else if !self.ticked && self.primed {
                    self.ticked = true;
                    PollerAction::Skip
                } else {
                    self.ticked = true;
                    PollerAction::PollAll
                }
            },
        }
    }
}

} // verus!
