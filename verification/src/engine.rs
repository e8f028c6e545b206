//! The escalation machine in incremental form, for drivers that perform
//! commands for real.
//!
//! A driver owns one [`Engine`] per configured resource.  In `Idle` it
//! feeds the next admitted event to [`Engine::on_event`]; whenever a
//! command comes back it performs it and reports the observed outcome to
//! [`Engine::step`] (the outcome of `ResetFailed` and `Sleep` is never
//! looked at, any value does); when `None` comes back the engine is idle
//! again and the next event may be read.  Every transition is pinned to
//! the spec transition functions below.

use crate::action::{classify, spec_shape, Cmd, CmdV, Shape};
use crate::config::{PromoterOptResource, ResView};
use crate::event::{promotion_edge, quorum_loss_edge, spec_promotion_edge, spec_quorum_loss_edge, StateEvent};
use vstd::prelude::*;

verus! {

/// Where the machine stands: idle, clearing a unit's failed state before
/// starting it, awaiting the observed command of a start or stop action,
/// awaiting a fallback attempt, or sleeping between fallback attempts.
/// `comp` marks a stop run that compensates a failed start.
#[derive(PartialEq, Eq, Structural, Clone, Copy, Debug)]
pub enum Phase {
    Idle,
    Reset { i: usize },
    Starting { i: usize },
    Stopping { i: usize, comp: bool },
    Fallback,
    Sleeping,
}

/// The view of an issued command, if one was issued.
pub open spec fn spec_opt_cmd(c: Option<Cmd>) -> Option<CmdV> {
    match c {
        Some(x) => Some(x@),
        None => None,
    }
}

/// Entering the fallback loop: issue the fallback action as a raw
/// command.
pub open spec fn spec_enter_fallback(res: ResView) -> (Phase, Option<CmdV>) {
    (Phase::Fallback, Some(CmdV::System(res.on_stop_failure)))
}

/// Entering stop action `i`: past the end the run is complete; a blank
/// action fails at once into the fallback; otherwise the action's
/// observed command is issued.
pub open spec fn spec_enter_stop(res: ResView, i: int, comp: bool) -> (Phase, Option<CmdV>) {
    if i >= res.stop.len() {
        (Phase::Idle, None)
    } else {
        match spec_shape(res.stop[i]) {
            Shape::Blank => spec_enter_fallback(res),
            Shape::Absolute => (
                Phase::Stopping { i: i as usize, comp },
                Some(CmdV::System(res.stop[i])),
            ),
            Shape::Unit => (Phase::Stopping { i: i as usize, comp }, Some(CmdV::UnitStop(res.stop[i]))),
        }
    }
}

/// Entering start action `i`: past the end the run is complete; a blank
/// action fails the start at once into the compensating stop; a raw
/// command is issued directly; a unit first gets its discarded
/// failed-state reset.
pub open spec fn spec_enter_start(res: ResView, i: int) -> (Phase, Option<CmdV>) {
    if i >= res.start.len() {
        (Phase::Idle, None)
    } else {
        match spec_shape(res.start[i]) {
            Shape::Blank => spec_enter_stop(res, 0, true),
            Shape::Absolute => (Phase::Starting { i: i as usize }, Some(CmdV::System(res.start[i]))),
            Shape::Unit => (Phase::Reset { i: i as usize }, Some(CmdV::ResetFailed(res.start[i]))),
        }
    }
}

/// What an event does to an idle machine: the promotion edge begins the
/// start run, the quorum-loss edge begins the direct stop run, everything
/// else leaves it idle.
pub open spec fn spec_on_event(res: ResView, ev: StateEvent) -> (Phase, Option<CmdV>) {
    match ev {
        StateEvent::Resource { before, after, .. } => if spec_promotion_edge(before, after) {
            spec_enter_start(res, 0)
        } else {
            (Phase::Idle, None)
        },
        StateEvent::Device { before, after, .. } => if spec_quorum_loss_edge(before, after) {
            spec_enter_stop(res, 0, false)
        } else {
            (Phase::Idle, None)
        },
        StateEvent::Other { .. } => (Phase::Idle, None),
    }
}

/// One transition on an observed outcome.  A reset is followed by its
/// unit's start command whatever the reset did; a failed start command
/// begins the compensating stop run from its first action; a failed stop
/// command enters the fallback; a failed fallback attempt sleeps once and
/// tries again; a successful fallback attempt ends the escalation.
pub open spec fn spec_step(res: ResView, ph: Phase, outcome: bool) -> (Phase, Option<CmdV>) {
    match ph {
        Phase::Idle => (Phase::Idle, None),
        Phase::Reset { i } => (Phase::Starting { i }, Some(CmdV::UnitStart(res.start[i as int]))),
        Phase::Starting { i } => if outcome {
            spec_enter_start(res, i + 1)
        } else {
            spec_enter_stop(res, 0, true)
        },
        Phase::Stopping { i, comp } => if outcome {
            spec_enter_stop(res, i + 1, comp)
        } else {
            spec_enter_fallback(res)
        },
        Phase::Fallback => if outcome {
            (Phase::Idle, None)
        } else {
            (Phase::Sleeping, Some(CmdV::Sleep))
        },
        Phase::Sleeping => spec_enter_fallback(res),
    }
}

/// The escalation machine for one resource: its normalized configuration
/// and the phase it stands in.
pub struct Engine {
    pub res: PromoterOptResource,
    pub phase: Phase,
}

impl Engine {
    /// The phase's indices point into the action lists.
    pub open spec fn wf(self) -> bool {
        match self.phase {
            Phase::Reset { i } => i < self.res@.start.len(),
            Phase::Starting { i } => i < self.res@.start.len(),
            Phase::Stopping { i, .. } => i < self.res@.stop.len(),
            _ => true,
        }
    }

    /// A fresh, idle machine for one resource.
    pub fn new(res: PromoterOptResource) -> (e: Engine)
        ensures
            e.res == res,
            e.phase == Phase::Idle,
            e.wf(),
    {
        Engine { res, phase: Phase::Idle }
    }

    /// Whether the machine awaits nothing and may take the next event.
    pub fn is_idle(&self) -> (b: bool)
        ensures
            b == (self.phase == Phase::Idle),
    {
        match self.phase {
            Phase::Idle => true,
            _ => false,
        }
    }

    fn enter_fallback(&mut self) -> (c: Option<Cmd>)
        ensures
            final(self).res == old(self).res,
            final(self).wf(),
            final(self).phase == spec_enter_fallback(old(self).res@).0,
            spec_opt_cmd(c) == spec_enter_fallback(old(self).res@).1,
    {
        self.phase = Phase::Fallback;
        Some(Cmd::System(self.res.on_stop_failure.clone()))
    }

    fn enter_stop(&mut self, i: usize, comp: bool) -> (c: Option<Cmd>)
        requires
            i <= old(self).res@.stop.len(),
        ensures
            final(self).res == old(self).res,
            final(self).wf(),
            final(self).phase == spec_enter_stop(old(self).res@, i as int, comp).0,
            spec_opt_cmd(c) == spec_enter_stop(old(self).res@, i as int, comp).1,
    {
        if i >= self.res.stop.len() {
            self.phase = Phase::Idle;
            return None;
        }
        match classify(self.res.stop[i].as_str()) {
            Shape::Blank => self.enter_fallback(),
            Shape::Absolute => {
                self.phase = Phase::Stopping { i, comp };
                Some(Cmd::System(self.res.stop[i].clone()))
            },
            Shape::Unit => {
                self.phase = Phase::Stopping { i, comp };
                Some(Cmd::UnitStop(self.res.stop[i].clone()))
            },
        }
    }

    fn enter_start(&mut self, i: usize) -> (c: Option<Cmd>)
        requires
            i <= old(self).res@.start.len(),
        ensures
            final(self).res == old(self).res,
            final(self).wf(),
            final(self).phase == spec_enter_start(old(self).res@, i as int).0,
            spec_opt_cmd(c) == spec_enter_start(old(self).res@, i as int).1,
    {
        if i >= self.res.start.len() {
            self.phase = Phase::Idle;
            return None;
        }
        match classify(self.res.start[i].as_str()) {
            Shape::Blank => self.enter_stop(0, true),
            Shape::Absolute => {
                self.phase = Phase::Starting { i };
                Some(Cmd::System(self.res.start[i].clone()))
            },
            Shape::Unit => {
                self.phase = Phase::Reset { i };
                Some(Cmd::ResetFailed(self.res.start[i].clone()))
            },
        }
    }

    /// Feeds one admitted event to an idle machine, as [`spec_on_event`]
    /// states.  `Some` asks the driver to perform that command and report
    /// its outcome through [`Engine::step`]; `None` means the event needed
    /// nothing.
    pub fn on_event(&mut self, ev: &StateEvent) -> (c: Option<Cmd>)
        requires
            old(self).phase == Phase::Idle,
        ensures
            final(self).res == old(self).res,
            final(self).wf(),
            final(self).phase == spec_on_event(old(self).res@, *ev).0,
            spec_opt_cmd(c) == spec_on_event(old(self).res@, *ev).1,
    {
        match ev {
            StateEvent::Resource { before, after, .. } => {
                if promotion_edge(before, after) {
                    self.enter_start(0)
                } else {
                    None
                }
            },
            StateEvent::Device { before, after, .. } => {
                if quorum_loss_edge(before, after) {
                    self.enter_stop(0, false)
                } else {
                    None
                }
            },
            StateEvent::Other { .. } => None,
        }
    }

    /// Reports the outcome of the last issued command, as [`spec_step`]
    /// states.  `Some` asks for the next command; `None` means the machine
    /// is idle again.
    pub fn step(&mut self, outcome: bool) -> (c: Option<Cmd>)
        requires
            old(self).wf(),
        ensures
            final(self).res == old(self).res,
            final(self).wf(),
            final(self).phase == spec_step(old(self).res@, old(self).phase, outcome).0,
            spec_opt_cmd(c) == spec_step(old(self).res@, old(self).phase, outcome).1,
    {
        match self.phase {
            Phase::Idle => None,
            Phase::Reset { i } => {
                self.phase = Phase::Starting { i };
                Some(Cmd::UnitStart(self.res.start[i].clone()))
            },
            Phase::Starting { i } => {
                // Pins the list length so the index increment provably fits.
                let _n = self.res.start.len();
                if outcome {
                    self.enter_start(i + 1)
                } else {
                    self.enter_stop(0, true)
                }
            },
            Phase::Stopping { i, comp } => {
                let _n = self.res.stop.len();
                if outcome {
                    self.enter_stop(i + 1, comp)
                } else {
                    self.enter_fallback()
                }
            },
            Phase::Fallback => {
                if outcome {
                    self.phase = Phase::Idle;
                    None
                } else {
                    self.phase = Phase::Sleeping;
                    Some(Cmd::Sleep)
                }
            },
            Phase::Sleeping => self.enter_fallback(),
        }
    }
}

/// Law: a failed start command moves to compensation — the machine next
/// runs the stop list from its first action, never the fallback directly.
pub proof fn lemma_step_start_failure_compensates(res: ResView, i: usize)
    ensures
        spec_step(res, Phase::Starting { i }, false) == spec_enter_stop(res, 0, true),
{
}

/// Law: a failed stop command — compensating or not — enters the fallback
/// loop at once, issuing the fallback action.
pub proof fn lemma_step_stop_failure_falls_back(res: ResView, i: usize, comp: bool)
    ensures
        spec_step(res, Phase::Stopping { i, comp }, false) == spec_enter_fallback(res),
        spec_enter_fallback(res).1 == Some(CmdV::System(res.on_stop_failure)),
{
}

/// Law: the fallback cycle — success ends the escalation; failure sleeps
/// exactly once and then reissues the fallback action, indefinitely.
pub proof fn lemma_step_fallback_cycle(res: ResView, outcome: bool)
    ensures
        spec_step(res, Phase::Fallback, true) == (Phase::Idle, None::<CmdV>),
        spec_step(res, Phase::Fallback, false) == (Phase::Sleeping, Some(CmdV::Sleep)),
        spec_step(res, Phase::Sleeping, outcome) == spec_enter_fallback(res),
{
}

} // verus!
