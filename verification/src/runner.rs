//! Ordered action-list execution, the remediation escalation, and the
//! event-consumption loop, in pure form.
//!
//! Commands are never performed here.  Every function takes the observed
//! outcomes of the commands it would issue as a sequence of booleans, the
//! oracle, reading it left to right: each observed command consumes exactly
//! one outcome, while `ResetFailed` and `Sleep` consume none, since their
//! results are never looked at.  Each function returns the trace of
//! commands issued, the number of outcomes consumed, and how the run ended.
//! When the oracle runs out mid-execution the run stops where it stands and
//! says so; a driver with a live oracle never meets that case.

use crate::action::{action, spec_blank, spec_plan, Cmd, CmdV, State};
use crate::config::{
    normalize_config, spec_find, spec_normalize, PromoterOpt, PromoterOptResource, ResView,
};
use crate::event::{
    admits, spec_admits, spec_event_name, spec_promotion_edge, spec_quorum_loss_edge, StateEvent,
};
use vstd::prelude::*;

verus! {

/// How the execution of one action list ended: every action succeeded, an
/// action was blank, an observed command failed, or the oracle ran out.
#[derive(PartialEq, Eq, Structural, Clone, Copy, Debug)]
pub enum ListOutcome {
    Done,
    FailedEmpty,
    FailedCommand,
    Stuck,
}

/// Trace, consumed outcomes, and outcome of executing an action list in
/// order with fail-fast semantics: each action's commands are issued in
/// list order; the first blank action or failed command aborts the rest.
pub open spec fn spec_list(to: State, actions: Seq<Seq<char>>, oc: Seq<bool>) -> (Seq<CmdV>, int, ListOutcome)
    decreases actions.len(),
{
    if actions.len() == 0 {
        (Seq::<CmdV>::empty(), 0int, ListOutcome::Done)
    } else if spec_blank(actions[0]) {
        (Seq::<CmdV>::empty(), 0int, ListOutcome::FailedEmpty)
    } else {
        let plan = spec_plan(to, actions[0]);
        if oc.len() == 0 {
            (plan, 0int, ListOutcome::Stuck)
        } else if !oc[0] {
            (plan, 1int, ListOutcome::FailedCommand)
        } else {
            let rest = spec_list(to, actions.drop_first(), oc.drop_first());
            (plan + rest.0, 1 + rest.1, rest.2)
        }
    }
}

fn run_list_from(to: State, actions: &Vec<String>, ai: usize, outcomes: &Vec<bool>, oi: usize) -> (r: (
    Vec<Cmd>,
    usize,
    ListOutcome,
))
    requires
        ai <= actions.len(),
        oi <= outcomes.len(),
    ensures
        ({
            let s = spec_list(to, actions.deep_view().skip(ai as int), outcomes@.skip(oi as int));
            &&& r.0.deep_view() == s.0
            &&& r.1 == s.1
            &&& r.2 == s.2
            &&& oi + r.1 <= outcomes.len()
        }),
    decreases actions.len() - ai,
{
    let ghost acts = actions.deep_view().skip(ai as int);
    let ghost oc = outcomes@.skip(oi as int);
    if ai >= actions.len() {
        let r: Vec<Cmd> = Vec::new();
        proof {
            assert(r.deep_view() =~= spec_list(to, acts, oc).0);
        }
        return (r, 0, ListOutcome::Done);
    }
    proof {
        assert(acts[0] == actions.deep_view()[ai as int]);
    }
    match action(to, actions[ai].as_str()) {
        Err(_) => {
            let r: Vec<Cmd> = Vec::new();
            proof {
                assert(r.deep_view() =~= Seq::<CmdV>::empty());
            }
            (r, 0, ListOutcome::FailedEmpty)
        },
        Ok(plan) => {
            if oi >= outcomes.len() {
                proof {
                    assert(oc.len() == 0);
                }
                (plan, 0, ListOutcome::Stuck)
            } else if !outcomes[oi] {
                proof {
                    assert(oc[0] == outcomes@[oi as int]);
                }
                (plan, 1, ListOutcome::FailedCommand)
            } else {
                let rest = run_list_from(to, actions, ai + 1, outcomes, oi + 1);
                proof {
                    assert(actions.deep_view().skip(ai + 1) =~= acts.drop_first());
                    assert(outcomes@.skip(oi + 1) =~= oc.drop_first());
                }
                let mut trace = plan;
                let mut tail = rest.0;
                trace.append(&mut tail);
                proof {
                    let s = spec_list(to, acts, oc);
                    assert(trace.deep_view() =~= s.0);
                }
                (trace, 1 + rest.1, rest.2)
            }
        },
    }
}

/// Executes an ordered list of actions in the start direction against the
/// oracle, beginning at outcome `from`, as [`spec_list`] states.
pub fn start_actions(actions: &Vec<String>, outcomes: &Vec<bool>, from: usize) -> (r: (
    Vec<Cmd>,
    usize,
    ListOutcome,
))
    requires
        from <= outcomes.len(),
    ensures
        ({
            let s = spec_list(State::Start, actions.deep_view(), outcomes@.skip(from as int));
            &&& r.0.deep_view() == s.0
            &&& r.1 == s.1
            &&& r.2 == s.2
            &&& from + r.1 <= outcomes.len()
        }),
{
    proof {
        assert(actions.deep_view().skip(0) =~= actions.deep_view());
    }
    run_list_from(State::Start, actions, 0, outcomes, from)
}

/// Executes an ordered list of actions in the stop direction against the
/// oracle, beginning at outcome `from`, as [`spec_list`] states.
pub fn stop_actions(actions: &Vec<String>, outcomes: &Vec<bool>, from: usize) -> (r: (
    Vec<Cmd>,
    usize,
    ListOutcome,
))
    requires
        from <= outcomes.len(),
    ensures
        ({
            let s = spec_list(State::Stop, actions.deep_view(), outcomes@.skip(from as int));
            &&& r.0.deep_view() == s.0
            &&& r.1 == s.1
            &&& r.2 == s.2
            &&& from + r.1 <= outcomes.len()
        }),
{
    proof {
        assert(actions.deep_view().skip(0) =~= actions.deep_view());
    }
    run_list_from(State::Stop, actions, 0, outcomes, from)
}

/// Trace, consumed outcomes, and success of the fallback loop: the
/// fallback action is issued as a raw command; every failure is followed
/// by one fixed-interval sleep and another attempt; the loop ends on the
/// first success and never gives up on its own, so with the oracle
/// exhausted it reports that it is still running.
pub open spec fn spec_fallback_run(f: Seq<char>, oc: Seq<bool>) -> (Seq<CmdV>, int, bool)
    decreases oc.len(),
{
    if oc.len() == 0 {
        (seq![CmdV::System(f)], 0int, false)
    } else if oc[0] {
        (seq![CmdV::System(f)], 1int, true)
    } else {
        let rest = spec_fallback_run(f, oc.drop_first());
        (seq![CmdV::System(f), CmdV::Sleep] + rest.0, 1 + rest.1, rest.2)
    }
}

/// Runs the fallback action in a retry loop against the oracle, beginning
/// at outcome `from`, as [`spec_fallback_run`] states.
pub fn on_failure(action: &str, outcomes: &Vec<bool>, from: usize) -> (r: (Vec<Cmd>, usize, bool))
    requires
        from <= outcomes.len(),
    ensures
        ({
            let s = spec_fallback_run(action@, outcomes@.skip(from as int));
            &&& r.0.deep_view() == s.0
            &&& r.1 == s.1
            &&& r.2 == s.2
            &&& from + r.1 <= outcomes.len()
        }),
    decreases outcomes.len() - from,
{
    let ghost oc = outcomes@.skip(from as int);
    let mut trace: Vec<Cmd> = Vec::new();
    trace.push(Cmd::System(action.to_owned()));
    if from >= outcomes.len() {
        proof {
            assert(oc.len() == 0);
            assert(trace.deep_view() =~= seq![CmdV::System(action@)]);
        }
        (trace, 0, false)
    } else if outcomes[from] {
        proof {
            assert(oc[0] == outcomes@[from as int]);
            assert(trace.deep_view() =~= seq![CmdV::System(action@)]);
        }
        (trace, 1, true)
    } else {
        trace.push(Cmd::Sleep);
        let rest = on_failure(action, outcomes, from + 1);
        proof {
            assert(outcomes@.skip(from + 1) =~= oc.drop_first());
        }
        let mut tail = rest.0;
        trace.append(&mut tail);
        proof {
            let s = spec_fallback_run(action@, oc);
            assert(trace.deep_view() =~= s.0);
        }
        (trace, 1 + rest.1, rest.2)
    }
}

/// The stop path: run the stop actions; when they fail, enter the
/// fallback loop directly — stopping is never compensated.
pub open spec fn spec_stop_path(res: ResView, oc: Seq<bool>) -> (Seq<CmdV>, int, bool) {
    let s = spec_list(State::Stop, res.stop, oc);
    if s.2 == ListOutcome::Done {
        (s.0, s.1, true)
    } else if s.2 == ListOutcome::Stuck {
        (s.0, s.1, false)
    } else {
        let f = spec_fallback_run(res.on_stop_failure, oc.skip(s.1));
        (s.0 + f.0, s.1 + f.1, f.2)
    }
}

/// The start path: run the start actions; when they fail, run the stop
/// actions as compensation, leaving the resource stopped on success; when
/// the compensation fails too, enter the fallback loop.
pub open spec fn spec_start_path(res: ResView, oc: Seq<bool>) -> (Seq<CmdV>, int, bool) {
    let s = spec_list(State::Start, res.start, oc);
    if s.2 == ListOutcome::Done {
        (s.0, s.1, true)
    } else if s.2 == ListOutcome::Stuck {
        (s.0, s.1, false)
    } else {
        let t = spec_stop_path(res, oc.skip(s.1));
        (s.0 + t.0, s.1 + t.1, t.2)
    }
}

/// What one admitted event does to its resource: the promotion edge takes
/// the start path, the quorum-loss edge takes the stop path, and every
/// other event is a no-op.
pub open spec fn spec_handle(res: ResView, ev: StateEvent, oc: Seq<bool>) -> (Seq<CmdV>, int, bool) {
    match ev {
        StateEvent::Resource { before, after, .. } => if spec_promotion_edge(before, after) {
            spec_start_path(res, oc)
        } else {
            (Seq::<CmdV>::empty(), 0int, true)
        },
        StateEvent::Device { before, after, .. } => if spec_quorum_loss_edge(before, after) {
            spec_stop_path(res, oc)
        } else {
            (Seq::<CmdV>::empty(), 0int, true)
        },
        StateEvent::Other { .. } => (Seq::<CmdV>::empty(), 0int, true),
    }
}

/// Handles one admitted event for its resource against the oracle,
/// beginning at outcome `from`, as [`spec_handle`] states.
pub fn handle_event(res: &PromoterOptResource, ev: &StateEvent, outcomes: &Vec<bool>, from: usize) -> (r: (
    Vec<Cmd>,
    usize,
    bool,
))
    requires
        from <= outcomes.len(),
    ensures
        ({
            let h = spec_handle(res@, *ev, outcomes@.skip(from as int));
            &&& r.0.deep_view() == h.0
            &&& r.1 == h.1
            &&& r.2 == h.2
            &&& from + r.1 <= outcomes.len()
        }),
{
    let ghost oc = outcomes@.skip(from as int);
    match ev {
        StateEvent::Resource { before, after, .. } => {
            if crate::event::promotion_edge(before, after) {
                start_path(res, outcomes, from)
            } else {
                (Vec::new(), 0, true)
            }
        },
        StateEvent::Device { before, after, .. } => {
            if crate::event::quorum_loss_edge(before, after) {
                stop_path(res, outcomes, from)
            } else {
                (Vec::new(), 0, true)
            }
        },
        StateEvent::Other { .. } => (Vec::new(), 0, true),
    }
}

fn stop_path(res: &PromoterOptResource, outcomes: &Vec<bool>, from: usize) -> (r: (
    Vec<Cmd>,
    usize,
    bool,
))
    requires
        from <= outcomes.len(),
    ensures
        ({
            let h = spec_stop_path(res@, outcomes@.skip(from as int));
            &&& r.0.deep_view() == h.0
            &&& r.1 == h.1
            &&& r.2 == h.2
            &&& from + r.1 <= outcomes.len()
        }),
{
    let ghost oc = outcomes@.skip(from as int);
    let s = stop_actions(&res.stop, outcomes, from);
    match s.2 {
        ListOutcome::Done => (s.0, s.1, true),
        ListOutcome::Stuck => (s.0, s.1, false),
        _ => {
            let f = on_failure(res.on_stop_failure.as_str(), outcomes, from + s.1);
            proof {
                assert(outcomes@.skip(from + s.1) =~= oc.skip(s.1 as int));
            }
            let mut trace = s.0;
            let mut tail = f.0;
            trace.append(&mut tail);
            proof {
                assert(trace.deep_view() =~= spec_stop_path(res@, oc).0);
            }
            (trace, s.1 + f.1, f.2)
        },
    }
}

fn start_path(res: &PromoterOptResource, outcomes: &Vec<bool>, from: usize) -> (r: (
    Vec<Cmd>,
    usize,
    bool,
))
    requires
        from <= outcomes.len(),
    ensures
        ({
            let h = spec_start_path(res@, outcomes@.skip(from as int));
            &&& r.0.deep_view() == h.0
            &&& r.1 == h.1
            &&& r.2 == h.2
            &&& from + r.1 <= outcomes.len()
        }),
{
    let ghost oc = outcomes@.skip(from as int);
    let s = start_actions(&res.start, outcomes, from);
    match s.2 {
        ListOutcome::Done => (s.0, s.1, true),
        ListOutcome::Stuck => (s.0, s.1, false),
        _ => {
            let t = stop_path(res, outcomes, from + s.1);
            proof {
                assert(outcomes@.skip(from + s.1) =~= oc.skip(s.1 as int));
            }
            let mut trace = s.0;
            let mut tail = t.0;
            trace.append(&mut tail);
            proof {
                assert(trace.deep_view() =~= spec_start_path(res@, oc).0);
            }
            (trace, s.1 + t.1, t.2)
        },
    }
}

/// Trace and consumed outcomes of consuming a whole event sequence: events
/// that the filter predicate drops are skipped; each admitted event is
/// handled by the first configuration entry carrying its name; when the
/// oracle runs out mid-event the remaining events are left unconsumed.
pub open spec fn spec_run(cfg: Seq<(Seq<char>, ResView)>, events: Seq<StateEvent>, oc: Seq<bool>) -> (
    Seq<CmdV>,
    int,
)
    decreases events.len(),
{
    if events.len() == 0 {
        (Seq::<CmdV>::empty(), 0int)
    } else {
        let ev = events[0];
        if spec_admits(cfg, ev) {
            let h = spec_handle(cfg[spec_find(cfg, spec_event_name(ev))].1, ev, oc);
            if !h.2 {
                (h.0, h.1)
            } else {
                let rest = spec_run(cfg, events.drop_first(), oc.skip(h.1));
                (h.0 + rest.0, h.1 + rest.1)
            }
        } else {
            spec_run(cfg, events.drop_first(), oc)
        }
    }
}

fn run_events(cfg: &PromoterOpt, events: &Vec<StateEvent>, ei: usize, outcomes: &Vec<bool>, oi: usize) -> (r: (
    Vec<Cmd>,
    usize,
))
    requires
        ei <= events.len(),
        oi <= outcomes.len(),
    ensures
        ({
            let s = spec_run(cfg@, events@.skip(ei as int), outcomes@.skip(oi as int));
            &&& r.0.deep_view() == s.0
            &&& r.1 == s.1
            &&& oi + r.1 <= outcomes.len()
        }),
    decreases events.len() - ei,
{
    let ghost evs = events@.skip(ei as int);
    let ghost oc = outcomes@.skip(oi as int);
    if ei >= events.len() {
        let r: Vec<Cmd> = Vec::new();
        proof {
            assert(r.deep_view() =~= Seq::<CmdV>::empty());
        }
        return (r, 0);
    }
    let ev = &events[ei];
    proof {
        assert(evs[0] == events@[ei as int]);
        assert(events@.skip(ei + 1) =~= evs.drop_first());
    }
    if admits(cfg, ev) {
        let name = match ev {
            StateEvent::Resource { name, .. } => name,
            StateEvent::Device { name, .. } => name,
            StateEvent::Other { name, .. } => name,
        };
        proof {
            assert(name@ == spec_event_name(*ev));
        }
        match crate::config::lookup(cfg, name) {
            Some(i) => {
                let h = handle_event(&cfg.resources[i].1, ev, outcomes, oi);
                proof {
                    assert(cfg@[i as int].1 == cfg.resources[i as int].1@);
                }
                if !h.2 {
                    (h.0, h.1)
                } else {
                    let rest = run_events(cfg, events, ei + 1, outcomes, oi + h.1);
                    proof {
                        assert(outcomes@.skip(oi + h.1) =~= oc.skip(h.1 as int));
                    }
                    let mut trace = h.0;
                    let mut tail = rest.0;
                    trace.append(&mut tail);
                    proof {
                        assert(trace.deep_view() =~= spec_run(cfg@, evs, oc).0);
                    }
                    (trace, h.1 + rest.1)
                }
            },
            None => {
                // Unreachable: the filter only admits configured names.
                proof {
                    assert(false);
                }
                (Vec::new(), 0)
            },
        }
    } else {
        run_events(cfg, events, ei + 1, outcomes, oi)
    }
}

/// Consumes a finite event sequence for a configuration: the configuration
/// is normalized once, then each event is filtered, edge-detected, and
/// acted on in order against the oracle, as [`spec_run`] over the
/// normalized configuration states.
pub fn run(cfg: &PromoterOpt, events: &Vec<StateEvent>, outcomes: &Vec<bool>) -> (r: (
    Vec<Cmd>,
    usize,
))
    ensures
        ({
            let s = spec_run(spec_normalize(cfg@), events@, outcomes@);
            &&& r.0.deep_view() == s.0
            &&& r.1 == s.1
            &&& r.1 <= outcomes.len()
        }),
{
    let ncfg = normalize_config(cfg);
    proof {
        assert(events@.skip(0) =~= events@);
        assert(outcomes@.skip(0) =~= outcomes@);
    }
    run_events(&ncfg, events, 0, outcomes, 0)
}

} // verus!
