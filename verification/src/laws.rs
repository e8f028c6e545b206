//! The behavioural laws of the engine, stated and proved over the same
//! spec functions that the executable functions are verified against.

use crate::action::{spec_blank, spec_plan, spec_shape, CmdV, Shape, State};
use crate::config::ResView;
use crate::engine::{
    spec_enter_fallback, spec_enter_start, spec_enter_stop, spec_on_event, spec_step, Phase,
};
use crate::event::{
    spec_promotion_edge, spec_quorum_loss_edge, DeviceSnapshot, EventKind, ResourceSnapshot,
    StateEvent,
};
use crate::runner::{spec_fallback_run, spec_handle, spec_list, spec_start_path, spec_stop_path, ListOutcome};
use vstd::prelude::*;

verus! {

/// All commands an action list issues when nothing fails: the plans of
/// its actions, concatenated in list order.
pub open spec fn spec_plans(to: State, actions: Seq<Seq<char>>) -> Seq<CmdV>
    decreases actions.len(),
{
    if actions.len() == 0 {
        Seq::<CmdV>::empty()
    } else {
        spec_plan(to, actions[0]) + spec_plans(to, actions.drop_first())
    }
}

/// Law: when no action is blank and every observed command succeeds, the
/// whole list runs: the trace is every action's plan in list order, one
/// outcome is consumed per action, and the run is done.
pub proof fn lemma_list_all_succeed(to: State, actions: Seq<Seq<char>>, oc: Seq<bool>)
    requires
        forall|k: int| 0 <= k < actions.len() ==> !spec_blank(#[trigger] actions[k]),
        oc.len() >= actions.len(),
        forall|k: int| 0 <= k < actions.len() ==> #[trigger] oc[k],
    ensures
        spec_list(to, actions, oc).0 == spec_plans(to, actions),
        spec_list(to, actions, oc).1 == actions.len(),
        spec_list(to, actions, oc).2 == ListOutcome::Done,
    decreases actions.len(),
{
    if actions.len() > 0 {
        assert(forall|k: int|
            0 <= k < actions.len() - 1 ==> #[trigger] actions.drop_first()[k] == actions[k + 1]);
        assert(forall|k: int| 0 <= k < oc.len() - 1 ==> #[trigger] oc.drop_first()[k] == oc[k + 1]);
        lemma_list_all_succeed(to, actions.drop_first(), oc.drop_first());
    }
}

/// Law: execution is order-preserving and stops at the first failure.
/// With the first `j` actions succeeding and the command of action `j`
/// failing, the trace is exactly the plans of actions `0` through `j` in
/// list order: none of the later actions issues anything.
pub proof fn lemma_list_fail_fast(to: State, actions: Seq<Seq<char>>, oc: Seq<bool>, j: int)
    requires
        0 <= j < actions.len(),
        forall|k: int| 0 <= k <= j ==> !spec_blank(#[trigger] actions[k]),
        j < oc.len(),
        forall|k: int| 0 <= k < j ==> #[trigger] oc[k],
        !oc[j],
    ensures
        spec_list(to, actions, oc).0 == spec_plans(to, actions.take(j + 1)),
        spec_list(to, actions, oc).1 == j + 1,
        spec_list(to, actions, oc).2 == ListOutcome::FailedCommand,
    decreases j,
{
    if j == 0 {
        assert(actions.take(1).len() == 1);
        assert(actions.take(1)[0] == actions[0]);
        assert(actions.take(1).drop_first() =~= Seq::<Seq<char>>::empty());
        assert(spec_plans(to, actions.take(1)) == spec_plan(to, actions.take(1)[0]) + spec_plans(
            to,
            actions.take(1).drop_first(),
        ));
        assert(spec_plan(to, actions[0]) + Seq::<CmdV>::empty() =~= spec_plan(to, actions[0]));
    } else {
        assert(forall|k: int|
            0 <= k < actions.len() - 1 ==> #[trigger] actions.drop_first()[k] == actions[k + 1]);
        assert(forall|k: int| 0 <= k < oc.len() - 1 ==> #[trigger] oc.drop_first()[k] == oc[k + 1]);
        lemma_list_fail_fast(to, actions.drop_first(), oc.drop_first(), j - 1);
        assert(actions.drop_first().take(j) =~= actions.take(j + 1).drop_first());
        assert(actions.take(j + 1)[0] == actions[0]);
    }
}

/// Law: a blank action fails the list at once, before any outcome is
/// observed: with the first `j` actions succeeding and action `j` blank,
/// the trace is the plans of actions `0` through `j - 1`, and neither the
/// blank action nor any later one issues anything.
pub proof fn lemma_list_blank_fails(to: State, actions: Seq<Seq<char>>, oc: Seq<bool>, j: int)
    requires
        0 <= j < actions.len(),
        forall|k: int| 0 <= k < j ==> !spec_blank(#[trigger] actions[k]),
        spec_blank(actions[j]),
        j <= oc.len(),
        forall|k: int| 0 <= k < j ==> #[trigger] oc[k],
    ensures
        spec_list(to, actions, oc).0 == spec_plans(to, actions.take(j)),
        spec_list(to, actions, oc).1 == j,
        spec_list(to, actions, oc).2 == ListOutcome::FailedEmpty,
    decreases j,
{
    if j == 0 {
        assert(actions.take(0) =~= Seq::<Seq<char>>::empty());
        assert(spec_list(to, actions, oc).0 =~= spec_plans(to, actions.take(0)));
    } else {
        assert(forall|k: int|
            0 <= k < actions.len() - 1 ==> #[trigger] actions.drop_first()[k] == actions[k + 1]);
        assert(forall|k: int| 0 <= k < oc.len() - 1 ==> #[trigger] oc.drop_first()[k] == oc[k + 1]);
        lemma_list_blank_fails(to, actions.drop_first(), oc.drop_first(), j - 1);
        assert(actions.drop_first().take(j - 1) =~= actions.take(j).drop_first());
        assert(actions.take(j)[0] == actions[0]);
    }
}

/// Law: a start failure is compensated: the trace of the start path is
/// the failed start trace followed by everything the stop path does on
/// the remaining outcomes, and the start path ends as the stop path ends.
pub proof fn lemma_start_failure_compensates(res: ResView, oc: Seq<bool>)
    requires
        spec_list(State::Start, res.start, oc).2 == ListOutcome::FailedEmpty || spec_list(
            State::Start,
            res.start,
            oc,
        ).2 == ListOutcome::FailedCommand,
    ensures
        ({
            let s = spec_list(State::Start, res.start, oc);
            let t = spec_stop_path(res, oc.skip(s.1));
            &&& spec_start_path(res, oc).0 == s.0 + t.0
            &&& spec_start_path(res, oc).1 == s.1 + t.1
            &&& spec_start_path(res, oc).2 == t.2
        }),
{
}

/// Law: when the compensating stop succeeds, the resource is left stopped
/// and the fallback loop never runs: the trace is exactly the failed
/// start commands followed by the stop commands, and nothing more.
pub proof fn lemma_compensation_success_no_fallback(res: ResView, oc: Seq<bool>)
    requires
        spec_list(State::Start, res.start, oc).2 == ListOutcome::FailedEmpty || spec_list(
            State::Start,
            res.start,
            oc,
        ).2 == ListOutcome::FailedCommand,
        spec_list(State::Stop, res.stop, oc.skip(spec_list(State::Start, res.start, oc).1)).2
            == ListOutcome::Done,
    ensures
        ({
            let s = spec_list(State::Start, res.start, oc);
            let t = spec_list(State::Stop, res.stop, oc.skip(s.1));
            &&& spec_start_path(res, oc).0 == s.0 + t.0
            &&& spec_start_path(res, oc).2 == true
        }),
{
}

/// Law: when the compensating stop fails too, the fallback loop runs at
/// least once: the trace continues with the fallback command.
pub proof fn lemma_compensation_failure_enters_fallback(res: ResView, oc: Seq<bool>)
    requires
        spec_list(State::Start, res.start, oc).2 == ListOutcome::FailedEmpty || spec_list(
            State::Start,
            res.start,
            oc,
        ).2 == ListOutcome::FailedCommand,
        spec_list(State::Stop, res.stop, oc.skip(spec_list(State::Start, res.start, oc).1)).2
            == ListOutcome::FailedEmpty || spec_list(
            State::Stop,
            res.stop,
            oc.skip(spec_list(State::Start, res.start, oc).1),
        ).2 == ListOutcome::FailedCommand,
    ensures
        ({
            let s = spec_list(State::Start, res.start, oc);
            let t = spec_list(State::Stop, res.stop, oc.skip(s.1));
            let f = spec_fallback_run(res.on_stop_failure, oc.skip(s.1).skip(t.1));
            &&& spec_start_path(res, oc).0 == s.0 + (t.0 + f.0)
            &&& f.0.len() >= 1
            &&& f.0[0] == CmdV::System(res.on_stop_failure)
        }),
{
    let s = spec_list(State::Start, res.start, oc);
    let t = spec_list(State::Stop, res.stop, oc.skip(s.1));
    let f = spec_fallback_run(res.on_stop_failure, oc.skip(s.1).skip(t.1));
    assert(f.0[0] == CmdV::System(res.on_stop_failure)) by {
        let rest = oc.skip(s.1).skip(t.1);
        if rest.len() != 0 && !rest[0] {
            assert(f.0 == seq![
                CmdV::System(res.on_stop_failure),
                CmdV::Sleep,
            ] + spec_fallback_run(res.on_stop_failure, rest.drop_first()).0);
        }
    }
}

/// Law: a quorum-loss stop failure skips compensation and goes straight
/// to the fallback loop: the stop-path trace is the failed stop commands
/// followed immediately by the fallback attempts.
pub proof fn lemma_stop_failure_goes_straight_to_fallback(res: ResView, oc: Seq<bool>)
    requires
        spec_list(State::Stop, res.stop, oc).2 == ListOutcome::FailedEmpty || spec_list(
            State::Stop,
            res.stop,
            oc,
        ).2 == ListOutcome::FailedCommand,
    ensures
        ({
            let t = spec_list(State::Stop, res.stop, oc);
            let f = spec_fallback_run(res.on_stop_failure, oc.skip(t.1));
            &&& spec_stop_path(res, oc).0 == t.0 + f.0
            &&& spec_stop_path(res, oc).1 == t.1 + f.1
            &&& spec_stop_path(res, oc).2 == f.2
        }),
{
}

/// Every command a stop-direction list issues is a unit stop or a raw
/// program call.
proof fn lemma_stop_list_trace_kinds(actions: Seq<Seq<char>>, oc: Seq<bool>)
    ensures
        forall|i: int|
            0 <= i < spec_list(State::Stop, actions, oc).0.len() ==> (#[trigger] spec_list(
                State::Stop,
                actions,
                oc,
            ).0[i] is UnitStop || spec_list(State::Stop, actions, oc).0[i] is System),
    decreases actions.len(),
{
    if actions.len() > 0 && !spec_blank(actions[0]) {
        let plan = spec_plan(State::Stop, actions[0]);
        assert(forall|i: int| 0 <= i < plan.len() ==> (plan[i] is UnitStop || plan[i] is System));
        if oc.len() > 0 && oc[0] {
            lemma_stop_list_trace_kinds(actions.drop_first(), oc.drop_first());
            let rest = spec_list(State::Stop, actions.drop_first(), oc.drop_first());
            assert forall|i: int| 0 <= i < spec_list(State::Stop, actions, oc).0.len() implies (
            #[trigger] spec_list(State::Stop, actions, oc).0[i] is UnitStop || spec_list(
                State::Stop,
                actions,
                oc,
            ).0[i] is System) by {
                if i < plan.len() {
                    assert(spec_list(State::Stop, actions, oc).0[i] == plan[i]);
                } else {
                    assert(spec_list(State::Stop, actions, oc).0[i] == rest.0[i - plan.len()]);
                }
            }
        }
    }
}

/// Every command the fallback loop issues is a raw program call or a
/// sleep.
proof fn lemma_fallback_trace_kinds(f: Seq<char>, oc: Seq<bool>)
    ensures
        forall|i: int|
            0 <= i < spec_fallback_run(f, oc).0.len() ==> (#[trigger] spec_fallback_run(f, oc).0[i]
                is System || spec_fallback_run(f, oc).0[i] is Sleep),
    decreases oc.len(),
{
    if oc.len() > 0 && !oc[0] {
        lemma_fallback_trace_kinds(f, oc.drop_first());
        let head = seq![CmdV::System(f), CmdV::Sleep];
        let rest = spec_fallback_run(f, oc.drop_first());
        assert forall|i: int| 0 <= i < spec_fallback_run(f, oc).0.len() implies (
        #[trigger] spec_fallback_run(f, oc).0[i] is System || spec_fallback_run(f, oc).0[i]
            is Sleep) by {
            if i < 2 {
                assert(spec_fallback_run(f, oc).0[i] == head[i]);
            } else {
                assert(spec_fallback_run(f, oc).0[i] == rest.0[i - 2]);
            }
        }
    }
}

/// Law: the stop path never starts anything: no command it issues is a
/// failed-state reset or a unit start, whatever the outcomes are.
pub proof fn lemma_stop_path_never_starts(res: ResView, oc: Seq<bool>)
    ensures
        forall|i: int|
            0 <= i < spec_stop_path(res, oc).0.len() ==> !(#[trigger] spec_stop_path(res, oc).0[i]
                is ResetFailed) && !(spec_stop_path(res, oc).0[i] is UnitStart),
{
    let t = spec_list(State::Stop, res.stop, oc);
    lemma_stop_list_trace_kinds(res.stop, oc);
    lemma_fallback_trace_kinds(res.on_stop_failure, oc.skip(t.1));
    let f = spec_fallback_run(res.on_stop_failure, oc.skip(t.1));
    assert forall|i: int| 0 <= i < spec_stop_path(res, oc).0.len() implies !(
    #[trigger] spec_stop_path(res, oc).0[i] is ResetFailed) && !(spec_stop_path(res, oc).0[i]
        is UnitStart) by {
        if t.2 == ListOutcome::Done || t.2 == ListOutcome::Stuck {
            assert(spec_stop_path(res, oc).0[i] == t.0[i]);
        } else {
            if i < t.0.len() {
                assert(spec_stop_path(res, oc).0[i] == t.0[i]);
            } else {
                assert(spec_stop_path(res, oc).0[i] == f.0[i - t.0.len()]);
            }
        }
    }
}

/// Law: the fallback loop ends on the first success: with the first `j`
/// attempts failing and attempt `j` succeeding, there are exactly `j + 1`
/// attempts with one sleep between consecutive attempts, and the loop
/// reports success.
pub proof fn lemma_fallback_stops_at_first_success(f: Seq<char>, oc: Seq<bool>, j: int)
    requires
        0 <= j < oc.len(),
        forall|k: int| 0 <= k < j ==> !(#[trigger] oc[k]),
        oc[j],
    ensures
        spec_fallback_run(f, oc).0.len() == 2 * j + 1,
        spec_fallback_run(f, oc).1 == j + 1,
        spec_fallback_run(f, oc).2 == true,
    decreases j,
{
    if j > 0 {
        assert(forall|k: int| 0 <= k < oc.len() - 1 ==> #[trigger] oc.drop_first()[k] == oc[k + 1]);
        lemma_fallback_stops_at_first_success(f, oc.drop_first(), j - 1);
    }
}

/// Law: on repeated failure the fallback loop retries indefinitely with a
/// fixed inter-attempt delay: with every outcome a failure it consumes
/// them all, issues one attempt more than there were outcomes, each but
/// the last followed by exactly one sleep, and reports that it is still
/// running.
pub proof fn lemma_fallback_never_gives_up(f: Seq<char>, oc: Seq<bool>)
    requires
        forall|k: int| 0 <= k < oc.len() ==> !(#[trigger] oc[k]),
    ensures
        spec_fallback_run(f, oc).0.len() == 2 * oc.len() + 1,
        spec_fallback_run(f, oc).1 == oc.len(),
        spec_fallback_run(f, oc).2 == false,
        forall|i: int|
            0 <= i < spec_fallback_run(f, oc).0.len() ==> (#[trigger] spec_fallback_run(f, oc).0[i]
                == if i % 2 == 0 {
                CmdV::System(f)
            } else {
                CmdV::Sleep
            }),
    decreases oc.len(),
{
    if oc.len() > 0 {
        assert(forall|k: int| 0 <= k < oc.len() - 1 ==> #[trigger] oc.drop_first()[k] == oc[k + 1]);
        lemma_fallback_never_gives_up(f, oc.drop_first());
        let head = seq![CmdV::System(f), CmdV::Sleep];
        let rest = spec_fallback_run(f, oc.drop_first());
        assert forall|i: int| 0 <= i < spec_fallback_run(f, oc).0.len() implies (
        #[trigger] spec_fallback_run(f, oc).0[i] == if i % 2 == 0 {
            CmdV::System(f)
        } else {
            CmdV::Sleep
        }) by {
            if i < 2 {
                assert(spec_fallback_run(f, oc).0[i] == head[i]);
            } else {
                assert(spec_fallback_run(f, oc).0[i] == rest.0[i - 2]);
            }
        }
    }
}

/// Law: a promotion edge takes the start path, exactly.
pub proof fn lemma_promotion_takes_start_path(
    res: ResView,
    kind: EventKind,
    name: String,
    before: ResourceSnapshot,
    after: ResourceSnapshot,
    oc: Seq<bool>,
)
    requires
        spec_promotion_edge(before, after),
    ensures
        spec_handle(res, StateEvent::Resource { kind, name, before, after }, oc) == spec_start_path(
            res,
            oc,
        ),
{
}

/// Law: a quorum-loss edge takes the stop path, exactly: no start action
/// and no compensation is ever attempted for it.
pub proof fn lemma_quorum_loss_takes_stop_path(
    res: ResView,
    kind: EventKind,
    name: String,
    before: DeviceSnapshot,
    after: DeviceSnapshot,
    oc: Seq<bool>,
)
    requires
        spec_quorum_loss_edge(before, after),
    ensures
        spec_handle(res, StateEvent::Device { kind, name, before, after }, oc) == spec_stop_path(
            res,
            oc,
        ),
{
}

/// The consumed count of a list run lies within the oracle.
pub proof fn lemma_list_consumed_bounds(to: State, actions: Seq<Seq<char>>, oc: Seq<bool>)
    ensures
        0 <= spec_list(to, actions, oc).1 <= oc.len(),
    decreases actions.len(),
{
    if actions.len() > 0 && !spec_blank(actions[0]) && oc.len() > 0 && oc[0] {
        lemma_list_consumed_bounds(to, actions.drop_first(), oc.drop_first());
    }
}

/// The command sequence an optional command contributes.
pub open spec fn opt_cmds(c: Option<CmdV>) -> Seq<CmdV> {
    match c {
        Some(x) => seq![x],
        None => Seq::<CmdV>::empty(),
    }
}

/// Phases that transition without consuming an outcome.
pub open spec fn phase_rank(ph: Phase) -> int {
    match ph {
        Phase::Reset { .. } => 1,
        Phase::Sleeping => 1,
        _ => 0,
    }
}

/// Driving the machine from a phase against the oracle: every command
/// its steps issue, the outcomes consumed, and whether it reached Idle.
/// A reset and a sleep step consume nothing; every other non-idle phase
/// awaits one outcome, so an exhausted oracle stops the drive there.
pub open spec fn spec_drive(res: ResView, ph: Phase, oc: Seq<bool>) -> (Seq<CmdV>, int, bool)
    decreases oc.len(), phase_rank(ph),
{
    match ph {
        Phase::Idle => (Seq::<CmdV>::empty(), 0int, true),
        Phase::Reset { .. } => {
            let next = spec_step(res, ph, true);
            let rest = spec_drive(res, next.0, oc);
            (opt_cmds(next.1) + rest.0, rest.1, rest.2)
        },
        Phase::Sleeping => {
            let next = spec_step(res, ph, true);
            let rest = spec_drive(res, next.0, oc);
            (opt_cmds(next.1) + rest.0, rest.1, rest.2)
        },
        _ => {
            if oc.len() == 0 {
                (Seq::<CmdV>::empty(), 0int, false)
            } else {
                let next = spec_step(res, ph, oc[0]);
                let rest = spec_drive(res, next.0, oc.drop_first());
                (opt_cmds(next.1) + rest.0, 1 + rest.1, rest.2)
            }
        },
    }
}

/// The stop path reads only the stop list and the fallback action.
proof fn lemma_stop_path_ignores_start(a: ResView, b: ResView, oc: Seq<bool>)
    requires
        a.stop == b.stop,
        a.on_stop_failure == b.on_stop_failure,
    ensures
        spec_stop_path(a, oc) == spec_stop_path(b, oc),
{
}

/// Entering the fallback and driving the machine is the batch fallback
/// run.
proof fn lemma_drive_fallback(res: ResView, oc: Seq<bool>)
    ensures
        ({
            let e = spec_enter_fallback(res);
            let d = spec_drive(res, e.0, oc);
            let f = spec_fallback_run(res.on_stop_failure, oc);
            &&& opt_cmds(e.1) + d.0 == f.0
            &&& d.1 == f.1
            &&& d.2 == f.2
        }),
    decreases oc.len(), 0int, 0int,
{
    reveal_with_fuel(spec_drive, 3);
    let e = spec_enter_fallback(res);
    let d = spec_drive(res, Phase::Fallback, oc);
    let f = spec_fallback_run(res.on_stop_failure, oc);
    if oc.len() == 0 {
        assert(opt_cmds(e.1) + d.0 =~= f.0);
    } else if oc[0] {
        assert(opt_cmds(e.1) + d.0 =~= f.0);
    } else {
        lemma_drive_fallback(res, oc.drop_first());
        let d3 = spec_drive(res, Phase::Fallback, oc.drop_first());
        let f2 = spec_fallback_run(res.on_stop_failure, oc.drop_first());
        assert(seq![CmdV::System(res.on_stop_failure)] + d3.0 == f2.0);
        assert(opt_cmds(e.1) + d.0 =~= seq![CmdV::System(res.on_stop_failure), CmdV::Sleep] + f2.0);
    }
}

/// Entering stop action `i` and driving the machine is the batch stop
/// path of the remaining stop list.
proof fn lemma_drive_stop(res: ResView, i: int, comp: bool, oc: Seq<bool>)
    requires
        0 <= i <= res.stop.len(),
        res.stop.len() <= usize::MAX,
    ensures
        ({
            let e = spec_enter_stop(res, i, comp);
            let d = spec_drive(res, e.0, oc);
            let p = spec_stop_path(
                ResView {
                    start: res.start,
                    stop: res.stop.skip(i),
                    on_stop_failure: res.on_stop_failure,
                },
                oc,
            );
            &&& opt_cmds(e.1) + d.0 == p.0
            &&& d.1 == p.1
            &&& d.2 == p.2
        }),
    decreases oc.len(), 1int, res.stop.len() - i,
{
    reveal_with_fuel(spec_drive, 3);
    let sub = ResView {
        start: res.start,
        stop: res.stop.skip(i),
        on_stop_failure: res.on_stop_failure,
    };
    let e = spec_enter_stop(res, i, comp);
    let d = spec_drive(res, e.0, oc);
    let p = spec_stop_path(sub, oc);
    let s = spec_list(State::Stop, sub.stop, oc);
    if i == res.stop.len() {
        assert(sub.stop.len() == 0);
        assert(opt_cmds(e.1) + d.0 =~= p.0);
    } else {
        assert(sub.stop[0] == res.stop[i]);
        let plan = spec_plan(State::Stop, res.stop[i]);
        if spec_shape(res.stop[i]) == Shape::Blank {
            lemma_drive_fallback(res, oc);
            let f = spec_fallback_run(res.on_stop_failure, oc);
            assert(oc.skip(0) =~= oc);
            assert(p.0 =~= f.0);
            assert(opt_cmds(e.1) + d.0 == f.0);
        } else {
            assert(plan =~= opt_cmds(e.1));
            if oc.len() == 0 {
                assert(opt_cmds(e.1) + d.0 =~= p.0);
            } else if !oc[0] {
                lemma_drive_fallback(res, oc.drop_first());
                let f = spec_fallback_run(res.on_stop_failure, oc.drop_first());
                assert(oc.skip(1) =~= oc.drop_first());
                assert(d.0 == opt_cmds(spec_enter_fallback(res).1) + spec_drive(
                    res,
                    Phase::Fallback,
                    oc.drop_first(),
                ).0);
                assert(d.0 == f.0);
                assert(opt_cmds(e.1) + d.0 =~= plan + f.0);
                assert(p.0 == plan + f.0);
            } else {
                lemma_drive_stop(res, i + 1, comp, oc.drop_first());
                lemma_list_consumed_bounds(State::Stop, sub.stop.drop_first(), oc.drop_first());
                let sub2 = ResView {
                    start: res.start,
                    stop: res.stop.skip(i + 1),
                    on_stop_failure: res.on_stop_failure,
                };
                assert(res.stop.skip(i + 1) =~= sub.stop.drop_first());
                let e2 = spec_enter_stop(res, i + 1, comp);
                let rest = spec_drive(res, e2.0, oc.drop_first());
                let p2 = spec_stop_path(sub2, oc.drop_first());
                let s2 = spec_list(State::Stop, sub.stop.drop_first(), oc.drop_first());
                assert(d.0 == opt_cmds(e2.1) + rest.0);
                assert(d.0 == p2.0);
                assert(s.0 == plan + s2.0);
                assert(s.1 == 1 + s2.1);
                assert(s.2 == s2.2);
                if s2.2 == ListOutcome::Done || s2.2 == ListOutcome::Stuck {
                    assert(opt_cmds(e.1) + d.0 =~= plan + s2.0);
                    assert(p.0 == s.0);
                } else {
                    let f2 = spec_fallback_run(res.on_stop_failure, oc.drop_first().skip(s2.1));
                    assert(oc.skip(s.1) =~= oc.drop_first().skip(s2.1));
                    assert(p2.0 == s2.0 + f2.0);
                    assert(p.0 == s.0 + f2.0);
                    assert(opt_cmds(e.1) + d.0 =~= (plan + s2.0) + f2.0);
                }
            }
        }
    }
}

/// Entering start action `i` and driving the machine is the batch start
/// path of the remaining start list.
#[verifier::rlimit(80)]
proof fn lemma_drive_start(res: ResView, i: int, oc: Seq<bool>)
    requires
        0 <= i <= res.start.len(),
        res.start.len() <= usize::MAX,
        res.stop.len() <= usize::MAX,
    ensures
        ({
            let e = spec_enter_start(res, i);
            let d = spec_drive(res, e.0, oc);
            let p = spec_start_path(
                ResView {
                    start: res.start.skip(i),
                    stop: res.stop,
                    on_stop_failure: res.on_stop_failure,
                },
                oc,
            );
            &&& opt_cmds(e.1) + d.0 == p.0
            &&& d.1 == p.1
            &&& d.2 == p.2
        }),
    decreases oc.len(), 2int, res.start.len() - i,
{
    reveal_with_fuel(spec_drive, 3);
    let sub = ResView {
        start: res.start.skip(i),
        stop: res.stop,
        on_stop_failure: res.on_stop_failure,
    };
    let e = spec_enter_start(res, i);
    let d = spec_drive(res, e.0, oc);
    let p = spec_start_path(sub, oc);
    let s = spec_list(State::Start, sub.start, oc);
    let full = ResView { start: res.start, stop: res.stop, on_stop_failure: res.on_stop_failure };
    if i == res.start.len() {
        assert(sub.start.len() == 0);
        assert(opt_cmds(e.1) + d.0 =~= p.0);
    } else {
        assert(sub.start[0] == res.start[i]);
        let plan = spec_plan(State::Start, res.start[i]);
        if spec_shape(res.start[i]) == Shape::Blank {
            lemma_drive_stop(res, 0, true, oc);
            assert(res.stop.skip(0) =~= res.stop);
            assert(ResView {
                start: res.start,
                stop: res.stop.skip(0),
                on_stop_failure: res.on_stop_failure,
            } =~= full);
            lemma_stop_path_ignores_start(full, sub, oc);
            let t = spec_stop_path(sub, oc);
            assert(oc.skip(0) =~= oc);
            assert(p.0 =~= t.0);
            assert(opt_cmds(e.1) + d.0 == t.0);
        } else {
            assert(plan =~= if spec_shape(res.start[i]) == Shape::Absolute {
                opt_cmds(e.1)
            } else {
                opt_cmds(e.1) + seq![CmdV::UnitStart(res.start[i])]
            });
            // After any reset hop the machine awaits the action's observed
            // command in Starting { i }, with the whole plan issued.
            let issued = plan;
            assert(opt_cmds(e.1) + d.0 =~= issued + spec_drive_from_starting(res, i, oc).0);
            assert(d.1 == spec_drive_from_starting(res, i, oc).1);
            assert(d.2 == spec_drive_from_starting(res, i, oc).2);
            let dd = spec_drive_from_starting(res, i, oc);
            if oc.len() == 0 {
                assert(opt_cmds(e.1) + d.0 =~= p.0);
            } else if !oc[0] {
                lemma_drive_stop(res, 0, true, oc.drop_first());
                assert(res.stop.skip(0) =~= res.stop);
                assert(ResView {
                    start: res.start,
                    stop: res.stop.skip(0),
                    on_stop_failure: res.on_stop_failure,
                } =~= full);
                lemma_stop_path_ignores_start(full, sub, oc.drop_first());
                let t = spec_stop_path(sub, oc.drop_first());
                assert(oc.skip(1) =~= oc.drop_first());
                assert(dd.0 == t.0);
                assert(opt_cmds(e.1) + d.0 =~= plan + t.0);
                assert(p.0 == plan + t.0);
            } else {
                lemma_drive_start(res, i + 1, oc.drop_first());
                lemma_list_consumed_bounds(State::Start, sub.start.drop_first(), oc.drop_first());
                let sub2 = ResView {
                    start: res.start.skip(i + 1),
                    stop: res.stop,
                    on_stop_failure: res.on_stop_failure,
                };
                assert(res.start.skip(i + 1) =~= sub.start.drop_first());
                let e2 = spec_enter_start(res, i + 1);
                let rest = spec_drive(res, e2.0, oc.drop_first());
                let p2 = spec_start_path(sub2, oc.drop_first());
                let s2 = spec_list(State::Start, sub.start.drop_first(), oc.drop_first());
                assert(dd.0 == opt_cmds(e2.1) + rest.0);
                assert(dd.0 == p2.0);
                assert(s.0 == plan + s2.0);
                assert(s.1 == 1 + s2.1);
                assert(s.2 == s2.2);
                if s2.2 == ListOutcome::Done || s2.2 == ListOutcome::Stuck {
                    assert(opt_cmds(e.1) + d.0 =~= plan + s2.0);
                    assert(p.0 == s.0);
                } else {
                    lemma_stop_path_ignores_start(sub2, sub, oc.drop_first().skip(s2.1));
                    let t2 = spec_stop_path(sub, oc.drop_first().skip(s2.1));
                    assert(oc.skip(s.1) =~= oc.drop_first().skip(s2.1));
                    assert(p2.0 == s2.0 + t2.0);
                    assert(p.0 == s.0 + t2.0);
                    assert(opt_cmds(e.1) + d.0 =~= (plan + s2.0) + t2.0);
                }
            }
        }
    }
}

/// The drive that remains once start action `i`'s observed command is
/// pending: exactly the consuming tail of [`spec_drive`] from
/// `Starting { i }`.
spec fn spec_drive_from_starting(res: ResView, i: int, oc: Seq<bool>) -> (
    Seq<CmdV>,
    int,
    bool,
) {
    spec_drive(res, Phase::Starting { i: i as usize }, oc)
}

/// Law: the incremental machine agrees with the batch semantics.  Feeding
/// one event to an idle machine and performing commands against the
/// oracle issues exactly the commands of the batch handler, consumes the
/// same outcomes, and returns to idle exactly when the batch run reports
/// completion.
pub proof fn lemma_machine_matches_batch(res: ResView, ev: StateEvent, oc: Seq<bool>)
    requires
        res.start.len() <= usize::MAX,
        res.stop.len() <= usize::MAX,
    ensures
        ({
            let e = spec_on_event(res, ev);
            let d = spec_drive(res, e.0, oc);
            let h = spec_handle(res, ev, oc);
            &&& opt_cmds(e.1) + d.0 == h.0
            &&& d.1 == h.1
            &&& d.2 == h.2
        }),
{
    let full = ResView { start: res.start, stop: res.stop, on_stop_failure: res.on_stop_failure };
    assert(full =~= res);
    match ev {
        StateEvent::Resource { before, after, .. } => {
            if spec_promotion_edge(before, after) {
                lemma_drive_start(res, 0, oc);
                assert(res.start.skip(0) =~= res.start);
                assert(ResView {
                    start: res.start.skip(0),
                    stop: res.stop,
                    on_stop_failure: res.on_stop_failure,
                } =~= res);
            } else {
                assert(opt_cmds(spec_on_event(res, ev).1) + spec_drive(res, Phase::Idle, oc).0
                    =~= spec_handle(res, ev, oc).0);
            }
        },
        StateEvent::Device { before, after, .. } => {
            if spec_quorum_loss_edge(before, after) {
                lemma_drive_stop(res, 0, false, oc);
                assert(res.stop.skip(0) =~= res.stop);
                assert(ResView {
                    start: res.start,
                    stop: res.stop.skip(0),
                    on_stop_failure: res.on_stop_failure,
                } =~= res);
            } else {
                assert(opt_cmds(spec_on_event(res, ev).1) + spec_drive(res, Phase::Idle, oc).0
                    =~= spec_handle(res, ev, oc).0);
            }
        },
        StateEvent::Other { .. } => {
            assert(opt_cmds(spec_on_event(res, ev).1) + spec_drive(res, Phase::Idle, oc).0
                =~= spec_handle(res, ev, oc).0);
        },
    }
}

/// Law: an event that crosses neither watched edge is a no-op: nothing is
/// issued, nothing is consumed, processing goes on.
pub proof fn lemma_non_edge_is_noop(res: ResView, ev: StateEvent, oc: Seq<bool>)
    requires
        match ev {
            StateEvent::Resource { before, after, .. } => !spec_promotion_edge(before, after),
            StateEvent::Device { before, after, .. } => !spec_quorum_loss_edge(before, after),
            StateEvent::Other { .. } => true,
        },
    ensures
        spec_handle(res, ev, oc).0 == Seq::<CmdV>::empty(),
        spec_handle(res, ev, oc).1 == 0,
        spec_handle(res, ev, oc).2 == true,
{
}

} // verus!
