use promoter::action::{action, classify, Cmd, PromoterError, Shape, State};
use promoter::config::{lookup, normalize_config, normalize_resource, PromoterOpt, PromoterOptResource};
use promoter::event::{
    admits, promotion_edge, quorum_loss_edge, DeviceSnapshot, EventKind, ResourceSnapshot,
    StateEvent,
};
use promoter::runner::{handle_event, on_failure, run, start_actions, stop_actions, ListOutcome};

fn res(start: &[&str], stop: &[&str], fallback: &str) -> PromoterOptResource {
    PromoterOptResource {
        start: start.iter().map(|s| s.to_string()).collect(),
        stop: stop.iter().map(|s| s.to_string()).collect(),
        on_stop_failure: fallback.to_string(),
    }
}

fn cfg_r1(start: &[&str], stop: &[&str], fallback: &str) -> PromoterOpt {
    PromoterOpt { resources: vec![("r1".to_string(), res(start, stop, fallback))] }
}

fn promote_event(name: &str) -> StateEvent {
    StateEvent::Resource {
        kind: EventKind::Change,
        name: name.to_string(),
        before: ResourceSnapshot { may_promote: false },
        after: ResourceSnapshot { may_promote: true },
    }
}

fn quorum_loss_event(name: &str) -> StateEvent {
    StateEvent::Device {
        kind: EventKind::Change,
        name: name.to_string(),
        before: DeviceSnapshot { quorum: true },
        after: DeviceSnapshot { quorum: false },
    }
}

#[test]
fn normalize_fills_reversed_stop() {
    let r = normalize_resource(&res(&["a", "b", "c"], &[], ""));
    assert_eq!(r.start, vec!["a".to_string(), "b".to_string(), "c".to_string()]);
    assert_eq!(r.stop, vec!["c".to_string(), "b".to_string(), "a".to_string()]);
}

#[test]
fn normalize_keeps_explicit_stop() {
    let r = normalize_resource(&res(&["a", "b"], &["x"], "f"));
    assert_eq!(r.stop, vec!["x".to_string()]);
    assert_eq!(r.on_stop_failure, "f".to_string());
}

#[test]
fn normalize_fills_noop_fallback() {
    let r = normalize_resource(&res(&["a"], &["x"], ""));
    assert_eq!(r.on_stop_failure, "true".to_string());
}

#[test]
fn normalize_config_keeps_names_and_order() {
    let cfg = PromoterOpt {
        resources: vec![
            ("r1".to_string(), res(&["a"], &[], "")),
            ("r2".to_string(), res(&["b"], &["c"], "f")),
        ],
    };
    let n = normalize_config(&cfg);
    assert_eq!(n.resources.len(), 2);
    assert_eq!(n.resources[0].0, "r1".to_string());
    assert_eq!(n.resources[1].0, "r2".to_string());
    assert_eq!(n.resources[0].1.stop, vec!["a".to_string()]);
    assert_eq!(n.resources[0].1.on_stop_failure, "true".to_string());
    assert_eq!(n.resources[1].1.stop, vec!["c".to_string()]);
}

#[test]
fn normalize_is_idempotent() {
    let once = normalize_resource(&res(&["a", "b"], &[], ""));
    let twice = normalize_resource(&once);
    assert_eq!(twice.start, once.start);
    assert_eq!(twice.stop, once.stop);
    assert_eq!(twice.on_stop_failure, once.on_stop_failure);
}

#[test]
fn lookup_finds_first_match() {
    let cfg = PromoterOpt {
        resources: vec![
            ("r1".to_string(), res(&["a"], &[], "")),
            ("r2".to_string(), res(&["b"], &[], "")),
            ("r1".to_string(), res(&["z"], &[], "")),
        ],
    };
    assert_eq!(lookup(&cfg, &"r1".to_string()), Some(0));
    assert_eq!(lookup(&cfg, &"r2".to_string()), Some(1));
    assert_eq!(lookup(&cfg, &"r9".to_string()), None);
}

#[test]
fn classify_shapes() {
    assert_eq!(classify(""), Shape::Blank);
    assert_eq!(classify("   \t "), Shape::Blank);
    assert_eq!(classify("/usr/bin/x --flag"), Shape::Absolute);
    assert_eq!(classify("  /x"), Shape::Absolute);
    assert_eq!(classify("svcA"), Shape::Unit);
    assert_eq!(classify("svcA arg"), Shape::Unit);
}

#[test]
fn action_empty_is_error() {
    assert_eq!(action(State::Start, " \t"), Err(PromoterError::EmptyAction));
    assert_eq!(action(State::Stop, ""), Err(PromoterError::EmptyAction));
}

#[test]
fn action_absolute_runs_raw_in_both_directions() {
    let plan = action(State::Start, "/bin/x a b").unwrap();
    assert_eq!(plan, vec![Cmd::System("/bin/x a b".to_string())]);
    let plan = action(State::Stop, "/bin/x a b").unwrap();
    assert_eq!(plan, vec![Cmd::System("/bin/x a b".to_string())]);
}

#[test]
fn action_unit_start_resets_first() {
    let plan = action(State::Start, "svcA").unwrap();
    assert_eq!(
        plan,
        vec![Cmd::ResetFailed("svcA".to_string()), Cmd::UnitStart("svcA".to_string())]
    );
}

#[test]
fn action_unit_stop_is_direct() {
    let plan = action(State::Stop, "svcA").unwrap();
    assert_eq!(plan, vec![Cmd::UnitStop("svcA".to_string())]);
}

#[test]
fn promotion_edge_truth_table() {
    let f = ResourceSnapshot { may_promote: false };
    let t = ResourceSnapshot { may_promote: true };
    assert!(promotion_edge(&f, &t));
    assert!(!promotion_edge(&t, &t));
    assert!(!promotion_edge(&f, &f));
    assert!(!promotion_edge(&t, &f));
}

#[test]
fn quorum_loss_edge_truth_table() {
    let q = DeviceSnapshot { quorum: true };
    let n = DeviceSnapshot { quorum: false };
    assert!(quorum_loss_edge(&q, &n));
    assert!(!quorum_loss_edge(&q, &q));
    assert!(!quorum_loss_edge(&n, &n));
    assert!(!quorum_loss_edge(&n, &q));
}

#[test]
fn admits_filters_name_and_kind() {
    let cfg = cfg_r1(&["a"], &[], "");
    assert!(admits(&cfg, &promote_event("r1")));
    assert!(!admits(&cfg, &promote_event("r2")));
    let destroy = StateEvent::Resource {
        kind: EventKind::Destroy,
        name: "r1".to_string(),
        before: ResourceSnapshot { may_promote: false },
        after: ResourceSnapshot { may_promote: true },
    };
    assert!(!admits(&cfg, &destroy));
    let other = StateEvent::Other { kind: EventKind::Exists, name: "r1".to_string() };
    assert!(admits(&cfg, &other));
}

#[test]
fn list_stops_at_first_failure() {
    let actions: Vec<String> = vec!["a".to_string(), "b".to_string(), "c".to_string()];
    let outcomes = vec![true, false, true];
    let (trace, used, out) = start_actions(&actions, &outcomes, 0);
    // a succeeds, b fails, c must never run.
    assert_eq!(
        trace,
        vec![
            Cmd::ResetFailed("a".to_string()),
            Cmd::UnitStart("a".to_string()),
            Cmd::ResetFailed("b".to_string()),
            Cmd::UnitStart("b".to_string()),
        ]
    );
    assert_eq!(used, 2);
    assert_eq!(out, ListOutcome::FailedCommand);
}

#[test]
fn list_runs_in_order_on_success() {
    let actions: Vec<String> = vec!["a".to_string(), "/bin/x".to_string()];
    let outcomes = vec![true, true];
    let (trace, used, out) = stop_actions(&actions, &outcomes, 0);
    assert_eq!(
        trace,
        vec![Cmd::UnitStop("a".to_string()), Cmd::System("/bin/x".to_string())]
    );
    assert_eq!(used, 2);
    assert_eq!(out, ListOutcome::Done);
}

#[test]
fn list_blank_action_fails_without_outcome() {
    let actions: Vec<String> = vec!["a".to_string(), "  ".to_string(), "c".to_string()];
    let outcomes = vec![true, true, true];
    let (trace, used, out) = stop_actions(&actions, &outcomes, 0);
    assert_eq!(trace, vec![Cmd::UnitStop("a".to_string())]);
    assert_eq!(used, 1);
    assert_eq!(out, ListOutcome::FailedEmpty);
}

#[test]
fn fallback_retries_until_first_success() {
    let outcomes = vec![false, false, true, true];
    let (trace, used, done) = on_failure("f", &outcomes, 0);
    assert_eq!(
        trace,
        vec![
            Cmd::System("f".to_string()),
            Cmd::Sleep,
            Cmd::System("f".to_string()),
            Cmd::Sleep,
            Cmd::System("f".to_string()),
        ]
    );
    assert_eq!(used, 3);
    assert!(done);
}

#[test]
fn fallback_keeps_retrying_on_failure() {
    let outcomes = vec![false, false, false];
    let (trace, used, done) = on_failure("f", &outcomes, 0);
    assert_eq!(trace.len(), 7);
    assert_eq!(used, 3);
    assert!(!done);
}

#[test]
fn start_failure_compensates_with_stop_then_idle() {
    // Start of "a" fails; compensation stops via the reversed list and
    // succeeds: no fallback command appears.
    let r = normalize_resource(&res(&["a", "b"], &[], ""));
    let ev = promote_event("r1");
    let outcomes = vec![false, true, true];
    let (trace, used, ok) = handle_event(&r, &ev, &outcomes, 0);
    assert_eq!(
        trace,
        vec![
            Cmd::ResetFailed("a".to_string()),
            Cmd::UnitStart("a".to_string()),
            Cmd::UnitStop("b".to_string()),
            Cmd::UnitStop("a".to_string()),
        ]
    );
    assert_eq!(used, 3);
    assert!(ok);
}

#[test]
fn start_and_stop_failure_reach_fallback() {
    let r = normalize_resource(&res(&["a"], &[], ""));
    let ev = promote_event("r1");
    // start fails, compensating stop fails, fallback fails once then succeeds.
    let outcomes = vec![false, false, false, true];
    let (trace, used, ok) = handle_event(&r, &ev, &outcomes, 0);
    assert_eq!(
        trace,
        vec![
            Cmd::ResetFailed("a".to_string()),
            Cmd::UnitStart("a".to_string()),
            Cmd::UnitStop("a".to_string()),
            Cmd::System("true".to_string()),
            Cmd::Sleep,
            Cmd::System("true".to_string()),
        ]
    );
    assert_eq!(used, 4);
    assert!(ok);
}

#[test]
fn quorum_loss_failure_goes_straight_to_fallback() {
    let r = normalize_resource(&res(&["a", "b"], &[], "/fix me"));
    let ev = quorum_loss_event("r1");
    // stop of "b" fails: the next command is already the fallback.
    let outcomes = vec![false, true];
    let (trace, used, ok) = handle_event(&r, &ev, &outcomes, 0);
    assert_eq!(
        trace,
        vec![Cmd::UnitStop("b".to_string()), Cmd::System("/fix me".to_string())]
    );
    assert_eq!(used, 2);
    assert!(ok);
}

#[test]
fn run_promotion_starts_in_order() {
    // svcA then svcB, each preceded by a discarded reset-failed call.
    let cfg = cfg_r1(&["svcA", "svcB"], &[], "");
    let events = vec![promote_event("r1")];
    let outcomes = vec![true, true];
    let (trace, used) = run(&cfg, &events, &outcomes);
    assert_eq!(
        trace,
        vec![
            Cmd::ResetFailed("svcA".to_string()),
            Cmd::UnitStart("svcA".to_string()),
            Cmd::ResetFailed("svcB".to_string()),
            Cmd::UnitStart("svcB".to_string()),
        ]
    );
    assert_eq!(used, 2);
}

#[test]
fn run_quorum_loss_stops_reversed() {
    let cfg = cfg_r1(&["svcA", "svcB"], &[], "");
    let events = vec![quorum_loss_event("r1")];
    let outcomes = vec![true, true];
    let (trace, used) = run(&cfg, &events, &outcomes);
    assert_eq!(
        trace,
        vec![Cmd::UnitStop("svcB".to_string()), Cmd::UnitStop("svcA".to_string())]
    );
    assert_eq!(used, 2);
}

#[test]
fn run_ignores_non_edges_and_foreign_names() {
    let cfg = cfg_r1(&["svcA"], &[], "");
    let steady = StateEvent::Resource {
        kind: EventKind::Exists,
        name: "r1".to_string(),
        before: ResourceSnapshot { may_promote: true },
        after: ResourceSnapshot { may_promote: true },
    };
    let regain = StateEvent::Device {
        kind: EventKind::Change,
        name: "r1".to_string(),
        before: DeviceSnapshot { quorum: false },
        after: DeviceSnapshot { quorum: true },
    };
    let foreign = promote_event("other");
    let events = vec![steady, regain, foreign];
    let outcomes = vec![true, true];
    let (trace, used) = run(&cfg, &events, &outcomes);
    assert_eq!(trace, Vec::<Cmd>::new());
    assert_eq!(used, 0);
}

#[test]
fn run_processes_events_in_sequence() {
    let cfg = cfg_r1(&["svcA"], &[], "");
    let events = vec![promote_event("r1"), quorum_loss_event("r1")];
    let outcomes = vec![true, true];
    let (trace, used) = run(&cfg, &events, &outcomes);
    assert_eq!(
        trace,
        vec![
            Cmd::ResetFailed("svcA".to_string()),
            Cmd::UnitStart("svcA".to_string()),
            Cmd::UnitStop("svcA".to_string()),
        ]
    );
    assert_eq!(used, 2);
}
