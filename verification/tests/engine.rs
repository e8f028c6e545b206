use promoter::action::Cmd;
use promoter::config::{normalize_resource, PromoterOptResource};
use promoter::engine::{Engine, Phase};
use promoter::event::{DeviceSnapshot, EventKind, ResourceSnapshot, StateEvent};

fn two_unit_resource() -> PromoterOptResource {
    normalize_resource(&PromoterOptResource {
        start: vec!["svcA".to_string(), "svcB".to_string()],
        stop: vec![],
        on_stop_failure: String::new(),
    })
}

fn promotion(name: &str) -> StateEvent {
    StateEvent::Resource {
        kind: EventKind::Change,
        name: name.to_string(),
        before: ResourceSnapshot { may_promote: false },
        after: ResourceSnapshot { may_promote: true },
    }
}

#[test]
fn machine_drives_promotion_to_completion() {
    let mut e = Engine::new(two_unit_resource());
    assert!(e.is_idle());
    let c = e.on_event(&promotion("r1"));
    assert_eq!(c, Some(Cmd::ResetFailed("svcA".to_string())));
    let c = e.step(false); // reset outcome is discarded
    assert_eq!(c, Some(Cmd::UnitStart("svcA".to_string())));
    let c = e.step(true);
    assert_eq!(c, Some(Cmd::ResetFailed("svcB".to_string())));
    let c = e.step(true);
    assert_eq!(c, Some(Cmd::UnitStart("svcB".to_string())));
    let c = e.step(true);
    assert_eq!(c, None);
    assert!(e.is_idle());
}

#[test]
fn machine_compensates_and_falls_back() {
    let mut e = Engine::new(two_unit_resource());
    let c = e.on_event(&promotion("r1"));
    assert_eq!(c, Some(Cmd::ResetFailed("svcA".to_string())));
    let c = e.step(true);
    assert_eq!(c, Some(Cmd::UnitStart("svcA".to_string())));
    // start fails: compensation stops svcB first (reversed order).
    let c = e.step(false);
    assert_eq!(c, Some(Cmd::UnitStop("svcB".to_string())));
    let c = e.step(true);
    assert_eq!(c, Some(Cmd::UnitStop("svcA".to_string())));
    // compensating stop fails: the fallback begins at once.
    let c = e.step(false);
    assert_eq!(c, Some(Cmd::System("true".to_string())));
    // fallback fails: one sleep, then another attempt, indefinitely.
    let c = e.step(false);
    assert_eq!(c, Some(Cmd::Sleep));
    let c = e.step(false);
    assert_eq!(c, Some(Cmd::System("true".to_string())));
    // first success ends the escalation.
    let c = e.step(true);
    assert_eq!(c, None);
    assert!(e.is_idle());
}

#[test]
fn machine_ignores_non_edge() {
    let mut e = Engine::new(two_unit_resource());
    let steady = StateEvent::Device {
        kind: EventKind::Exists,
        name: "r1".to_string(),
        before: DeviceSnapshot { quorum: true },
        after: DeviceSnapshot { quorum: true },
    };
    let c = e.on_event(&steady);
    assert_eq!(c, None);
    assert_eq!(e.phase, Phase::Idle);
}

#[test]
fn machine_quorum_loss_stops_directly() {
    let mut e = Engine::new(two_unit_resource());
    let loss = StateEvent::Device {
        kind: EventKind::Change,
        name: "r1".to_string(),
        before: DeviceSnapshot { quorum: true },
        after: DeviceSnapshot { quorum: false },
    };
    let c = e.on_event(&loss);
    assert_eq!(c, Some(Cmd::UnitStop("svcB".to_string())));
    let c = e.step(true);
    assert_eq!(c, Some(Cmd::UnitStop("svcA".to_string())));
    let c = e.step(true);
    assert_eq!(c, None);
    assert!(e.is_idle());
}
