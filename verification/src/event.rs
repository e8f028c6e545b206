//! State-change events and the two watched edge transitions.
//!
//! Events carry a pair of snapshots, taken before and after a change.  The
//! engine is edge-triggered: only the false-to-true transition of
//! `may_promote` on a resource, and the true-to-false transition of
//! `quorum` on a device, cause any action; every other combination,
//! including steady states and the reverse transitions, is a no-op.

use crate::config::{spec_configured, PromoterOpt};
use vstd::prelude::*;

verus! {

/// The kind of a state-change notification.  Only `Exists` and `Change`
/// carry snapshot pairs that matter to this engine.
#[derive(PartialEq, Eq, Structural, Clone, Copy, Debug)]
pub enum EventKind {
    Exists,
    Create,
    Change,
    Destroy,
}

/// Resource-level capability snapshot.
#[derive(PartialEq, Eq, Structural, Clone, Copy, Debug)]
pub struct ResourceSnapshot {
    pub may_promote: bool,
}

/// Device-level capability snapshot.
#[derive(PartialEq, Eq, Structural, Clone, Copy, Debug)]
pub struct DeviceSnapshot {
    pub quorum: bool,
}

/// One state-change event: entity kind, resource name, and the snapshot
/// pair around the change.
pub enum StateEvent {
    Resource { kind: EventKind, name: String, before: ResourceSnapshot, after: ResourceSnapshot },
    Device { kind: EventKind, name: String, before: DeviceSnapshot, after: DeviceSnapshot },
    Other { kind: EventKind, name: String },
}

/// The name an event speaks about.
pub open spec fn spec_event_name(ev: StateEvent) -> Seq<char> {
    match ev {
        StateEvent::Resource { name, .. } => name@,
        StateEvent::Device { name, .. } => name@,
        StateEvent::Other { name, .. } => name@,
    }
}

/// The kind of an event.
pub open spec fn spec_event_kind(ev: StateEvent) -> EventKind {
    match ev {
        StateEvent::Resource { kind, .. } => kind,
        StateEvent::Device { kind, .. } => kind,
        StateEvent::Other { kind, .. } => kind,
    }
}

/// The promotion edge: the resource could not promote before and can
/// promote now.
pub open spec fn spec_promotion_edge(before: ResourceSnapshot, after: ResourceSnapshot) -> bool {
    !before.may_promote && after.may_promote
}

/// The quorum-loss edge: the device had quorum before and lost it now.
pub open spec fn spec_quorum_loss_edge(before: DeviceSnapshot, after: DeviceSnapshot) -> bool {
    before.quorum && !after.quorum
}

/// Decides the promotion edge, as [`spec_promotion_edge`] states.
pub fn promotion_edge(before: &ResourceSnapshot, after: &ResourceSnapshot) -> (r: bool)
    ensures
        r == spec_promotion_edge(*before, *after),
{
    !before.may_promote && after.may_promote
}

/// Decides the quorum-loss edge, as [`spec_quorum_loss_edge`] states.
pub fn quorum_loss_edge(before: &DeviceSnapshot, after: &DeviceSnapshot) -> (r: bool)
    ensures
        r == spec_quorum_loss_edge(*before, *after),
{
    before.quorum && !after.quorum
}

/// The filter predicate the engine relies on: an event is admitted when
/// its resource name is configured and its kind is `Exists` or `Change`.
pub open spec fn spec_admits(cfg: Seq<(Seq<char>, crate::config::ResView)>, ev: StateEvent) -> bool {
    &&& spec_configured(cfg, spec_event_name(ev))
    &&& (spec_event_kind(ev) == EventKind::Exists || spec_event_kind(ev) == EventKind::Change)
}

/// Applies the filter predicate, as [`spec_admits`] states.
pub fn admits(cfg: &PromoterOpt, ev: &StateEvent) -> (r: bool)
    ensures
        r == spec_admits(cfg@, *ev),
{
    let kind = match ev {
        StateEvent::Resource { kind, .. } => *kind,
        StateEvent::Device { kind, .. } => *kind,
        StateEvent::Other { kind, .. } => *kind,
    };
    if !(kind == EventKind::Exists || kind == EventKind::Change) {
        return false;
    }
    let name = match ev {
        StateEvent::Resource { name, .. } => name,
        StateEvent::Device { name, .. } => name,
        StateEvent::Other { name, .. } => name,
    };
    crate::config::lookup(cfg, name).is_some()
}

/// Law: the promotion edge fires exactly on the false-to-true transition
/// of `may_promote`; it does not fire when the flag was already set, stays
/// clear, or is withdrawn.
pub proof fn lemma_promotion_edge_iff(before: ResourceSnapshot, after: ResourceSnapshot)
    ensures
        spec_promotion_edge(before, after) <==> (!before.may_promote && after.may_promote),
        before.may_promote ==> !spec_promotion_edge(before, after),
        !after.may_promote ==> !spec_promotion_edge(before, after),
{
}

/// Law: the quorum-loss edge fires exactly on the true-to-false transition
/// of `quorum`; it does not fire when quorum stays, was already absent, or
/// is regained.
pub proof fn lemma_quorum_loss_edge_iff(before: DeviceSnapshot, after: DeviceSnapshot)
    ensures
        spec_quorum_loss_edge(before, after) <==> (before.quorum && !after.quorum),
        !before.quorum ==> !spec_quorum_loss_edge(before, after),
        after.quorum ==> !spec_quorum_loss_edge(before, after),
{
}

} // verus!
