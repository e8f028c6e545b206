//! Promoter: an edge-triggered remediation engine for replicated storage
//! resources.
//!
//! The library watches pairs of state snapshots attached to events, detects
//! the promotion and quorum-loss edges, and turns them into ordered
//! service-lifecycle command sequences with fail-fast execution, a
//! compensating stop on start failure, and an unbounded-retry fallback when
//! stopping fails.  All decision logic is pure: commands are described as
//! values and their success or failure enters as data, so a driver that
//! actually spawns processes can be layered on top without touching the
//! verified core.

pub mod action;
pub mod config;
pub mod engine;
pub mod event;
pub mod laws;
pub mod runner;
