//! Verified core of a plugin package manager.
//!
//! The library covers the three subsystems with real logic: the sync
//! state machine that brings a working copy to a requested reference,
//! the task-outcome classification used by the concurrent executor, and
//! the reconciliation of a declared target package set with persisted
//! state. All I/O (git transport, filesystem, YAML persistence) is left
//! to the surrounding application, which drives these decision
//! procedures with plain values.

pub mod error;
pub mod executor;
pub mod package;
pub mod reconcile;
pub mod reference;
pub mod strutil;
pub mod sync;
