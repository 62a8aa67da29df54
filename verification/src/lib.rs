//! A client-held, optimistically synchronized list of todo records.
//!
//! The registry owns the ordered collection of record handles; the dispatcher
//! tracks in-flight calls to the remote store; the reconciliation step applies
//! settled results to the registry in arrival order; and the derived module
//! projects a read-only, text-filtered sequence out of the registry.

pub mod item;
pub mod registry;
pub mod settle;
pub mod dispatch;
pub mod engine;
pub mod derived;
