//! Real-time entity-state synchronization core for a multiplayer world
//! service.
//!
//! The crate models the canonical state of a world (entities with their
//! position, rotation and spatial-chunk rows), an append-only ingest buffer
//! for incoming movement updates, periodic reconciliation jobs that apply the
//! latest buffered update per entity, a derived chunk index for proximity
//! queries, and the connection lifecycle of clients (guest, online, offline)
//! under a fire-and-forget authentication handshake.

use vstd::prelude::*;

pub mod buffer;
pub mod chunks;
pub mod client_setup;
pub mod config;
pub mod entity;
pub mod ids;
pub mod lifecycle;
pub mod reconcile;
pub mod scheduler;
pub mod store;
pub mod world;

verus! {

/// Errors surfaced by the synchronization core.
#[derive(Clone, Copy, Debug, PartialEq, Eq, Structural)]
pub enum WorldError {
    /// A submitted update referenced an entity that does not exist.
    EntityNotFound,
    /// A tick-only operation was invoked by someone other than the scheduler.
    Unauthorized,
}

} // verus!
