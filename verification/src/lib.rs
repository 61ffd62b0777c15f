//! Authoritative state-reconciliation core for a multiplayer vehicle game.
//!
//! A player builds a vessel from catalogued elements, the vessel definition is
//! announced to the server, the server spawns an authoritative entity for it,
//! broadcasts the definition to the other clients, and keeps an ownership map
//! from network clients to the entities they control.  Per tick, control input
//! is read locally, gated on change, propagated, and turned into forces.
//!
//! Scalar quantities are fixed-point integers in thousandths, so that every
//! computation here carries an exact contract; the embedding application
//! converts to the engine's floating-point units at its edge.

use vstd::prelude::*;

pub mod actuation;
pub mod catalogue;
pub mod client;
pub mod editor;
pub mod control;
pub mod ownership;
pub mod server;
pub mod spawn;
pub mod table;
pub mod world;
pub mod vessel;

verus! {

/// The typed fatal errors of the library.
#[derive(Debug)]
pub enum VesselError {
    /// A vessel definition referenced an element id absent from the
    /// catalogue: a content error, fatal within one session.
    UnknownElement(String),
    /// No locally controlled vessel entity exists, so there is nothing to
    /// announce to the server.
    NoLocalVessel,
    /// A vessel id names no definition in the asset table.
    UnknownVessel(crate::vessel::VesselId),
}

/// One thousandth steps: the fixed-point unit used for every scalar here.
pub const MILLI: i64 = 1000;

/// Bound on the magnitude of any scalar fed to the physics translation,
/// chosen so that products of two scalars never overflow `i64`.
pub const SCALAR_LIMIT: i64 = 1_000_000_000;

/// Bound on the editor grid's coordinates, so that fixed-point conversion
/// stays far inside `i64`.
pub const GRID_LIMIT: i64 = 1_000_000;

} // verus!
