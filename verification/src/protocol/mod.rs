//! Wire-protocol records for the events and snapshots the sim emits.
//!
//! Event payloads are split by domain: `header` (run-level),
//! `world_events` (planet/species/recognition), `civ_events`
//! (founding/collapse/contact/transmission/cosmology/cohesion/
//! catastrophe/tech), `discovery_events` (relations/measurements/
//! refinement/rivals/mythology), and `snapshot`.

pub mod civ_events;
pub mod discovery_events;
pub mod header;
pub mod snapshot;
pub mod world_events;
