//! Deterministic civilisation-history simulation core: Q32.32 real
//! arithmetic, cultural drift, catastrophes, conflict, economy,
//! demography, discovery bookkeeping, and the wire-protocol records.

pub mod arith;
pub mod transcendental;
pub mod protocol;
pub mod forms;
pub mod discovery;
pub mod cosmology;
pub mod culture_hooks;
pub mod world;
pub mod archetype;
pub mod text;
pub mod catastrophe;
pub mod apparatus;
pub mod religion;
pub mod cohort;
pub mod economy;
pub mod conflict;
pub mod demographics;
pub mod drift;
pub mod capacity;
pub mod cli;
pub mod planet_builder;
