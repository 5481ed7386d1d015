//! Quantitative discovery pipeline: channel selectors, the relation
//! and measurement records, the per-civ `Hypothesizer` state machine,
//! and the emergent-template and emergent-tool scans.

pub mod channels;
pub mod types;
pub mod events;
pub mod hypothesizer;
pub mod lifecycle;
pub mod tool_emergence;
pub mod emergence;
