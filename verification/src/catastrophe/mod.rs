//! Catastrophes: the five kinds, and the cell-targeting helpers they
//! share.

pub mod kind;
pub mod cells;
pub mod factors;
pub mod triggers;
pub mod damage;
pub mod volcanic;
pub mod spread;
pub mod apply;
