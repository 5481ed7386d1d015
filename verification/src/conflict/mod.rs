//! Conflict between civs whose claims overlap: per-pair grudges,
//! alliances, the belligerence assessment that decides war and peace,
//! and the skirmish round that resolves a war check.

pub mod grudge;
pub mod alliance;
pub mod war;
pub mod assessment;
