//! Catastrophe taxonomy and its stable telemetry tags.

use vstd::prelude::*;

verus! {

/// The five catastrophe kinds.
#[derive(Debug, Clone, Copy, PartialEq, Eq, Structural)]
pub enum CatastropheKind {
    Volcanic,
    Disease,
    Asteroid,
    SolarFlare,
    IceAge,
}

/// Stable tag of a kind for event payloads.
pub open spec fn catastrophe_tag(k: CatastropheKind) -> Seq<char> {
    match k {
        CatastropheKind::Volcanic => "volcanic"@,
        CatastropheKind::Disease => "disease"@,
        CatastropheKind::Asteroid => "asteroid"@,
        CatastropheKind::SolarFlare => "solar_flare"@,
        CatastropheKind::IceAge => "ice_age"@,
    }
}

impl CatastropheKind {
    /// Stable tag for event payloads.
    pub fn tag(self) -> (s: &'static str)
        ensures
            s@ == catastrophe_tag(self),
    {
        match self {
            CatastropheKind::Volcanic => "volcanic",
            CatastropheKind::Disease => "disease",
            CatastropheKind::Asteroid => "asteroid",
            CatastropheKind::SolarFlare => "solar_flare",
            CatastropheKind::IceAge => "ice_age",
        }
    }
}

/// One catastrophe applied this tick: its kind, and the fraction of
/// population lost.
#[derive(Debug, Clone, Copy)]
pub struct CatastropheRecord {
    pub kind: CatastropheKind,
    pub fraction_lost: crate::arith::Real,
}

} // verus!
