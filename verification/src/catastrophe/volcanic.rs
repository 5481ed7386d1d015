//! The volcanic catastrophe's own step: the crust- and area-scaled
//! cooldown gate, the search for an erupting cell, and the eruption
//! itself. What the eruption costs the civ (the tolerance- and
//! tool-weighted loss fraction and its spread over the cells) and the
//! ecosystem drain are settled by the caller from the returned cell.

use crate::arith::{int_bits, Real};
use crate::catastrophe::damage::{off_cooldown, scaled_volcanic_cooldown, volcanic_cooldown_bits, volcanic_cooldown_ok};
use crate::catastrophe::triggers::{erupt_cell, erupts, volcanic_fires};
use crate::discovery::channels::PhysicsView;
use crate::world::Crust;
use vstd::prelude::*;

verus! {

/// When a civ's catastrophes last struck.
#[derive(Debug, Clone, Copy, PartialEq, Eq, Structural)]
pub struct CatastropheClock {
    pub last_volcanic_tick: Option<u64>,
    pub last_disease_tick: Option<u64>,
    pub last_asteroid_tick: Option<u64>,
    pub last_solar_flare_tick: Option<u64>,
    pub last_ice_age_tick: Option<u64>,
    pub last_catastrophe_tick: Option<u64>,
}

/// `new` is `old` after cell `cell` erupted: its fuel burnt to zero and
/// its temperature down 50 K, floored at zero; every other field as it
/// was.
pub open spec fn erupted(old: PhysicsView, new: PhysicsView, cell: int) -> bool {
    &&& new.wf()
    &&& new.fuel@ == old.fuel@.update(cell, Real { bits: 0 })
    &&& new.temperature@ == old.temperature@.update(
        cell,
        Real { bits: (if old.temperature@[cell]@ - int_bits(50) > 0 {
            old.temperature@[cell]@ - int_bits(50)
        } else {
            0
        }) as i64 },
    )
    &&& new.water_depth@ == old.water_depth@
    &&& new.charge@ == old.charge@
    &&& new.elevation@ == old.elevation@
    &&& new.oxidiser@ == old.oxidiser@
    &&& new.vapour@ == old.vapour@
    &&& new.ice@ == old.ice@
    &&& new.fossil@ == old.fossil@
    &&& new.magnetic_magnitude@ == old.magnetic_magnitude@
    &&& new.neighbours@ == old.neighbours@
}

/// Try the volcanic catastrophe this tick. Until the cooldown (200
/// years scaled by the crust and divided by the planet's area factor,
/// at least one tick) has passed since the last eruption, or while no
/// cell erupts, nothing happens and the result is `None`. Otherwise the
/// first erupting cell erupts, both catastrophe clocks read `tick`, and
/// the cell is returned.
pub fn try_volcanic(clock: &mut CatastropheClock, state: &mut PhysicsView, crust: Crust, radius: Real, tick: u64) -> (r:
    Option<usize>)
    requires
        old(state).wf(),
        volcanic_cooldown_ok(crust, radius@),
    ensures
        !off_cooldown(old(clock).last_volcanic_tick, tick, volcanic_cooldown_bits(crust, radius@) as u64) ==> r is None
            && *final(clock) == *old(clock) && *final(state) == *old(state),
        off_cooldown(old(clock).last_volcanic_tick, tick, volcanic_cooldown_bits(crust, radius@) as u64) && (forall|j: int|
            0 <= j < old(state).n_cells() ==> !erupts(*old(state), j)) ==> r is None && *final(clock) == *old(clock)
            && *final(state) == *old(state),
        r matches Some(cell) ==> {
            &&& off_cooldown(old(clock).last_volcanic_tick, tick, volcanic_cooldown_bits(crust, radius@) as u64)
            &&& cell < old(state).n_cells()
            &&& erupts(*old(state), cell as int)
            &&& forall|j: int| 0 <= j < cell ==> !erupts(*old(state), j)
            &&& erupted(*old(state), *final(state), cell as int)
            &&& *final(clock) == (CatastropheClock {
                last_volcanic_tick: Some(tick),
                last_catastrophe_tick: Some(tick),
                ..*old(clock)
            })
        },
        off_cooldown(old(clock).last_volcanic_tick, tick, volcanic_cooldown_bits(crust, radius@) as u64) && (exists|j: int|
            0 <= j < old(state).n_cells() && erupts(*old(state), j)) ==> r is Some,
{
    let cooldown = scaled_volcanic_cooldown(crust, radius);
    let ready = match clock.last_volcanic_tick {
        None => true,
        Some(t) => tick.saturating_sub(t) >= cooldown,
    };
    if !ready {
        return None;
    }
    match volcanic_fires(state) {
        None => None,
        Some(cell) => {
            erupt_cell(state, cell);
            clock.last_volcanic_tick = Some(tick);
            clock.last_catastrophe_tick = Some(tick);
            Some(cell)
        },
    }
}

} // verus!
