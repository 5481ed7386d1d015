//! The planet and species traits the civilisation logic reads, as plain
//! values: atmosphere, crust, biosphere, magnetosphere, metabolic
//! substrate, star, cognition topology and the tool kinds a civ can
//! unlock.

use crate::arith::{scale, Real};
use crate::discovery::channels::ModalityKind;
use vstd::prelude::*;

verus! {

/// Atmosphere class of a planet.
#[derive(Debug, Clone, Copy, PartialEq, Eq, Structural, Hash)]
pub enum Atmosphere {
    Absent,
    Thin,
    Oxidising,
    Reducing,
    Hazy,
}

/// Dominant crust class.
#[derive(Debug, Clone, Copy, PartialEq, Eq, Structural, Hash)]
pub enum Crust {
    Basaltic,
    Ferrous,
    Hydrocarbon,
    Piezoelectric,
    RareEarth,
}

/// Biosphere richness.
#[derive(Debug, Clone, Copy, PartialEq, Eq, Structural, Hash)]
pub enum BiosphereClass {
    Barren,
    Sparse,
    Lush,
    HyperBiodiverse,
}

/// Strength of the planetary magnetic field.
#[derive(Debug, Clone, Copy, PartialEq, Eq, Structural, Hash)]
pub enum Magnetosphere {
    Absent,
    Weak,
    Strong,
}

/// The solvent life is built on.
#[derive(Debug, Clone, Copy, PartialEq, Eq, Structural, Hash)]
pub enum MetabolicSubstrate {
    Aqueous,
    Ammoniacal,
    Hydrocarbon,
    Silicate,
}

/// How a species' cognition is organised.
#[derive(Debug, Clone, Copy, PartialEq, Eq, Structural, Hash)]
pub enum CognitionTopology {
    Centralized,
    DistributedRedundant,
    Collective,
    Acentric,
}

/// Tools a civilisation can unlock.
#[derive(Debug, Clone, Copy, PartialEq, Eq, Structural, PartialOrd, Ord, Hash)]
pub enum ToolKind {
    ContactWeapon,
    RangedMomentumWeapon,
    SimpleShelter,
    BasicTextiles,
    LocalisedCombustion,
    AnimalSymbiosis,
    MechanicalAdvantage,
    PermanentMasonry,
    HydraulicWorks,
    WatercraftConstruction,
    WindPower,
    MaterialRefining,
    FluidControl,
    PrecisionTimekeeping,
    BiomimeticDesign,
    GeneCultureCoevolution,
    ChemicalSynthesis,
    ChemicalProjectile,
    DistanceImaging,
    MotivePropulsion,
    Mechanisation,
    AnalyticalEngines,
    OrganicSynthesis,
    FieldSensor,
    MagneticSensor,
    UrbanConstruction,
    PowerGeneration,
    EnergyStorage,
    ExperimentApparatus,
    AdvancedMaterials,
    AdvancedMedicine,
    GeneticManipulation,
    CryogenicEngineering,
    BioelectricResonator,
    EcosystemEngineering,
    MetamaterialLattice,
    FieldPropulsionEngine,
}

/// Crust composition fractions.
#[derive(Debug, Clone, Copy, PartialEq, Eq, Structural)]
pub struct CrustalComposition {
    pub hydrocarbon: Real,
    pub piezoelectric: Real,
    pub ferrous: Real,
}

/// What the archetype scoring reads of a planet and its species.
#[derive(Debug, Clone)]
pub struct WorldProfile {
    pub atmosphere: Atmosphere,
    pub crust: Crust,
    pub crustal_composition: CrustalComposition,
    pub magnetosphere: Magnetosphere,
    pub biosphere: BiosphereClass,
    pub biosphere_density: Real,
    pub metabolic_substrate: MetabolicSubstrate,
    /// Stellar flux at the planet, W/m².
    pub stellar_luminosity: Real,
    pub moon_count: u8,
    /// Surface gravity, m/s².
    pub gravity: Real,
    /// The species' sensory modalities.
    pub modalities: Vec<ModalityKind>,
    /// The species' radiation tolerance ceiling.
    pub radiation_max: Real,
    pub cognition_topology: CognitionTopology,
}

impl WorldProfile {
    /// Composition fractions and biosphere density lie in `[0, 1]`.
    pub open spec fn wf(&self) -> bool {
        &&& 0 <= self.crustal_composition.hydrocarbon@ <= scale()
        &&& 0 <= self.crustal_composition.piezoelectric@ <= scale()
        &&& 0 <= self.crustal_composition.ferrous@ <= scale()
        &&& 0 <= self.biosphere_density@ <= scale()
    }
}


/// Stored substances of the physics grid, in storage order.
#[derive(Debug, Clone, Copy, PartialEq, Eq, Structural, PartialOrd, Ord, Hash)]
pub enum Substance {
    Water,
    Ice,
    Vapour,
    Fuel,
    Oxidiser,
    Ash,
    Fossil,
}

/// Storage slot of a substance.
pub open spec fn substance_index(s: Substance) -> nat {
    match s {
        Substance::Water => 0,
        Substance::Ice => 1,
        Substance::Vapour => 2,
        Substance::Fuel => 3,
        Substance::Oxidiser => 4,
        Substance::Ash => 5,
        Substance::Fossil => 6,
    }
}

impl Substance {
    /// Storage slot of this substance.
    pub fn idx(self) -> (i: usize)
        ensures
            i == substance_index(self),
    {
        match self {
            Substance::Water => 0,
            Substance::Ice => 1,
            Substance::Vapour => 2,
            Substance::Fuel => 3,
            Substance::Oxidiser => 4,
            Substance::Ash => 5,
            Substance::Fossil => 6,
        }
    }
}

/// Sensory channels a species perceives the world through.
#[derive(Debug, Clone, Copy, PartialEq, Eq, Structural, PartialOrd, Ord, Hash)]
pub enum ChannelKind {
    VisualLight,
    InfraredThermal,
    AcousticAir,
    AcousticWater,
    ElectricField,
    MagneticSense,
    ChemicalTaste,
    Tactile,
}


/// Spectral class of the host star.
#[derive(Debug, Clone, Copy, PartialEq, Eq, Structural, Hash)]
pub enum SpectralType {
    M,
    K,
    G,
    F,
    A,
}

} // verus!
