//! The interactive planet builder behind `--config`: twelve numbered
//! menus, one per planet-level scalar, where option 0 (or an empty line)
//! keeps the seed's value. Some menus end in a "custom" option that asks
//! for an exact integer within bounds. After each accepted answer a short
//! note may point out what the choice implies.
//!
//! The builder is a state machine: the caller shows the current question,
//! reads a line and hands it to [`PlanetBuilder::answer`], which says
//! whether to ask again, ask for an exact integer, or go on.

use crate::cli::{digits_value, parse_digits, parse_unsigned, parse_number};
use crate::text::{decimal, decimal_string};
use crate::world::{Atmosphere, BiosphereClass, Crust, Magnetosphere, MetabolicSubstrate, SpectralType};
use vstd::prelude::*;
use vstd::string::{StrSliceExecFns, StringExecFns};

verus! {

/// The planet-level values the user chose; `None` keeps the seed's.
#[derive(Debug, Clone, Copy, PartialEq, Eq, Structural)]
pub struct PlanetOverrides {
    pub substrate: Option<MetabolicSubstrate>,
    pub atmosphere: Option<Atmosphere>,
    pub mean_temperature_k: Option<i64>,
    pub gravity_g_x100: Option<i64>,
    pub spectral_type: Option<SpectralType>,
    pub axial_tilt_deg: Option<i64>,
    pub day_length_hours: Option<i64>,
    pub orbital_period_months: Option<u32>,
    pub moon_count: Option<u8>,
    pub magnetosphere: Option<Magnetosphere>,
    pub crust: Option<Crust>,
    pub biosphere: Option<BiosphereClass>,
}

/// No override at all: every value comes from the seed.
pub open spec fn no_overrides() -> PlanetOverrides {
    PlanetOverrides {
        substrate: None,
        atmosphere: None,
        mean_temperature_k: None,
        gravity_g_x100: None,
        spectral_type: None,
        axial_tilt_deg: None,
        day_length_hours: None,
        orbital_period_months: None,
        moon_count: None,
        magnetosphere: None,
        crust: None,
        biosphere: None,
    }
}

impl Default for PlanetOverrides {
    fn default() -> (o: Self)
        ensures
            o == no_overrides(),
    {
        PlanetOverrides {
            substrate: None,
            atmosphere: None,
            mean_temperature_k: None,
            gravity_g_x100: None,
            spectral_type: None,
            axial_tilt_deg: None,
            day_length_hours: None,
            orbital_period_months: None,
            moon_count: None,
            magnetosphere: None,
            crust: None,
            biosphere: None,
        }
    }
}

/// The questions, in the order they are asked.
#[derive(Debug, Clone, Copy, PartialEq, Eq, Structural)]
pub enum Question {
    Substrate,
    Atmosphere,
    MeanTemperature,
    Gravity,
    SpectralType,
    AxialTilt,
    DayLength,
    YearLength,
    MoonCount,
    Magnetosphere,
    Crust,
    Biosphere,
}

/// The number of questions.
pub const QUESTION_COUNT: usize = 12;

/// The question asked at position `i` (counting from 0).
pub open spec fn question_at(i: int) -> Question {
    if i == 0 {
        Question::Substrate
    } else if i == 1 {
        Question::Atmosphere
    } else if i == 2 {
        Question::MeanTemperature
    } else if i == 3 {
        Question::Gravity
    } else if i == 4 {
        Question::SpectralType
    } else if i == 5 {
        Question::AxialTilt
    } else if i == 6 {
        Question::DayLength
    } else if i == 7 {
        Question::YearLength
    } else if i == 8 {
        Question::MoonCount
    } else if i == 9 {
        Question::Magnetosphere
    } else if i == 10 {
        Question::Crust
    } else {
        Question::Biosphere
    }
}

/// The highest option number of a question's menu.
pub open spec fn menu_max(q: Question) -> nat {
    match q {
        Question::Substrate => 4,
        Question::Atmosphere => 5,
        Question::MeanTemperature => 9,
        Question::Gravity => 7,
        Question::SpectralType => 5,
        Question::AxialTilt => 5,
        Question::DayLength => 5,
        Question::YearLength => 5,
        Question::MoonCount => 5,
        Question::Magnetosphere => 3,
        Question::Crust => 5,
        Question::Biosphere => 3,
    }
}

/// The bounds of the exact integer that an option asks for, where it is
/// a menu's "custom" option.
pub open spec fn custom_bounds(q: Question, pick: nat) -> Option<(i64, i64)> {
    match q {
        Question::MeanTemperature => if pick == 9 { Some((1i64, 5000i64)) } else { None },
        Question::Gravity => if pick == 7 { Some((1i64, 2000i64)) } else { None },
        Question::AxialTilt => if pick == 5 { Some((0i64, 90i64)) } else { None },
        Question::DayLength => if pick == 5 { Some((1i64, 10000i64)) } else { None },
        _ => None,
    }
}

/// The overrides after option `pick` (not a custom one) of question `q`.
pub open spec fn with_pick(o: PlanetOverrides, q: Question, pick: nat) -> PlanetOverrides {
    match q {
        Question::Substrate => PlanetOverrides {
            substrate: if pick == 1 {
                Some(MetabolicSubstrate::Aqueous)
            } else if pick == 2 {
                Some(MetabolicSubstrate::Ammoniacal)
            } else if pick == 3 {
                Some(MetabolicSubstrate::Hydrocarbon)
            } else if pick == 4 {
                Some(MetabolicSubstrate::Silicate)
            } else {
                None
            },
            ..o
        },
        Question::Atmosphere => PlanetOverrides {
            atmosphere: if pick == 1 {
                Some(Atmosphere::Absent)
            } else if pick == 2 {
                Some(Atmosphere::Thin)
            } else if pick == 3 {
                Some(Atmosphere::Oxidising)
            } else if pick == 4 {
                Some(Atmosphere::Reducing)
            } else if pick == 5 {
                Some(Atmosphere::Hazy)
            } else {
                None
            },
            ..o
        },
        Question::MeanTemperature => PlanetOverrides {
            mean_temperature_k: if pick == 1 {
                Some(40i64)
            } else if pick == 2 {
                Some(94i64)
            } else if pick == 3 {
                Some(210i64)
            } else if pick == 4 {
                Some(288i64)
            } else if pick == 5 {
                Some(320i64)
            } else if pick == 6 {
                Some(370i64)
            } else if pick == 7 {
                Some(735i64)
            } else if pick == 8 {
                Some(2500i64)
            } else {
                None
            },
            ..o
        },
        Question::Gravity => PlanetOverrides {
            gravity_g_x100: if pick == 1 {
                Some(17i64)
            } else if pick == 2 {
                Some(38i64)
            } else if pick == 3 {
                Some(100i64)
            } else if pick == 4 {
                Some(150i64)
            } else if pick == 5 {
                Some(250i64)
            } else if pick == 6 {
                Some(500i64)
            } else {
                None
            },
            ..o
        },
        Question::SpectralType => PlanetOverrides {
            spectral_type: if pick == 1 {
                Some(SpectralType::M)
            } else if pick == 2 {
                Some(SpectralType::K)
            } else if pick == 3 {
                Some(SpectralType::G)
            } else if pick == 4 {
                Some(SpectralType::F)
            } else if pick == 5 {
                Some(SpectralType::A)
            } else {
                None
            },
            ..o
        },
        Question::AxialTilt => PlanetOverrides {
            axial_tilt_deg: if pick == 1 {
                Some(0i64)
            } else if pick == 2 {
                Some(23i64)
            } else if pick == 3 {
                Some(45i64)
            } else if pick == 4 {
                Some(90i64)
            } else {
                None
            },
            ..o
        },
        Question::DayLength => PlanetOverrides {
            day_length_hours: if pick == 1 {
                Some(6i64)
            } else if pick == 2 {
                Some(24i64)
            } else if pick == 3 {
                Some(100i64)
            } else if pick == 4 {
                Some(2800i64)
            } else {
                None
            },
            ..o
        },
        Question::YearLength => PlanetOverrides {
            orbital_period_months: if pick == 1 {
                Some(8u32)
            } else if pick == 2 {
                Some(10u32)
            } else if pick == 3 {
                Some(12u32)
            } else if pick == 4 {
                Some(14u32)
            } else if pick == 5 {
                Some(16u32)
            } else {
                None
            },
            ..o
        },
        Question::MoonCount => PlanetOverrides {
            moon_count: if 1 <= pick && pick <= 5 { Some((pick - 1) as u8) } else { None },
            ..o
        },
        Question::Magnetosphere => PlanetOverrides {
            magnetosphere: if pick == 1 {
                Some(Magnetosphere::Absent)
            } else if pick == 2 {
                Some(Magnetosphere::Weak)
            } else if pick == 3 {
                Some(Magnetosphere::Strong)
            } else {
                None
            },
            ..o
        },
        Question::Crust => PlanetOverrides {
            crust: if pick == 1 {
                Some(Crust::Basaltic)
            } else if pick == 2 {
                Some(Crust::Hydrocarbon)
            } else if pick == 3 {
                Some(Crust::Piezoelectric)
            } else if pick == 4 {
                Some(Crust::Ferrous)
            } else if pick == 5 {
                Some(Crust::RareEarth)
            } else {
                None
            },
            ..o
        },
        Question::Biosphere => PlanetOverrides {
            biosphere: if pick == 1 {
                Some(BiosphereClass::Sparse)
            } else if pick == 2 {
                Some(BiosphereClass::Lush)
            } else if pick == 3 {
                Some(BiosphereClass::HyperBiodiverse)
            } else {
                None
            },
            ..o
        },
    }
}

/// The overrides after the exact integer `v` was entered for question `q`.
pub open spec fn with_custom(o: PlanetOverrides, q: Question, v: i64) -> PlanetOverrides {
    match q {
        Question::MeanTemperature => PlanetOverrides { mean_temperature_k: Some(v), ..o },
        Question::Gravity => PlanetOverrides { gravity_g_x100: Some(v), ..o },
        Question::AxialTilt => PlanetOverrides { axial_tilt_deg: Some(v), ..o },
        Question::DayLength => PlanetOverrides { day_length_hours: Some(v), ..o },
        _ => o,
    }
}


/// What an accepted answer implies, shown before the next question.
#[derive(Debug, Clone, Copy, PartialEq, Eq, Structural)]
pub enum Note {
    /// The temperature band in which the chosen solvent is liquid.
    SolventWindow(MetabolicSubstrate),
    /// A vacuum starves a biosphere that is not silicate-based.
    VacuumStarves,
    /// The chosen temperature lies outside the substrate's liquid window.
    OutsideLiquidWindow { kelvin: i64, substrate: MetabolicSubstrate, low: i64, high: i64 },
    /// Above three g most macroscopic life would be flattened.
    CrushingGravity,
    /// M dwarfs flare hard.
    FlaringDwarf,
}

/// The temperatures (Kelvin) between which a substrate's solvent is liquid.
pub open spec fn liquid_window(s: MetabolicSubstrate) -> (i64, i64) {
    match s {
        MetabolicSubstrate::Aqueous => (273i64, 373i64),
        MetabolicSubstrate::Ammoniacal => (195i64, 240i64),
        MetabolicSubstrate::Hydrocarbon => (91i64, 112i64),
        MetabolicSubstrate::Silicate => (1700i64, 3500i64),
    }
}

/// The note shown after question `q` was answered, `o` being the
/// overrides after the answer.
pub open spec fn note_after(o: PlanetOverrides, q: Question) -> Option<Note> {
    match q {
        Question::Substrate => match o.substrate {
            Some(s) => Some(Note::SolventWindow(s)),
            None => None,
        },
        Question::Atmosphere => if o.atmosphere == Some(Atmosphere::Absent) && (o.substrate
            == Some(MetabolicSubstrate::Aqueous) || o.substrate == Some(MetabolicSubstrate::Ammoniacal)
            || o.substrate == Some(MetabolicSubstrate::Hydrocarbon)) {
            Some(Note::VacuumStarves)
        } else {
            None
        },
        Question::MeanTemperature => match (o.mean_temperature_k, o.substrate) {
            (Some(t), Some(s)) => {
                let (lo, hi) = liquid_window(s);
                if t < lo || t > hi {
                    Some(Note::OutsideLiquidWindow { kelvin: t, substrate: s, low: lo, high: hi })
                } else {
                    None
                }
            },
            _ => None,
        },
        Question::Gravity => match o.gravity_g_x100 {
            Some(g) => if g > 300 { Some(Note::CrushingGravity) } else { None },
            None => None,
        },
        Question::SpectralType => if o.spectral_type == Some(SpectralType::M) {
            Some(Note::FlaringDwarf)
        } else {
            None
        },
        _ => None,
    }
}

/// Whether `c` is white space as `char::is_whitespace` says (the Unicode
/// `White_Space` property).
pub open spec fn is_white(c: char) -> bool {
    ('\u{9}' <= c && c <= '\u{d}') || c == ' ' || c == '\u{85}' || c == '\u{a0}' || c == '\u{1680}'
        || ('\u{2000}' <= c && c <= '\u{200a}') || c == '\u{2028}' || c == '\u{2029}'
        || c == '\u{202f}' || c == '\u{205f}' || c == '\u{3000}'
}

/// `s` without its leading white space.
pub open spec fn trim_front(s: Seq<char>) -> Seq<char>
    decreases s.len(),
{
    if s.len() > 0 && is_white(s[0]) {
        trim_front(s.drop_first())
    } else {
        s
    }
}

/// `s` without its trailing white space.
pub open spec fn trim_back(s: Seq<char>) -> Seq<char>
    decreases s.len(),
{
    if s.len() > 0 && is_white(s.last()) {
        trim_back(s.drop_last())
    } else {
        s
    }
}

/// `s` without white space at either end, as `str::trim` gives it.
pub open spec fn trimmed(s: Seq<char>) -> Seq<char> {
    trim_back(trim_front(s))
}

/// The menu option a line picks: an empty line picks 0; otherwise the
/// trimmed line must read as a `u32` no greater than `max`.
pub open spec fn choice_of(line: Seq<char>, max: nat) -> Option<nat> {
    let t = trimmed(line);
    if t.len() == 0 {
        Some(0)
    } else {
        match parse_unsigned(t, u32::MAX as nat) {
            Some(n) => if n <= max { Some(n) } else { None },
            None => None,
        }
    }
}

/// The integer a line gives: the trimmed line must read as an `i64`
/// (optional sign, then digits) between `lo` and `hi`.
pub open spec fn integer_of(line: Seq<char>, lo: int, hi: int) -> Option<int> {
    let t = trimmed(line);
    let neg = t.len() > 0 && t[0] == '-';
    let body = if t.len() > 0 && (t[0] == '-' || t[0] == '+') { t.subrange(1, t.len() as int) } else { t };
    match digits_value(body) {
        Some(d) => {
            let v: int = if neg { -d } else { d as int };
            if lo <= v && v <= hi { Some(v) } else { None }
        },
        None => None,
    }
}

/// Whether `c` is white space.
fn white(c: char) -> (b: bool)
    ensures
        b == is_white(c),
{
    ('\u{9}' <= c && c <= '\u{d}') || c == ' ' || c == '\u{85}' || c == '\u{a0}' || c == '\u{1680}'
        || ('\u{2000}' <= c && c <= '\u{200a}') || c == '\u{2028}' || c == '\u{2029}'
        || c == '\u{202f}' || c == '\u{205f}' || c == '\u{3000}'
}

/// The line without white space at either end.
fn trim(line: &str) -> (t: &str)
    ensures
        t@ == trimmed(line@),
{
    let len = line.unicode_len();
    let mut start: usize = 0;
    assert(line@.subrange(0, len as int) =~= line@);
    while start < len && white(line.get_char(start))
        invariant
            start <= len,
            len == line@.len(),
            trim_front(line@) == trim_front(line@.subrange(start as int, len as int)),
        decreases len - start,
    {
        proof {
            let sub = line@.subrange(start as int, len as int);
            assert(sub.drop_first() =~= line@.subrange(start + 1, len as int));
        }
        start += 1;
    }
    let ghost f = line@.subrange(start as int, len as int);
    assert(trim_front(line@) == f);
    let mut end: usize = len;
    while end > start && white(line.get_char(end - 1))
        invariant
            start <= end <= len,
            len == line@.len(),
            f == line@.subrange(start as int, len as int),
            trim_back(f) == trim_back(line@.subrange(start as int, end as int)),
        decreases end - start,
    {
        proof {
            let sub = line@.subrange(start as int, end as int);
            assert(sub.drop_last() =~= line@.subrange(start as int, end - 1));
        }
        end -= 1;
    }
    let t = line.substring_char(start, end);
    assert(trim_back(f) == t@);
    t
}

/// The menu option a line picks, if it is one of `0..=max`.
pub fn read_choice(line: &str, max: u32) -> (r: Option<u32>)
    ensures
        match choice_of(line@, max as nat) {
            Some(n) => r == Some(n as u32),
            None => r is None,
        },
{
    let t = trim(line);
    if t.unicode_len() == 0 {
        return Some(0);
    }
    match parse_number(t, u32::MAX as u64) {
        Some(n) => if n <= max as u64 { Some(n as u32) } else { None },
        None => None,
    }
}

/// The integer a line gives, if it lies between `lo` and `hi`.
pub fn read_integer(line: &str, lo: i64, hi: i64) -> (r: Option<i64>)
    ensures
        match integer_of(line@, lo as int, hi as int) {
            Some(v) => r == Some(v as i64),
            None => r is None,
        },
{
    let t = trim(line);
    let len = t.unicode_len();
    if len == 0 {
        proof {
            assert(digits_value(t@) is None);
        }
        return None;
    }
    let first = t.get_char(0);
    let neg = first == '-';
    let start: usize = if first == '-' || first == '+' { 1 } else { 0 };
    proof {
        if start == 0 {
            assert(t@.subrange(0, t@.len() as int) =~= t@);
        }
    }
    match parse_digits(t, start, u64::MAX) {
        Some(d) => {
            let v: i128 = if neg { -(d as i128) } else { d as i128 };
            if lo as i128 <= v && v <= hi as i128 {
                Some(v as i64)
            } else {
                None
            }
        },
        None => None,
    }
}


/// The bounds of the exact integer that question `q`'s custom option asks
/// for, where the question has one.
pub open spec fn integer_bounds(q: Question) -> Option<(i64, i64)> {
    match q {
        Question::MeanTemperature => Some((1i64, 5000i64)),
        Question::Gravity => Some((1i64, 2000i64)),
        Question::AxialTilt => Some((0i64, 90i64)),
        Question::DayLength => Some((1i64, 10000i64)),
        _ => None,
    }
}

/// What the caller does after handing a line to the builder.
#[derive(Debug, Clone, Copy, PartialEq, Eq, Structural)]
pub enum Reply {
    /// The line picked no option of the menu: ask the same question again.
    Retry,
    /// The option picked asks for an exact integer between `low` and `high`.
    AskInteger { low: i64, high: i64 },
    /// The line gave no integer between `low` and `high`: ask for it again.
    RetryInteger { low: i64, high: i64 },
    /// The answer was taken: show the note, if any, and go on.
    Accepted(Option<Note>),
}

/// The builder's state: the overrides so far, how many questions have
/// been answered, and whether the current question waits for an exact
/// integer.
#[derive(Debug, Clone, Copy, PartialEq, Eq, Structural)]
pub struct PlanetBuilder {
    pub overrides: PlanetOverrides,
    pub answered: usize,
    pub awaiting_integer: bool,
}

impl PlanetBuilder {
    /// Well-formed: at most every question answered, and an exact integer
    /// awaited only for a question that has a custom option.
    pub open spec fn wf(&self) -> bool {
        &&& self.answered <= 12
        &&& self.awaiting_integer ==> self.answered < 12 && integer_bounds(question_at(
            self.answered as int,
        )) is Some
    }
}

/// What one line does to the builder, and the reply.
pub open spec fn answer_step(b: PlanetBuilder, line: Seq<char>) -> (PlanetBuilder, Reply) {
    let q = question_at(b.answered as int);
    if !b.awaiting_integer {
        match choice_of(line, menu_max(q)) {
            None => (b, Reply::Retry),
            Some(p) => match custom_bounds(q, p) {
                Some((lo, hi)) => (
                    PlanetBuilder { awaiting_integer: true, ..b },
                    Reply::AskInteger { low: lo, high: hi },
                ),
                None => {
                    let o = with_pick(b.overrides, q, p);
                    (
                        PlanetBuilder { overrides: o, answered: (b.answered + 1) as usize, awaiting_integer: false },
                        Reply::Accepted(note_after(o, q)),
                    )
                },
            },
        }
    } else {
        let (lo, hi) = integer_bounds(q)->0;
        match integer_of(line, lo as int, hi as int) {
            None => (b, Reply::RetryInteger { low: lo, high: hi }),
            Some(v) => {
                let o = with_custom(b.overrides, q, v as i64);
                (
                    PlanetBuilder { overrides: o, answered: (b.answered + 1) as usize, awaiting_integer: false },
                    Reply::Accepted(note_after(o, q)),
                )
            },
        }
    }
}

/// The question at position `i`.
fn question_of(i: usize) -> (q: Question)
    requires
        i < 12,
    ensures
        q == question_at(i as int),
{
    if i == 0 {
        Question::Substrate
    } else if i == 1 {
        Question::Atmosphere
    } else if i == 2 {
        Question::MeanTemperature
    } else if i == 3 {
        Question::Gravity
    } else if i == 4 {
        Question::SpectralType
    } else if i == 5 {
        Question::AxialTilt
    } else if i == 6 {
        Question::DayLength
    } else if i == 7 {
        Question::YearLength
    } else if i == 8 {
        Question::MoonCount
    } else if i == 9 {
        Question::Magnetosphere
    } else if i == 10 {
        Question::Crust
    } else {
        Question::Biosphere
    }
}

impl Question {
    /// The highest option number of the question's menu.
    pub fn menu_max(&self) -> (m: u32)
        ensures
            m == menu_max(*self),
    {
        match self {
            Question::Substrate => 4,
            Question::Atmosphere => 5,
            Question::MeanTemperature => 9,
            Question::Gravity => 7,
            Question::SpectralType => 5,
            Question::AxialTilt => 5,
            Question::DayLength => 5,
            Question::YearLength => 5,
            Question::MoonCount => 5,
            Question::Magnetosphere => 3,
            Question::Crust => 5,
            Question::Biosphere => 3,
        }
    }

    /// The bounds of the exact integer that the question's custom option
    /// asks for, where it has one.
    pub fn integer_bounds(&self) -> (r: Option<(i64, i64)>)
        ensures
            r == integer_bounds(*self),
    {
        match self {
            Question::MeanTemperature => Some((1, 5000)),
            Question::Gravity => Some((1, 2000)),
            Question::AxialTilt => Some((0, 90)),
            Question::DayLength => Some((1, 10000)),
            _ => None,
        }
    }

    /// The bounds of the exact integer that option `pick` asks for, where
    /// it is the custom option.
    pub fn custom_bounds(&self, pick: u32) -> (r: Option<(i64, i64)>)
        ensures
            r == custom_bounds(*self, pick as nat),
    {
        match self {
            Question::MeanTemperature => if pick == 9 { Some((1, 5000)) } else { None },
            Question::Gravity => if pick == 7 { Some((1, 2000)) } else { None },
            Question::AxialTilt => if pick == 5 { Some((0, 90)) } else { None },
            Question::DayLength => if pick == 5 { Some((1, 10000)) } else { None },
            _ => None,
        }
    }
}


/// The overrides after option `pick` (not a custom one) of question `q`.
fn apply_pick(o: PlanetOverrides, q: Question, pick: u32) -> (r: PlanetOverrides)
    ensures
        r == with_pick(o, q, pick as nat),
{
    let mut r = o;
    match q {
        Question::Substrate => {
            r.substrate = if pick == 1 {
                Some(MetabolicSubstrate::Aqueous)
            } else if pick == 2 {
                Some(MetabolicSubstrate::Ammoniacal)
            } else if pick == 3 {
                Some(MetabolicSubstrate::Hydrocarbon)
            } else if pick == 4 {
                Some(MetabolicSubstrate::Silicate)
            } else {
                None
            };
        },
        Question::Atmosphere => {
            r.atmosphere = if pick == 1 {
                Some(Atmosphere::Absent)
            } else if pick == 2 {
                Some(Atmosphere::Thin)
            } else if pick == 3 {
                Some(Atmosphere::Oxidising)
            } else if pick == 4 {
                Some(Atmosphere::Reducing)
            } else if pick == 5 {
                Some(Atmosphere::Hazy)
            } else {
                None
            };
        },
        Question::MeanTemperature => {
            r.mean_temperature_k = if pick == 1 {
                Some(40)
            } else if pick == 2 {
                Some(94)
            } else if pick == 3 {
                Some(210)
            } else if pick == 4 {
                Some(288)
            } else if pick == 5 {
                Some(320)
            } else if pick == 6 {
                Some(370)
            } else if pick == 7 {
                Some(735)
            } else if pick == 8 {
                Some(2500)
            } else {
                None
            };
        },
        Question::Gravity => {
            r.gravity_g_x100 = if pick == 1 {
                Some(17)
            } else if pick == 2 {
                Some(38)
            } else if pick == 3 {
                Some(100)
            } else if pick == 4 {
                Some(150)
            } else if pick == 5 {
                Some(250)
            } else if pick == 6 {
                Some(500)
            } else {
                None
            };
        },
        Question::SpectralType => {
            r.spectral_type = if pick == 1 {
                Some(SpectralType::M)
            } else if pick == 2 {
                Some(SpectralType::K)
            } else if pick == 3 {
                Some(SpectralType::G)
            } else if pick == 4 {
                Some(SpectralType::F)
            } else if pick == 5 {
                Some(SpectralType::A)
            } else {
                None
            };
        },
        Question::AxialTilt => {
            r.axial_tilt_deg = if pick == 1 {
                Some(0)
            } else if pick == 2 {
                Some(23)
            } else if pick == 3 {
                Some(45)
            } else if pick == 4 {
                Some(90)
            } else {
                None
            };
        },
        Question::DayLength => {
            r.day_length_hours = if pick == 1 {
                Some(6)
            } else if pick == 2 {
                Some(24)
            } else if pick == 3 {
                Some(100)
            } else if pick == 4 {
                Some(2800)
            } else {
                None
            };
        },
        Question::YearLength => {
            r.orbital_period_months = if pick == 1 {
                Some(8)
            } else if pick == 2 {
                Some(10)
            } else if pick == 3 {
                Some(12)
            } else if pick == 4 {
                Some(14)
            } else if pick == 5 {
                Some(16)
            } else {
                None
            };
        },
        Question::MoonCount => {
            r.moon_count = if 1 <= pick && pick <= 5 { Some((pick - 1) as u8) } else { None };
        },
        Question::Magnetosphere => {
            r.magnetosphere = if pick == 1 {
                Some(Magnetosphere::Absent)
            } else if pick == 2 {
                Some(Magnetosphere::Weak)
            } else if pick == 3 {
                Some(Magnetosphere::Strong)
            } else {
                None
            };
        },
        Question::Crust => {
            r.crust = if pick == 1 {
                Some(Crust::Basaltic)
            } else if pick == 2 {
                Some(Crust::Hydrocarbon)
            } else if pick == 3 {
                Some(Crust::Piezoelectric)
            } else if pick == 4 {
                Some(Crust::Ferrous)
            } else if pick == 5 {
                Some(Crust::RareEarth)
            } else {
                None
            };
        },
        Question::Biosphere => {
            r.biosphere = if pick == 1 {
                Some(BiosphereClass::Sparse)
            } else if pick == 2 {
                Some(BiosphereClass::Lush)
            } else if pick == 3 {
                Some(BiosphereClass::HyperBiodiverse)
            } else {
                None
            };
        },
    }
    r
}

/// The overrides after the exact integer `v` was entered for question `q`.
fn apply_custom(o: PlanetOverrides, q: Question, v: i64) -> (r: PlanetOverrides)
    ensures
        r == with_custom(o, q, v),
{
    let mut r = o;
    match q {
        Question::MeanTemperature => {
            r.mean_temperature_k = Some(v);
        },
        Question::Gravity => {
            r.gravity_g_x100 = Some(v);
        },
        Question::AxialTilt => {
            r.axial_tilt_deg = Some(v);
        },
        Question::DayLength => {
            r.day_length_hours = Some(v);
        },
        _ => {},
    }
    r
}

/// The temperatures (Kelvin) between which a substrate's solvent is liquid.
pub fn liquid_window_of(s: MetabolicSubstrate) -> (r: (i64, i64))
    ensures
        r == liquid_window(s),
{
    match s {
        MetabolicSubstrate::Aqueous => (273, 373),
        MetabolicSubstrate::Ammoniacal => (195, 240),
        MetabolicSubstrate::Hydrocarbon => (91, 112),
        MetabolicSubstrate::Silicate => (1700, 3500),
    }
}

/// The note shown after question `q` was answered, `o` being the
/// overrides after the answer.
pub fn note_for(o: &PlanetOverrides, q: Question) -> (r: Option<Note>)
    ensures
        r == note_after(*o, q),
{
    match q {
        Question::Substrate => match o.substrate {
            Some(s) => Some(Note::SolventWindow(s)),
            None => None,
        },
        Question::Atmosphere => {
            let vacuum = match o.atmosphere {
                Some(Atmosphere::Absent) => true,
                _ => false,
            };
            let liquid = match o.substrate {
                Some(MetabolicSubstrate::Aqueous) => true,
                Some(MetabolicSubstrate::Ammoniacal) => true,
                Some(MetabolicSubstrate::Hydrocarbon) => true,
                _ => false,
            };
            if vacuum && liquid {
                Some(Note::VacuumStarves)
            } else {
                None
            }
        },
        Question::MeanTemperature => match (o.mean_temperature_k, o.substrate) {
            (Some(t), Some(s)) => {
                let (lo, hi) = liquid_window_of(s);
                if t < lo || t > hi {
                    Some(Note::OutsideLiquidWindow { kelvin: t, substrate: s, low: lo, high: hi })
                } else {
                    None
                }
            },
            _ => None,
        },
        Question::Gravity => match o.gravity_g_x100 {
            Some(g) => if g > 300 { Some(Note::CrushingGravity) } else { None },
            None => None,
        },
        Question::SpectralType => match o.spectral_type {
            Some(SpectralType::M) => Some(Note::FlaringDwarf),
            _ => None,
        },
        _ => None,
    }
}

impl PlanetBuilder {
    /// A builder before the first question, with no overrides.
    pub fn new() -> (b: Self)
        ensures
            b.wf(),
            b.overrides == no_overrides(),
            b.answered == 0,
            !b.awaiting_integer,
    {
        PlanetBuilder { overrides: PlanetOverrides::default(), answered: 0, awaiting_integer: false }
    }

    /// The question to ask now, or `None` once every one was answered.
    pub fn question(&self) -> (q: Option<Question>)
        requires
            self.wf(),
        ensures
            q == (if self.answered < 12 { Some(question_at(self.answered as int)) } else { None }),
    {
        if self.answered < QUESTION_COUNT {
            Some(question_of(self.answered))
        } else {
            None
        }
    }

    /// Hand the builder the line read for the current question.
    pub fn answer(&mut self, line: &str) -> (r: Reply)
        requires
            old(self).wf(),
            old(self).answered < 12,
        ensures
            final(self).wf(),
            (*final(self), r) == answer_step(*old(self), line@),
    {
        let q = question_of(self.answered);
        if !self.awaiting_integer {
            match read_choice(line, q.menu_max()) {
                None => Reply::Retry,
                Some(p) => match q.custom_bounds(p) {
                    Some((lo, hi)) => {
                        self.awaiting_integer = true;
                        Reply::AskInteger { low: lo, high: hi }
                    },
                    None => {
                        let o = apply_pick(self.overrides, q, p);
                        self.overrides = o;
                        self.answered = self.answered + 1;
                        Reply::Accepted(note_for(&o, q))
                    },
                },
            }
        } else {
            let (lo, hi) = match q.integer_bounds() {
                Some(b) => b,
                None => (0, 0),
            };
            match read_integer(line, lo, hi) {
                None => Reply::RetryInteger { low: lo, high: hi },
                Some(v) => {
                    let o = apply_custom(self.overrides, q, v);
                    self.overrides = o;
                    self.answered = self.answered + 1;
                    self.awaiting_integer = false;
                    Reply::Accepted(note_for(&o, q))
                },
            }
        }
    }
}


/// Decimal digits of a signed integer, with a leading `-` when negative.
pub open spec fn signed_decimal(v: int) -> Seq<char> {
    if v < 0 {
        seq!['-'] + decimal((-v) as nat)
    } else {
        decimal(v as nat)
    }
}

/// The name `Debug` gives a substrate.
pub open spec fn substrate_name(s: MetabolicSubstrate) -> Seq<char> {
    match s {
        MetabolicSubstrate::Aqueous => "Aqueous"@,
        MetabolicSubstrate::Ammoniacal => "Ammoniacal"@,
        MetabolicSubstrate::Hydrocarbon => "Hydrocarbon"@,
        MetabolicSubstrate::Silicate => "Silicate"@,
    }
}

/// The line shown for a note.
pub open spec fn note_text(n: Note) -> Seq<char> {
    match n {
        Note::SolventWindow(MetabolicSubstrate::Aqueous) => "  → liquid solvent wants ~273–373 K on the surface."@,
        Note::SolventWindow(MetabolicSubstrate::Ammoniacal) => "  → ammonia stays liquid roughly 195–240 K."@,
        Note::SolventWindow(MetabolicSubstrate::Hydrocarbon) => "  → methane is liquid in a thin band, ~91–112 K."@,
        Note::SolventWindow(MetabolicSubstrate::Silicate) => "  → silicate biology needs molten rock, ~1700–3500 K."@,
        Note::VacuumStarves => "  ⚠ vacuum atmosphere on a non-silicate biosphere will starve the biology. proceeding anyway."@,
        Note::OutsideLiquidWindow { kelvin, substrate, low, high } => "  ⚠ "@ + signed_decimal(kelvin as int)
            + " K is outside the "@ + substrate_name(substrate) + " liquid window ["@ + signed_decimal(low as int)
            + ", "@ + signed_decimal(high as int) + "]. life will struggle. proceeding."@,
        Note::CrushingGravity => "  ⚠ above 3 g most macroscopic life would be flattened. proceeding."@,
        Note::FlaringDwarf => "  → M dwarfs flare hard. expect rough early epochs unless the magnetosphere is strong."@,
    }
}

/// The decimal digits of a signed integer.
fn signed_decimal_string(v: i64) -> (s: String)
    ensures
        s@ == signed_decimal(v as int),
{
    if v < 0 {
        let m: u64 = (-(v as i128)) as u64;
        let mut s = String::from_str("-");
        let d = decimal_string(m);
        s.append(d.as_str());
        proof {
            reveal_strlit("-");
        }
        s
    } else {
        decimal_string(v as u64)
    }
}

/// The name `Debug` gives a substrate.
fn substrate_str(s: MetabolicSubstrate) -> (r: &'static str)
    ensures
        r@ == substrate_name(s),
{
    match s {
        MetabolicSubstrate::Aqueous => "Aqueous",
        MetabolicSubstrate::Ammoniacal => "Ammoniacal",
        MetabolicSubstrate::Hydrocarbon => "Hydrocarbon",
        MetabolicSubstrate::Silicate => "Silicate",
    }
}

impl Note {
    /// The line shown for the note.
    pub fn message(&self) -> (s: String)
        ensures
            s@ == note_text(*self),
    {
        match *self {
            Note::SolventWindow(MetabolicSubstrate::Aqueous) => String::from_str("  → liquid solvent wants ~273–373 K on the surface."),
            Note::SolventWindow(MetabolicSubstrate::Ammoniacal) => String::from_str("  → ammonia stays liquid roughly 195–240 K."),
            Note::SolventWindow(MetabolicSubstrate::Hydrocarbon) => String::from_str("  → methane is liquid in a thin band, ~91–112 K."),
            Note::SolventWindow(MetabolicSubstrate::Silicate) => String::from_str("  → silicate biology needs molten rock, ~1700–3500 K."),
            Note::VacuumStarves => String::from_str("  ⚠ vacuum atmosphere on a non-silicate biosphere will starve the biology. proceeding anyway."),
            Note::OutsideLiquidWindow { kelvin, substrate, low, high } => {
                let mut s = String::from_str("  ⚠ ");
                let k = signed_decimal_string(kelvin);
                s.append(k.as_str());
                s.append(" K is outside the ");
                s.append(substrate_str(substrate));
                s.append(" liquid window [");
                let l = signed_decimal_string(low);
                s.append(l.as_str());
                s.append(", ");
                let h = signed_decimal_string(high);
                s.append(h.as_str());
                s.append("]. life will struggle. proceeding.");
                s
            },
            Note::CrushingGravity => String::from_str("  ⚠ above 3 g most macroscopic life would be flattened. proceeding."),
            Note::FlaringDwarf => String::from_str("  → M dwarfs flare hard. expect rough early epochs unless the magnetosphere is strong."),
        }
    }
}


/// Option 0, or an empty line, keeps the seed's value: the question's
/// override is cleared, no note is shown and the builder moves on; from
/// no overrides, such an answer leaves no overrides.
pub proof fn lemma_default_answer_keeps_seed(b: PlanetBuilder, line: Seq<char>)
    requires
        b.wf(),
        b.answered < 12,
        !b.awaiting_integer,
        trimmed(line).len() == 0 || trimmed(line) == "0"@,
    ensures
        answer_step(b, line).1 == Reply::Accepted(None),
        answer_step(b, line).0.answered == b.answered + 1,
        answer_step(b, line).0.overrides == with_pick(b.overrides, question_at(b.answered as int), 0),
        b.overrides == no_overrides() ==> answer_step(b, line).0.overrides == no_overrides(),
{
    reveal_strlit("0");
    let t = trimmed(line);
    if t.len() != 0 {
        assert(t.len() == 1 && t[0] == '0');
        assert(digits_value(t) == Some(0nat));
        assert(parse_unsigned(t, u32::MAX as nat) == Some(0nat));
    }
    assert(choice_of(line, menu_max(question_at(b.answered as int))) == Some(0nat));
}

} // verus!
