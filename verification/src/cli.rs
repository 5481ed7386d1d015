//! Command-line parsing for the run binary: the flags, their values and
//! defaults, and the errors a malformed command line yields. The words
//! are parsed from the argument list (without the program name), left
//! to right; a flag that takes a value consumes the next word.

use vstd::prelude::*;
use vstd::string::{StrSliceExecFns, StringExecFns};

verus! {

/// How much of the event stream goes to standard output.
#[derive(Debug, Clone, Copy, PartialEq, Eq, Structural)]
pub enum CliVerbosity {
    /// Nothing.
    Quiet,
    /// Every event.
    All,
    /// The structural-pin subset.
    Highlights,
    /// The live viewport.
    Viewport,
    /// The live viewport in density mode.
    ViewportDensity,
}

/// Temperature unit of the viewport.
#[derive(Debug, Clone, Copy, PartialEq, Eq, Structural)]
pub enum TempUnit {
    Fahrenheit,
    Celsius,
    Kelvin,
}

/// The flags that take a value.
#[derive(Debug, Clone, Copy, PartialEq, Eq, Structural)]
pub enum ValueFlag {
    Seed,
    Ticks,
    Years,
    Out,
    Cli,
    TickRateMs,
    FrameEveryTicks,
    ViewportLogLines,
    GridWidth,
    GridHeight,
    TemperatureUnit,
    ReplayNarration,
}

/// Why a command line was refused.
#[derive(Debug, Clone, PartialEq, Eq)]
pub enum ArgError {
    /// The flag is the last word, without its value.
    MissingValue(ValueFlag),
    /// The flag's value is not a number of the flag's type.
    InvalidNumber(ValueFlag),
    /// The flag's value is zero where it must be positive.
    ZeroValue(ValueFlag),
    /// `--cli` got an unknown mode.
    UnknownCliMode(String),
    /// `--temperature-unit` got an unknown unit.
    UnknownTemperatureUnit(String),
    /// A word that is no flag.
    UnknownArgument(String),
    /// `--narration` together with `--replay-narration`.
    NarrationConflict,
    /// No `--seed` for a run.
    SeedRequired,
    /// Neither `--ticks` nor `--years` for a run.
    TicksRequired,
}

/// How long the run lasts: raw ticks, or planet years (ticks per year
/// depend on the planet the seed samples).
#[derive(Debug, Clone, Copy, PartialEq, Eq, Structural)]
pub enum RunLength {
    Ticks(u64),
    Years(u64),
}

/// A parsed command line for a run.
#[derive(Debug, Clone)]
pub struct CliArgs {
    pub seed: u64,
    pub run_length: RunLength,
    pub out: String,
    pub cli: CliVerbosity,
    pub tick_rate_ms: u64,
    pub frame_every_ticks: u64,
    pub no_color: bool,
    pub viewport_planet_card: bool,
    pub viewport_log_lines: usize,
    pub viewport_compact: bool,
    pub grid_width: Option<u32>,
    pub grid_height: Option<u32>,
    pub temperature_unit: TempUnit,
    pub narration: bool,
    pub replay_narration: Option<String>,
    pub config: bool,
}

/// What a command line asks for.
#[derive(Debug, Clone)]
pub enum Command {
    Run(CliArgs),
    Help,
}

/// The options collected while scanning the words.
pub ghost struct ArgsModel {
    pub seed: Option<u64>,
    pub ticks: Option<u64>,
    pub years: Option<u64>,
    pub out: Seq<char>,
    pub cli: CliVerbosity,
    pub tick_rate_ms: u64,
    pub frame_every_ticks: u64,
    pub no_color: bool,
    pub viewport_planet_card: bool,
    pub viewport_log_lines: usize,
    pub viewport_compact: bool,
    pub grid_width: Option<u32>,
    pub grid_height: Option<u32>,
    pub temperature_unit: TempUnit,
    pub narration: bool,
    pub replay_narration: Option<Seq<char>>,
    pub config: bool,
}

/// The defaults: all events to stdout, no throttle, a frame every 50
/// ticks, planet card on, five log lines, compact viewport on a 36×30
/// grid, Fahrenheit.
pub open spec fn default_model() -> ArgsModel {
    ArgsModel {
        seed: None,
        ticks: None,
        years: None,
        out: "events.ndjson"@,
        cli: CliVerbosity::All,
        tick_rate_ms: 0,
        frame_every_ticks: 50,
        no_color: false,
        viewport_planet_card: true,
        viewport_log_lines: 5,
        viewport_compact: true,
        grid_width: Some(36),
        grid_height: Some(30),
        temperature_unit: TempUnit::Fahrenheit,
        narration: false,
        replay_narration: None,
        config: false,
    }
}

/// The character of a decimal digit's value, if `c` is one.
pub open spec fn digit_value(c: char) -> Option<nat> {
    if '0' <= c && c <= '9' {
        Some((c as nat - '0' as nat) as nat)
    } else {
        None
    }
}

/// The value of a non-empty string of decimal digits.
pub open spec fn digits_value(s: Seq<char>) -> Option<nat>
    decreases s.len(),
{
    if s.len() == 0 {
        None
    } else if s.len() == 1 {
        digit_value(s[0])
    } else {
        match (digits_value(s.drop_last()), digit_value(s.last())) {
            (Some(v), Some(d)) => Some(v * 10 + d),
            _ => None,
        }
    }
}

/// An unsigned decimal number as `FromStr` reads it: an optional `+`,
/// then at least one digit, and no more than `max`.
pub open spec fn parse_unsigned(s: Seq<char>, max: nat) -> Option<nat> {
    let body = if s.len() > 0 && s[0] == '+' { s.subrange(1, s.len() as int) } else { s };
    match digits_value(body) {
        Some(v) => if v <= max { Some(v) } else { None },
        None => None,
    }
}

/// The verbosity a `--cli` word names.
pub open spec fn cli_mode_of(s: Seq<char>) -> Option<CliVerbosity> {
    if s == "quiet"@ {
        Some(CliVerbosity::Quiet)
    } else if s == "all"@ {
        Some(CliVerbosity::All)
    } else if s == "highlights"@ {
        Some(CliVerbosity::Highlights)
    } else if s == "viewport"@ {
        Some(CliVerbosity::Viewport)
    } else if s == "viewport-density"@ {
        Some(CliVerbosity::ViewportDensity)
    } else {
        None
    }
}

/// The unit a `--temperature-unit` word names.
pub open spec fn temp_unit_of(s: Seq<char>) -> Option<TempUnit> {
    if s == "f"@ || s == "F"@ || s == "fahrenheit"@ {
        Some(TempUnit::Fahrenheit)
    } else if s == "c"@ || s == "C"@ || s == "celsius"@ {
        Some(TempUnit::Celsius)
    } else if s == "k"@ || s == "K"@ || s == "kelvin"@ {
        Some(TempUnit::Kelvin)
    } else {
        None
    }
}

/// Where the scan ends: help was asked for, the words ran out with the
/// options collected, or a word was refused.
pub ghost enum ScanEnd {
    Help,
    Done(ArgsModel),
    Refused(ArgErrorModel),
}

/// An error, with its words as character sequences.
pub ghost enum ArgErrorModel {
    MissingValue(ValueFlag),
    InvalidNumber(ValueFlag),
    ZeroValue(ValueFlag),
    UnknownCliMode(Seq<char>),
    UnknownTemperatureUnit(Seq<char>),
    UnknownArgument(Seq<char>),
    NarrationConflict,
    SeedRequired,
    TicksRequired,
}

/// The scan from word `i` on, with options `m` collected so far.
pub open spec fn scan(args: Seq<Seq<char>>, i: int, m: ArgsModel) -> ScanEnd
    decreases args.len() - i,
{
    if i < 0 || i >= args.len() {
        ScanEnd::Done(m)
    } else {
        let a = args[i];
        let has_value = i + 1 < args.len();
        let v = if has_value { args[i + 1] } else { Seq::empty() };
        if a == "--seed"@ {
            if !has_value {
                ScanEnd::Refused(ArgErrorModel::MissingValue(ValueFlag::Seed))
            } else {
                match parse_unsigned(v, u64::MAX as nat) {
                    Some(n) => scan(args, i + 2, ArgsModel { seed: Some(n as u64), ..m }),
                    None => ScanEnd::Refused(ArgErrorModel::InvalidNumber(ValueFlag::Seed)),
                }
            }
        } else if a == "--ticks"@ {
            if !has_value {
                ScanEnd::Refused(ArgErrorModel::MissingValue(ValueFlag::Ticks))
            } else {
                match parse_unsigned(v, u64::MAX as nat) {
                    Some(n) => scan(args, i + 2, ArgsModel { ticks: Some(n as u64), ..m }),
                    None => ScanEnd::Refused(ArgErrorModel::InvalidNumber(ValueFlag::Ticks)),
                }
            }
        } else if a == "--years"@ {
            if !has_value {
                ScanEnd::Refused(ArgErrorModel::MissingValue(ValueFlag::Years))
            } else {
                match parse_unsigned(v, u64::MAX as nat) {
                    Some(n) => scan(args, i + 2, ArgsModel { years: Some(n as u64), ..m }),
                    None => ScanEnd::Refused(ArgErrorModel::InvalidNumber(ValueFlag::Years)),
                }
            }
        } else if a == "--out"@ {
            if !has_value {
                ScanEnd::Refused(ArgErrorModel::MissingValue(ValueFlag::Out))
            } else {
                scan(args, i + 2, ArgsModel { out: v, ..m })
            }
        } else if a == "--cli"@ {
            if !has_value {
                ScanEnd::Refused(ArgErrorModel::MissingValue(ValueFlag::Cli))
            } else {
                match cli_mode_of(v) {
                    Some(c) => scan(args, i + 2, ArgsModel { cli: c, ..m }),
                    None => ScanEnd::Refused(ArgErrorModel::UnknownCliMode(v)),
                }
            }
        } else if a == "--tick-rate-ms"@ {
            if !has_value {
                ScanEnd::Refused(ArgErrorModel::MissingValue(ValueFlag::TickRateMs))
            } else {
                match parse_unsigned(v, u64::MAX as nat) {
                    Some(n) => scan(args, i + 2, ArgsModel { tick_rate_ms: n as u64, ..m }),
                    None => ScanEnd::Refused(ArgErrorModel::InvalidNumber(ValueFlag::TickRateMs)),
                }
            }
        } else if a == "--frame-every-ticks"@ {
            if !has_value {
                ScanEnd::Refused(ArgErrorModel::MissingValue(ValueFlag::FrameEveryTicks))
            } else {
                match parse_unsigned(v, u64::MAX as nat) {
                    Some(n) => if n == 0 {
                        ScanEnd::Refused(ArgErrorModel::ZeroValue(ValueFlag::FrameEveryTicks))
                    } else {
                        scan(args, i + 2, ArgsModel { frame_every_ticks: n as u64, ..m })
                    },
                    None => ScanEnd::Refused(ArgErrorModel::InvalidNumber(ValueFlag::FrameEveryTicks)),
                }
            }
        } else if a == "--no-color"@ {
            scan(args, i + 1, ArgsModel { no_color: true, ..m })
        } else if a == "--no-planet-card"@ {
            scan(args, i + 1, ArgsModel { viewport_planet_card: false, ..m })
        } else if a == "--viewport-log-lines"@ {
            if !has_value {
                ScanEnd::Refused(ArgErrorModel::MissingValue(ValueFlag::ViewportLogLines))
            } else {
                match parse_unsigned(v, usize::MAX as nat) {
                    Some(n) => scan(args, i + 2, ArgsModel { viewport_log_lines: n as usize, ..m }),
                    None => ScanEnd::Refused(ArgErrorModel::InvalidNumber(ValueFlag::ViewportLogLines)),
                }
            }
        } else if a == "--no-viewport-compact"@ {
            scan(args, i + 1, ArgsModel { viewport_compact: false, ..m })
        } else if a == "--grid-width"@ {
            if !has_value {
                ScanEnd::Refused(ArgErrorModel::MissingValue(ValueFlag::GridWidth))
            } else {
                match parse_unsigned(v, u32::MAX as nat) {
                    Some(n) => if n == 0 {
                        ScanEnd::Refused(ArgErrorModel::ZeroValue(ValueFlag::GridWidth))
                    } else {
                        scan(args, i + 2, ArgsModel { grid_width: Some(n as u32), ..m })
                    },
                    None => ScanEnd::Refused(ArgErrorModel::InvalidNumber(ValueFlag::GridWidth)),
                }
            }
        } else if a == "--grid-height"@ {
            if !has_value {
                ScanEnd::Refused(ArgErrorModel::MissingValue(ValueFlag::GridHeight))
            } else {
                match parse_unsigned(v, u32::MAX as nat) {
                    Some(n) => if n == 0 {
                        ScanEnd::Refused(ArgErrorModel::ZeroValue(ValueFlag::GridHeight))
                    } else {
                        scan(args, i + 2, ArgsModel { grid_height: Some(n as u32), ..m })
                    },
                    None => ScanEnd::Refused(ArgErrorModel::InvalidNumber(ValueFlag::GridHeight)),
                }
            }
        } else if a == "--temperature-unit"@ {
            if !has_value {
                ScanEnd::Refused(ArgErrorModel::MissingValue(ValueFlag::TemperatureUnit))
            } else {
                match temp_unit_of(v) {
                    Some(u) => scan(args, i + 2, ArgsModel { temperature_unit: u, ..m }),
                    None => ScanEnd::Refused(ArgErrorModel::UnknownTemperatureUnit(v)),
                }
            }
        } else if a == "--narration"@ {
            scan(args, i + 1, ArgsModel { narration: true, ..m })
        } else if a == "--replay-narration"@ {
            if !has_value {
                ScanEnd::Refused(ArgErrorModel::MissingValue(ValueFlag::ReplayNarration))
            } else {
                scan(args, i + 2, ArgsModel { replay_narration: Some(v), ..m })
            }
        } else if a == "--config"@ {
            scan(args, i + 1, ArgsModel { config: true, ..m })
        } else if a == "--help"@ || a == "-h"@ {
            ScanEnd::Help
        } else {
            ScanEnd::Refused(ArgErrorModel::UnknownArgument(a))
        }
    }
}


/// The words of an argument list.
pub open spec fn words(args: Seq<String>) -> Seq<Seq<char>> {
    Seq::new(args.len(), |i: int| args[i]@)
}

/// What the scan's end makes of the command line: a run needs a seed
/// and a length (a raw `--ticks` taking precedence over `--years`), unless it
/// replays a recorded log, which needs neither but excludes
/// `--narration`.
pub open spec fn outcome_matches(r: Result<Command, ArgError>, e: ScanEnd) -> bool {
    match e {
        ScanEnd::Help => r matches Ok(Command::Help),
        ScanEnd::Refused(err) => r matches Err(x) && error_matches(x, err),
        ScanEnd::Done(m) => if m.narration && m.replay_narration is Some {
            r matches Err(ArgError::NarrationConflict)
        } else if m.replay_narration is Some {
            r matches Ok(Command::Run(a)) && a.seed == 0 && a.run_length == RunLength::Ticks(0)
                && run_matches(a, m)
        } else if m.seed is None {
            r matches Err(ArgError::SeedRequired)
        } else if m.years is None && m.ticks is None {
            r matches Err(ArgError::TicksRequired)
        } else {
            r matches Ok(Command::Run(a)) && a.seed == m.seed->0 && a.run_length == (if m.ticks is Some {
                RunLength::Ticks(m.ticks->0)
            } else {
                RunLength::Years(m.years->0)
            }) && run_matches(a, m)
        },
    }
}

/// The options of a run are those collected.
pub open spec fn run_matches(a: CliArgs, m: ArgsModel) -> bool {
    &&& a.out@ == m.out
    &&& a.cli == m.cli
    &&& a.tick_rate_ms == m.tick_rate_ms
    &&& a.frame_every_ticks == m.frame_every_ticks
    &&& a.no_color == m.no_color
    &&& a.viewport_planet_card == m.viewport_planet_card
    &&& a.viewport_log_lines == m.viewport_log_lines
    &&& a.viewport_compact == m.viewport_compact
    &&& a.grid_width == m.grid_width
    &&& a.grid_height == m.grid_height
    &&& a.temperature_unit == m.temperature_unit
    &&& a.narration == m.narration
    &&& (match a.replay_narration {
        Some(p) => m.replay_narration == Some(p@),
        None => m.replay_narration is None,
    })
    &&& a.config == m.config
}

/// An error carries the refused words.
pub open spec fn error_matches(x: ArgError, e: ArgErrorModel) -> bool {
    match (x, e) {
        (ArgError::MissingValue(a), ArgErrorModel::MissingValue(b)) => a == b,
        (ArgError::InvalidNumber(a), ArgErrorModel::InvalidNumber(b)) => a == b,
        (ArgError::ZeroValue(a), ArgErrorModel::ZeroValue(b)) => a == b,
        (ArgError::UnknownCliMode(a), ArgErrorModel::UnknownCliMode(b)) => a@ == b,
        (ArgError::UnknownTemperatureUnit(a), ArgErrorModel::UnknownTemperatureUnit(b)) => a@ == b,
        (ArgError::UnknownArgument(a), ArgErrorModel::UnknownArgument(b)) => a@ == b,
        (ArgError::NarrationConflict, ArgErrorModel::NarrationConflict) => true,
        (ArgError::SeedRequired, ArgErrorModel::SeedRequired) => true,
        (ArgError::TicksRequired, ArgErrorModel::TicksRequired) => true,
        _ => false,
    }
}

/// Whether the word `s` is `lit`.
fn word_is(s: &String, lit: &str) -> (b: bool)
    ensures
        b == (s@ == lit@),
{
    *s == String::from_str(lit)
}

proof fn lemma_digits_prefix(s: Seq<char>, k: int)
    requires
        1 <= k <= s.len(),
        digits_value(s) is Some,
    ensures
        digits_value(s.take(k)) is Some,
        digits_value(s.take(k))->0 <= digits_value(s)->0,
    decreases s.len(),
{
    if k < s.len() {
        assert(s.len() >= 2);
        lemma_digits_prefix(s.drop_last(), k);
        assert(s.drop_last().take(k) =~= s.take(k));
    } else {
        assert(s.take(k) =~= s);
    }
}

/// The value of the digits of `t` from `start` on, if they are all
/// digits (at least one) and their value is no greater than `max`.
pub(crate) fn parse_digits(t: &str, start: usize, max: u64) -> (r: Option<u64>)
    requires
        start <= t@.len(),
    ensures
        match digits_value(t@.subrange(start as int, t@.len() as int)) {
            Some(v) => if v <= max { r == Some(v as u64) } else { r is None },
            None => r is None,
        },
{
    let len = t.unicode_len();
    let ghost body = t@.subrange(start as int, t@.len() as int);
    if start >= len {
        assert(body.len() == 0);
        return None;
    }
    let mut acc: u64 = 0;
    let mut k: usize = start;
    while k < len
        invariant
            start <= k <= len,
            len == t@.len(),
            start < len,
            body == t@.subrange(start as int, t@.len() as int),
            k > start ==> digits_value(body.take(k - start)) == Some(acc as nat),
            k == start ==> acc == 0,
            acc <= max,
        decreases len - k,
    {
        let c = t.get_char(k);
        if c < '0' || c > '9' {
            proof {
                assert(body[k - start] == c);
                assert(digit_value(c) is None);
                let p = body.take(k - start + 1);
                assert(p.last() == c);
                if k == start {
                    assert(p[0] == c);
                }
                assert(digits_value(p) is None);
                if digits_value(body) is Some {
                    lemma_digits_prefix(body, k - start + 1);
                }
            }
            return None;
        }
        let d = (c as u32 - '0' as u32) as u64;
        proof {
            let p = body.take(k - start + 1);
            assert(p.last() == c);
            if k > start {
                assert(p.drop_last() =~= body.take(k - start));
            }
            assert(digit_value(c) == Some(d as nat));
        }
        if d > max || acc > (max - d) / 10 {
            proof {
                let p = body.take(k - start + 1);
                assert(acc * 10 + d > max) by (nonlinear_arith)
                    requires d > max || acc > (max - d) / 10, d <= 9, acc >= 0;
                if k > start {
                    assert(p.drop_last() =~= body.take(k - start));
                } else {
                    assert(p.len() == 1);
                }
                assert(digits_value(p) == Some((acc * 10 + d) as nat));
                if digits_value(body) is Some {
                    lemma_digits_prefix(body, k - start + 1);
                }
            }
            return None;
        }
        proof {
            assert(acc * 10 + d <= max) by (nonlinear_arith)
                requires acc <= (max - d) / 10, d <= max;
        }
        acc = acc * 10 + d;
        k += 1;
    }
    proof {
        assert(body.take(len - start) =~= body);
    }
    Some(acc)
}

/// Parse an unsigned decimal number no greater than `max`, as `FromStr`
/// reads one: an optional `+`, then digits.
pub(crate) fn parse_number(t: &str, max: u64) -> (r: Option<u64>)
    ensures
        match parse_unsigned(t@, max as nat) {
            Some(v) => r == Some(v as u64),
            None => r is None,
        },
{
    let len = t.unicode_len();
    if len > 0 && t.get_char(0) == '+' {
        parse_digits(t, 1, max)
    } else {
        proof {
            assert(t@.subrange(0, t@.len() as int) =~= t@);
        }
        parse_digits(t, 0, max)
    }
}

/// The options collected so far, as the scan holds them.
struct ArgsState {
    seed: Option<u64>,
    ticks: Option<u64>,
    years: Option<u64>,
    out: String,
    cli: CliVerbosity,
    tick_rate_ms: u64,
    frame_every_ticks: u64,
    no_color: bool,
    viewport_planet_card: bool,
    viewport_log_lines: usize,
    viewport_compact: bool,
    grid_width: Option<u32>,
    grid_height: Option<u32>,
    temperature_unit: TempUnit,
    narration: bool,
    replay_narration: Option<String>,
    config: bool,
}

impl ArgsState {
    spec fn model(&self) -> ArgsModel {
        ArgsModel {
            seed: self.seed,
            ticks: self.ticks,
            years: self.years,
            out: self.out@,
            cli: self.cli,
            tick_rate_ms: self.tick_rate_ms,
            frame_every_ticks: self.frame_every_ticks,
            no_color: self.no_color,
            viewport_planet_card: self.viewport_planet_card,
            viewport_log_lines: self.viewport_log_lines,
            viewport_compact: self.viewport_compact,
            grid_width: self.grid_width,
            grid_height: self.grid_height,
            temperature_unit: self.temperature_unit,
            narration: self.narration,
            replay_narration: match self.replay_narration {
                Some(p) => Some(p@),
                None => None,
            },
            config: self.config,
        }
    }
}

/// The value word after the flag at `i`, if there is one.
fn value_after(args: &Vec<String>, i: usize, flag: ValueFlag) -> (r: Result<&String, ArgError>)
    requires
        i < args.len(),
    ensures
        i + 1 < args.len() ==> (r matches Ok(v) && v == &args@[i + 1]),
        i + 1 >= args.len() ==> r == Err::<&String, ArgError>(ArgError::MissingValue(flag)),
{
    if i + 1 < args.len() {
        Ok(&args[i + 1])
    } else {
        Err(ArgError::MissingValue(flag))
    }
}

/// What one step of the scan came to.
enum Step {
    /// Go on at this word.
    Next(usize),
    /// Help was asked for.
    Help,
    /// A word was refused.
    Fail(ArgError),
}

/// A flag's numeric value, or the error its absence or form gives.
fn numeric_value(args: &Vec<String>, i: usize, flag: ValueFlag, max: u64) -> (r: Result<u64, ArgError>)
    requires
        i < args.len(),
    ensures
        i + 1 >= args.len() ==> r == Err::<u64, ArgError>(ArgError::MissingValue(flag)),
        i + 1 < args.len() ==> match parse_unsigned(args@[i + 1]@, max as nat) {
            Some(x) => r == Ok::<u64, ArgError>(x as u64),
            None => r == Err::<u64, ArgError>(ArgError::InvalidNumber(flag)),
        },
{
    let v = match value_after(args, i, flag) {
        Ok(v) => v,
        Err(e) => return Err(e),
    };
    match parse_number(v.as_str(), max) {
        Some(x) => Ok(x),
        None => Err(ArgError::InvalidNumber(flag)),
    }
}

/// One step of the scan: the word at `i` and, for a flag that takes
/// one, its value.
#[verifier::rlimit(100)]
fn step(args: &Vec<String>, i: usize, st: &mut ArgsState) -> (r: Step)
    requires
        i < args.len(),
    ensures
        match r {
            Step::Next(j) => i < j <= args.len() && scan(words(args@), i as int, old(st).model())
                == scan(words(args@), j as int, final(st).model()),
            Step::Help => scan(words(args@), i as int, old(st).model()) == ScanEnd::Help,
            Step::Fail(e) => (scan(words(args@), i as int, old(st).model()) matches ScanEnd::Refused(em)
                && error_matches(e, em)),
        },
{
    let ghost w = words(args@);
    let ghost m = st.model();
    let a = &args[i];
    assert(w[i as int] == a@);
    if i + 1 < args.len() {
        assert(w[i + 1] == args@[i + 1]@);
    }
    if word_is(a, "--seed") {
        match numeric_value(args, i, ValueFlag::Seed, u64::MAX) {
            Ok(x) => {
                st.seed = Some(x);
                assert(st.model() == ArgsModel { seed: Some(x), ..m });
                Step::Next(i + 2)
            },
            Err(e) => Step::Fail(e),
        }
    } else if word_is(a, "--ticks") {
        match numeric_value(args, i, ValueFlag::Ticks, u64::MAX) {
            Ok(x) => {
                st.ticks = Some(x);
                assert(st.model() == ArgsModel { ticks: Some(x), ..m });
                Step::Next(i + 2)
            },
            Err(e) => Step::Fail(e),
        }
    } else if word_is(a, "--years") {
        match numeric_value(args, i, ValueFlag::Years, u64::MAX) {
            Ok(x) => {
                st.years = Some(x);
                assert(st.model() == ArgsModel { years: Some(x), ..m });
                Step::Next(i + 2)
            },
            Err(e) => Step::Fail(e),
        }
    } else if word_is(a, "--out") {
        match value_after(args, i, ValueFlag::Out) {
            Ok(v) => {
                st.out = v.clone();
                assert(st.model() == ArgsModel { out: v@, ..m });
                Step::Next(i + 2)
            },
            Err(e) => Step::Fail(e),
        }
    } else if word_is(a, "--cli") {
        match value_after(args, i, ValueFlag::Cli) {
            Ok(v) => match cli_mode(v) {
                Some(c) => {
                    st.cli = c;
                    assert(st.model() == ArgsModel { cli: c, ..m });
                    Step::Next(i + 2)
                },
                None => Step::Fail(ArgError::UnknownCliMode(v.clone())),
            },
            Err(e) => Step::Fail(e),
        }
    } else if word_is(a, "--tick-rate-ms") {
        match numeric_value(args, i, ValueFlag::TickRateMs, u64::MAX) {
            Ok(x) => {
                st.tick_rate_ms = x;
                assert(st.model() == ArgsModel { tick_rate_ms: x, ..m });
                Step::Next(i + 2)
            },
            Err(e) => Step::Fail(e),
        }
    } else if word_is(a, "--frame-every-ticks") {
        match numeric_value(args, i, ValueFlag::FrameEveryTicks, u64::MAX) {
            Ok(x) => {
                if x == 0 {
                    Step::Fail(ArgError::ZeroValue(ValueFlag::FrameEveryTicks))
                } else {
                    st.frame_every_ticks = x;
                    assert(st.model() == ArgsModel { frame_every_ticks: x, ..m });
                    Step::Next(i + 2)
                }
            },
            Err(e) => Step::Fail(e),
        }
    } else if word_is(a, "--no-color") {
        st.no_color = true;
        assert(st.model() == ArgsModel { no_color: true, ..m });
        Step::Next(i + 1)
    } else if word_is(a, "--no-planet-card") {
        st.viewport_planet_card = false;
        assert(st.model() == ArgsModel { viewport_planet_card: false, ..m });
        Step::Next(i + 1)
    } else {
        step_rest(args, i, st)
    }
}

/// The rest of the flag table, after `--no-planet-card`.
#[verifier::rlimit(100)]
fn step_rest(args: &Vec<String>, i: usize, st: &mut ArgsState) -> (r: Step)
    requires
        i < args.len(),
        !before_rest(args@[i as int]@),
    ensures
        match r {
            Step::Next(j) => i < j <= args.len() && scan(words(args@), i as int, old(st).model())
                == scan(words(args@), j as int, final(st).model()),
            Step::Help => scan(words(args@), i as int, old(st).model()) == ScanEnd::Help,
            Step::Fail(e) => (scan(words(args@), i as int, old(st).model()) matches ScanEnd::Refused(em)
                && error_matches(e, em)),
        },
{
    let ghost w = words(args@);
    let ghost m = st.model();
    let a = &args[i];
    assert(w[i as int] == a@);
    if i + 1 < args.len() {
        assert(w[i + 1] == args@[i + 1]@);
    }
    if word_is(a, "--viewport-log-lines") {
        match numeric_value(args, i, ValueFlag::ViewportLogLines, usize::MAX as u64) {
            Ok(x) => {
                let k = x as usize;
                st.viewport_log_lines = k;
                assert(st.model() == ArgsModel { viewport_log_lines: k, ..m });
                Step::Next(i + 2)
            },
            Err(e) => Step::Fail(e),
        }
    } else if word_is(a, "--no-viewport-compact") {
        st.viewport_compact = false;
        assert(st.model() == ArgsModel { viewport_compact: false, ..m });
        Step::Next(i + 1)
    } else if word_is(a, "--grid-width") {
        match numeric_value(args, i, ValueFlag::GridWidth, u32::MAX as u64) {
            Ok(x) => {
                if x == 0 {
                    Step::Fail(ArgError::ZeroValue(ValueFlag::GridWidth))
                } else {
                    let g = x as u32;
                    st.grid_width = Some(g);
                    assert(st.model() == ArgsModel { grid_width: Some(g), ..m });
                    Step::Next(i + 2)
                }
            },
            Err(e) => Step::Fail(e),
        }
    } else if word_is(a, "--grid-height") {
        match numeric_value(args, i, ValueFlag::GridHeight, u32::MAX as u64) {
            Ok(x) => {
                if x == 0 {
                    Step::Fail(ArgError::ZeroValue(ValueFlag::GridHeight))
                } else {
                    let g = x as u32;
                    st.grid_height = Some(g);
                    assert(st.model() == ArgsModel { grid_height: Some(g), ..m });
                    Step::Next(i + 2)
                }
            },
            Err(e) => Step::Fail(e),
        }
    } else if word_is(a, "--temperature-unit") {
        match value_after(args, i, ValueFlag::TemperatureUnit) {
            Ok(v) => match temperature_unit(v) {
                Some(u) => {
                    st.temperature_unit = u;
                    assert(st.model() == ArgsModel { temperature_unit: u, ..m });
                    Step::Next(i + 2)
                },
                None => Step::Fail(ArgError::UnknownTemperatureUnit(v.clone())),
            },
            Err(e) => Step::Fail(e),
        }
    } else if word_is(a, "--narration") {
        st.narration = true;
        assert(st.model() == ArgsModel { narration: true, ..m });
        Step::Next(i + 1)
    } else if word_is(a, "--replay-narration") {
        match value_after(args, i, ValueFlag::ReplayNarration) {
            Ok(v) => {
                st.replay_narration = Some(v.clone());
                assert(st.model() == ArgsModel { replay_narration: Some(v@), ..m });
                Step::Next(i + 2)
            },
            Err(e) => Step::Fail(e),
        }
    } else if word_is(a, "--config") {
        st.config = true;
        assert(st.model() == ArgsModel { config: true, ..m });
        Step::Next(i + 1)
    } else if word_is(a, "--help") || word_is(a, "-h") {
        Step::Help
    } else {
        Step::Fail(ArgError::UnknownArgument(a.clone()))
    }
}

/// Whether a word is one of the flags that `step` handles itself.
spec fn before_rest(a: Seq<char>) -> bool {
    a == "--seed"@ || a == "--ticks"@ || a == "--years"@ || a == "--out"@ || a == "--cli"@
        || a == "--tick-rate-ms"@ || a == "--frame-every-ticks"@ || a == "--no-color"@
        || a == "--no-planet-card"@
}

/// The verbosity a `--cli` word names.
fn cli_mode(v: &String) -> (r: Option<CliVerbosity>)
    ensures
        r == cli_mode_of(v@),
{
    if word_is(v, "quiet") {
        Some(CliVerbosity::Quiet)
    } else if word_is(v, "all") {
        Some(CliVerbosity::All)
    } else if word_is(v, "highlights") {
        Some(CliVerbosity::Highlights)
    } else if word_is(v, "viewport") {
        Some(CliVerbosity::Viewport)
    } else if word_is(v, "viewport-density") {
        Some(CliVerbosity::ViewportDensity)
    } else {
        None
    }
}

/// The unit a `--temperature-unit` word names.
fn temperature_unit(v: &String) -> (r: Option<TempUnit>)
    ensures
        r == temp_unit_of(v@),
{
    if word_is(v, "f") || word_is(v, "F") || word_is(v, "fahrenheit") {
        Some(TempUnit::Fahrenheit)
    } else if word_is(v, "c") || word_is(v, "C") || word_is(v, "celsius") {
        Some(TempUnit::Celsius)
    } else if word_is(v, "k") || word_is(v, "K") || word_is(v, "kelvin") {
        Some(TempUnit::Kelvin)
    } else {
        None
    }
}


/// The checks after the scan: the narration flags exclude each other, a
/// replay needs nothing more, a run needs a seed and a length.
fn finish(st: ArgsState) -> (r: Result<Command, ArgError>)
    ensures
        outcome_matches(r, ScanEnd::Done(st.model())),
{
    let ghost m = st.model();
    if st.narration && st.replay_narration.is_some() {
        return Err(ArgError::NarrationConflict);
    }
    let (seed, run_length) = if st.replay_narration.is_some() {
        (0u64, RunLength::Ticks(0))
    } else {
        let seed = match st.seed {
            Some(s) => s,
            None => return Err(ArgError::SeedRequired),
        };
        let run_length = match (st.ticks, st.years) {
            (Some(t), _) => RunLength::Ticks(t),
            (None, Some(y)) => RunLength::Years(y),
            (None, None) => return Err(ArgError::TicksRequired),
        };
        (seed, run_length)
    };
    let a = CliArgs {
        seed,
        run_length,
        out: st.out,
        cli: st.cli,
        tick_rate_ms: st.tick_rate_ms,
        frame_every_ticks: st.frame_every_ticks,
        no_color: st.no_color,
        viewport_planet_card: st.viewport_planet_card,
        viewport_log_lines: st.viewport_log_lines,
        viewport_compact: st.viewport_compact,
        grid_width: st.grid_width,
        grid_height: st.grid_height,
        temperature_unit: st.temperature_unit,
        narration: st.narration,
        replay_narration: st.replay_narration,
        config: st.config,
    };
    assert(run_matches(a, m));
    Ok(Command::Run(a))
}

/// Parse the command line (the words after the program name): the words
/// are scanned left to right as `scan` says (`--help` before any refused
/// word asks for the help text), and a run is then checked for a seed and
/// a length as `outcome_matches` says.
pub fn parse_args(args: &Vec<String>) -> (r: Result<Command, ArgError>)
    ensures
        outcome_matches(r, scan(words(args@), 0, default_model())),
{
    let ghost w = words(args@);
    let mut st = ArgsState {
        seed: None,
        ticks: None,
        years: None,
        out: String::from_str("events.ndjson"),
        cli: CliVerbosity::All,
        tick_rate_ms: 0,
        frame_every_ticks: 50,
        no_color: false,
        viewport_planet_card: true,
        viewport_log_lines: 5,
        viewport_compact: true,
        grid_width: Some(36),
        grid_height: Some(30),
        temperature_unit: TempUnit::Fahrenheit,
        narration: false,
        replay_narration: None,
        config: false,
    };
    assert(st.model() == default_model());
    let n = args.len();
    let mut i: usize = 0;
    while i < n
        invariant
            n == args.len(),
            i <= n,
            w == words(args@),
            scan(w, 0, default_model()) == scan(w, i as int, st.model()),
        decreases n - i,
    {
        match step(args, i, &mut st) {
            Step::Next(j) => {
                i = j;
            },
            Step::Help => return Ok(Command::Help),
            Step::Fail(e) => return Err(e),
        }
    }
    finish(st)
}


/// The number of ticks a run lasts on a planet whose year has
/// `orbital_period_months` months (at least one): raw ticks as given, or
/// years times months per year, saturating at `u64::MAX`.
pub fn resolve_run_ticks(length: RunLength, orbital_period_months: u32) -> (r: u64)
    ensures
        r == match length {
            RunLength::Ticks(t) => t as int,
            RunLength::Years(y) => {
                let period: int = if orbital_period_months == 0 { 1 } else { orbital_period_months as int };
                if y * period > u64::MAX { u64::MAX as int } else { y * period }
            },
        },
{
    match length {
        RunLength::Ticks(t) => t,
        RunLength::Years(y) => {
            let period: u64 = if orbital_period_months == 0 { 1 } else { orbital_period_months as u64 };
            match y.checked_mul(period) {
                Some(t) => t,
                None => u64::MAX,
            }
        },
    }
}


/// Output format of the post-run report.
#[derive(Debug, Clone, Copy, PartialEq, Eq, Structural)]
pub enum ReportFormat {
    Markdown,
    Html,
}

/// Why a report command line was refused.
#[derive(Debug, Clone, PartialEq, Eq)]
pub enum ReportArgError {
    /// `--in` is the last word, without its path.
    MissingInput,
    /// `--out` is the last word, without its path.
    MissingOutput,
    /// `--format` is the last word, without its value.
    MissingFormat,
    /// `--format` got neither markdown nor html.
    UnknownFormat(String),
    /// A word that is no flag.
    UnknownArgument(String),
}

/// A parsed report command line: where to read the log (standard input
/// when `None`), where to write (standard output when `None`), and how.
#[derive(Debug, Clone)]
pub struct ReportArgs {
    pub input: Option<String>,
    pub output: Option<String>,
    pub format: ReportFormat,
}

/// What a report command line asks for.
#[derive(Debug, Clone)]
pub enum ReportCommand {
    Render(ReportArgs),
    Help,
}

/// The report options collected while scanning the words.
pub ghost struct ReportModel {
    pub input: Option<Seq<char>>,
    pub output: Option<Seq<char>>,
    pub format: ReportFormat,
}

/// Where a report scan ends.
pub ghost enum ReportScanEnd {
    Help,
    Done(ReportModel),
    MissingInput,
    MissingOutput,
    MissingFormat,
    UnknownFormat(Seq<char>),
    UnknownArgument(Seq<char>),
}

/// The format a `--format` word names.
pub open spec fn report_format_of(s: Seq<char>) -> Option<ReportFormat> {
    if s == "markdown"@ || s == "md"@ {
        Some(ReportFormat::Markdown)
    } else if s == "html"@ {
        Some(ReportFormat::Html)
    } else {
        None
    }
}

/// The report scan from word `i` on, with options `m` collected so far.
pub open spec fn scan_report(args: Seq<Seq<char>>, i: int, m: ReportModel) -> ReportScanEnd
    decreases args.len() - i,
{
    if i < 0 || i >= args.len() {
        ReportScanEnd::Done(m)
    } else {
        let a = args[i];
        let has_value = i + 1 < args.len();
        if a == "--in"@ {
            if has_value {
                scan_report(args, i + 2, ReportModel { input: Some(args[i + 1]), ..m })
            } else {
                ReportScanEnd::MissingInput
            }
        } else if a == "--out"@ {
            if has_value {
                scan_report(args, i + 2, ReportModel { output: Some(args[i + 1]), ..m })
            } else {
                ReportScanEnd::MissingOutput
            }
        } else if a == "--format"@ {
            if !has_value {
                ReportScanEnd::MissingFormat
            } else {
                match report_format_of(args[i + 1]) {
                    Some(f) => scan_report(args, i + 2, ReportModel { format: f, ..m }),
                    None => ReportScanEnd::UnknownFormat(args[i + 1]),
                }
            }
        } else if a == "--help"@ || a == "-h"@ {
            ReportScanEnd::Help
        } else {
            ReportScanEnd::UnknownArgument(a)
        }
    }
}

/// The view of optional text.
pub open spec fn opt_view(s: Option<String>) -> Option<Seq<char>> {
    match s {
        Some(t) => Some(t@),
        None => None,
    }
}

/// What the report scan's end makes of the command line.
pub open spec fn report_outcome_matches(r: Result<ReportCommand, ReportArgError>, e: ReportScanEnd) -> bool {
    match e {
        ReportScanEnd::Help => r matches Ok(ReportCommand::Help),
        ReportScanEnd::Done(m) => r matches Ok(ReportCommand::Render(a)) && opt_view(a.input) == m.input
            && opt_view(a.output) == m.output && a.format == m.format,
        ReportScanEnd::MissingInput => r matches Err(ReportArgError::MissingInput),
        ReportScanEnd::MissingOutput => r matches Err(ReportArgError::MissingOutput),
        ReportScanEnd::MissingFormat => r matches Err(ReportArgError::MissingFormat),
        ReportScanEnd::UnknownFormat(w) => r matches Err(ReportArgError::UnknownFormat(x)) && x@ == w,
        ReportScanEnd::UnknownArgument(w) => r matches Err(ReportArgError::UnknownArgument(x)) && x@ == w,
    }
}

/// Parse a report command line (the words after the program name): the
/// log to read, where to write, and the format, markdown by default.
pub fn parse_report_args(args: &Vec<String>) -> (r: Result<ReportCommand, ReportArgError>)
    ensures
        report_outcome_matches(
            r,
            scan_report(words(args@), 0, ReportModel { input: None, output: None, format: ReportFormat::Markdown }),
        ),
{
    let ghost w = words(args@);
    let mut input: Option<String> = None;
    let mut output: Option<String> = None;
    let mut format = ReportFormat::Markdown;
    let n = args.len();
    let mut i: usize = 0;
    while i < n
        invariant
            n == args.len(),
            i <= n,
            w == words(args@),
            scan_report(w, 0, ReportModel { input: None, output: None, format: ReportFormat::Markdown })
                == scan_report(w, i as int, ReportModel { input: opt_view(input), output: opt_view(output), format }),
        decreases n - i,
    {
        let a = &args[i];
        assert(w[i as int] == a@);
        if i + 1 < n {
            assert(w[i + 1] == args@[i + 1]@);
        }
        if word_is(a, "--in") {
            if i + 1 >= n {
                return Err(ReportArgError::MissingInput);
            }
            input = Some(args[i + 1].clone());
            i = i + 2;
        } else if word_is(a, "--out") {
            if i + 1 >= n {
                return Err(ReportArgError::MissingOutput);
            }
            output = Some(args[i + 1].clone());
            i = i + 2;
        } else if word_is(a, "--format") {
            if i + 1 >= n {
                return Err(ReportArgError::MissingFormat);
            }
            let v = &args[i + 1];
            if word_is(v, "markdown") || word_is(v, "md") {
                format = ReportFormat::Markdown;
            } else if word_is(v, "html") {
                format = ReportFormat::Html;
            } else {
                return Err(ReportArgError::UnknownFormat(v.clone()));
            }
            i = i + 2;
        } else if word_is(a, "--help") || word_is(a, "-h") {
            return Ok(ReportCommand::Help);
        } else {
            return Err(ReportArgError::UnknownArgument(a.clone()));
        }
    }
    Ok(ReportCommand::Render(ReportArgs { input, output, format }))
}

} // verus!
