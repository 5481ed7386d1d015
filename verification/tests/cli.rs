use ages::cli::{
    parse_args, parse_report_args, resolve_run_ticks, ArgError, CliVerbosity, Command, ReportArgError,
    ReportCommand, ReportFormat, RunLength, TempUnit, ValueFlag,
};

fn words(ws: &[&str]) -> Vec<String> {
    ws.iter().map(|w| w.to_string()).collect()
}

fn run(ws: &[&str]) -> ages::cli::CliArgs {
    match parse_args(&words(ws)) {
        Ok(Command::Run(a)) => a,
        other => panic!("expected a run, got {other:?}"),
    }
}

#[test]
fn defaults_for_a_minimal_run() {
    let a = run(&["--seed", "7", "--years", "100"]);
    assert_eq!(a.seed, 7);
    assert_eq!(a.run_length, RunLength::Years(100));
    assert_eq!(a.out, "events.ndjson");
    assert_eq!(a.cli, CliVerbosity::All);
    assert_eq!(a.tick_rate_ms, 0);
    assert_eq!(a.frame_every_ticks, 50);
    assert!(!a.no_color);
    assert!(a.viewport_planet_card);
    assert_eq!(a.viewport_log_lines, 5);
    assert!(a.viewport_compact);
    assert_eq!(a.grid_width, Some(36));
    assert_eq!(a.grid_height, Some(30));
    assert_eq!(a.temperature_unit, TempUnit::Fahrenheit);
    assert!(!a.narration);
    assert_eq!(a.replay_narration, None);
    assert!(!a.config);
}

#[test]
fn every_flag_is_read() {
    let a = run(&[
        "--seed", "+42", "--ticks", "300", "--out", "x.ndjson", "--cli", "viewport-density",
        "--tick-rate-ms", "15", "--frame-every-ticks", "10", "--no-color", "--no-planet-card",
        "--viewport-log-lines", "0", "--no-viewport-compact", "--grid-width", "12",
        "--grid-height", "9", "--temperature-unit", "K", "--narration", "--config",
    ]);
    assert_eq!(a.seed, 42);
    assert_eq!(a.run_length, RunLength::Ticks(300));
    assert_eq!(a.out, "x.ndjson");
    assert_eq!(a.cli, CliVerbosity::ViewportDensity);
    assert_eq!(a.tick_rate_ms, 15);
    assert_eq!(a.frame_every_ticks, 10);
    assert!(a.no_color);
    assert!(!a.viewport_planet_card);
    assert_eq!(a.viewport_log_lines, 0);
    assert!(!a.viewport_compact);
    assert_eq!(a.grid_width, Some(12));
    assert_eq!(a.grid_height, Some(9));
    assert_eq!(a.temperature_unit, TempUnit::Kelvin);
    assert!(a.narration);
    assert!(a.config);
}

#[test]
fn raw_ticks_take_precedence_over_years() {
    let a = run(&["--seed", "1", "--ticks", "100", "--years", "5"]);
    assert_eq!(a.seed, 1);
    assert_eq!(a.run_length, RunLength::Ticks(100));
    assert_eq!(resolve_run_ticks(a.run_length, 16), 100);
    let y = run(&["--seed", "1", "--years", "3"]);
    assert_eq!(y.run_length, RunLength::Years(3));
    assert_eq!(resolve_run_ticks(y.run_length, 16), 48);
}

#[test]
fn resolve_run_ticks_scales_and_saturates() {
    assert_eq!(resolve_run_ticks(RunLength::Ticks(99), 12), 99);
    assert_eq!(resolve_run_ticks(RunLength::Years(100), 9), 900);
    assert_eq!(resolve_run_ticks(RunLength::Years(5), 0), 5);
    assert_eq!(resolve_run_ticks(RunLength::Years(u64::MAX / 2), 3), u64::MAX);
}

#[test]
fn help_wins_before_an_error() {
    assert!(matches!(parse_args(&words(&["--no-color", "-h", "--bogus"])), Ok(Command::Help)));
    assert!(matches!(parse_args(&words(&["--help"])), Ok(Command::Help)));
    assert_eq!(
        parse_args(&words(&["--bogus", "--help"])).err(),
        Some(ArgError::UnknownArgument("--bogus".to_string()))
    );
}

#[test]
fn each_error_has_its_input() {
    assert_eq!(parse_args(&words(&["--seed"])).err(), Some(ArgError::MissingValue(ValueFlag::Seed)));
    assert_eq!(parse_args(&words(&["--seed", "-3"])).err(), Some(ArgError::InvalidNumber(ValueFlag::Seed)));
    assert_eq!(
        parse_args(&words(&["--ticks", "18446744073709551616"])).err(),
        Some(ArgError::InvalidNumber(ValueFlag::Ticks))
    );
    assert_eq!(
        parse_args(&words(&["--frame-every-ticks", "0"])).err(),
        Some(ArgError::ZeroValue(ValueFlag::FrameEveryTicks))
    );
    assert_eq!(
        parse_args(&words(&["--grid-width", "4294967296"])).err(),
        Some(ArgError::InvalidNumber(ValueFlag::GridWidth))
    );
    assert_eq!(parse_args(&words(&["--grid-height", "0"])).err(), Some(ArgError::ZeroValue(ValueFlag::GridHeight)));
    assert_eq!(
        parse_args(&words(&["--cli", "loud"])).err(),
        Some(ArgError::UnknownCliMode("loud".to_string()))
    );
    assert_eq!(
        parse_args(&words(&["--temperature-unit", "r"])).err(),
        Some(ArgError::UnknownTemperatureUnit("r".to_string()))
    );
    assert_eq!(
        parse_args(&words(&["--narration", "--replay-narration", "log.ndjson"])).err(),
        Some(ArgError::NarrationConflict)
    );
    assert_eq!(parse_args(&words(&["--years", "3"])).err(), Some(ArgError::SeedRequired));
    assert_eq!(parse_args(&words(&["--seed", "3"])).err(), Some(ArgError::TicksRequired));
    assert_eq!(
        parse_args(&words(&["--replay-narration"])).err(),
        Some(ArgError::MissingValue(ValueFlag::ReplayNarration))
    );
}

#[test]
fn replay_needs_no_seed() {
    let a = run(&["--replay-narration", "old.ndjson", "--cli", "quiet"]);
    assert_eq!(a.seed, 0);
    assert_eq!(a.run_length, RunLength::Ticks(0));
    assert_eq!(a.replay_narration, Some("old.ndjson".to_string()));
    assert_eq!(a.cli, CliVerbosity::Quiet);
}

#[test]
fn report_arguments() {
    match parse_report_args(&words(&[])) {
        Ok(ReportCommand::Render(a)) => {
            assert_eq!(a.input, None);
            assert_eq!(a.output, None);
            assert_eq!(a.format, ReportFormat::Markdown);
        }
        other => panic!("unexpected {other:?}"),
    }
    match parse_report_args(&words(&["--in", "e.ndjson", "--format", "html", "--out", "r.html"])) {
        Ok(ReportCommand::Render(a)) => {
            assert_eq!(a.input, Some("e.ndjson".to_string()));
            assert_eq!(a.output, Some("r.html".to_string()));
            assert_eq!(a.format, ReportFormat::Html);
        }
        other => panic!("unexpected {other:?}"),
    }
    assert!(matches!(parse_report_args(&words(&["-h"])), Ok(ReportCommand::Help)));
    assert_eq!(parse_report_args(&words(&["--in"])).err(), Some(ReportArgError::MissingInput));
    assert_eq!(parse_report_args(&words(&["--out"])).err(), Some(ReportArgError::MissingOutput));
    assert_eq!(parse_report_args(&words(&["--format"])).err(), Some(ReportArgError::MissingFormat));
    assert_eq!(
        parse_report_args(&words(&["--format", "pdf"])).err(),
        Some(ReportArgError::UnknownFormat("pdf".to_string()))
    );
    assert_eq!(
        parse_report_args(&words(&["stray"])).err(),
        Some(ReportArgError::UnknownArgument("stray".to_string()))
    );
}
