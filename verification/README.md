# ages

The deterministic core of a planet-and-civilisation simulator, written in
Verus: every function in `src/` carries a `requires`/`ensures` contract that
Verus proves, and the library's laws stand there as public proof functions.

## Layout

- `src/arith.rs`, `src/transcendental.rs`: Q32.32 fixed-point reals and their
  square root, exponential, logarithm and trigonometry.
- `src/discovery/`: the hypothesizer (sample windows, fitting outcomes,
  confirmation, revalidation, refinement, measurement relations), perception
  channels, template and tool emergence.
- `src/catastrophe/`: triggers, cooldowns, damage and dormancy, cell
  targeting on the hex torus, the spread of a strike to a cell and its
  neighbours, and the five handlers with their dispatch.
- `src/conflict/`: war assessment and resolution, grudges, alliances.
- `src/capacity.rs`, `src/cohort.rs`, `src/demographics.rs`, `src/drift.rs`,
  `src/economy.rs`: carrying capacity, cohorts and seed-bank revival,
  population dynamics, species drift, surplus and trade.
- `src/cosmology.rs`, `src/religion.rs`, `src/culture_hooks.rs`,
  `src/archetype.rs`: culture and the world's archetype classification.
- `src/cli.rs`, `src/planet_builder.rs`: command-line parsing and the
  interactive planet builder as a state machine.
- `src/protocol/`: the event and snapshot records.
- `tests/`: tests run against the compiled library.
- `app/`: the program around the library (argument handling, prompts, the
  engine loop and terminal output).
