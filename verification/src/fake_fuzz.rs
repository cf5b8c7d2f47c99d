//! A stand-in for the fuzzer that fails one iteration in twenty, for testing the
//! orchestrator in isolation.

use rand::rngs::StdRng;
use vstd::prelude::*;
use vstd::string::*;

use crate::campaign::CrashReport;
use crate::campaign::reproduce_command;
use crate::campaign;
use crate::derived;
use crate::invariants::InvariantViolation;
use crate::invariants::ViolationView;
use crate::invariants;
use crate::iteration;
use crate::options;
use crate::rng::draw_range64;
use crate::rng::draw_ratio;
use crate::rng::seed_rng;
use crate::rng;
use crate::strmap;
use crate::text::parse_u64;
use crate::text::same_text;
use crate::text;

verus! {

// ---------------------------------------------------------------------------
// Configuration
// ---------------------------------------------------------------------------

/// Config derived deterministically from a seed. `P` is the type of
/// probabilities: floating-point numbers, which the caller draws.
#[derive(Debug, Clone)]
pub struct DerivedConfig<P> {
    pub nodes: u64,
    pub fail_rate: P,
    pub heartbeat_interval: u64,
    pub election_timeout_min: u64,
    pub election_timeout_max: u64,
}

/// Whether a seed gives this configuration, when the failure rate is drawn between
/// these states of the generator.
pub open spec fn derives<P>(config: DerivedConfig<P>, seed: u64, before: Seq<u32>, after: Seq<u32>) -> bool {
    let (nodes, s1) = rng::range64_draw(rng::seeded_state(seed), 0, 4);
    let (heartbeat, s3) = rng::range64_draw(after, 0, 49);
    let (min, s4) = rng::range64_draw(s3, 0, 99);
    let (max, s5) = rng::range64_draw(s4, 0, 199);
    &&& before == s1
    &&& config.nodes == 3 + nodes
    &&& config.heartbeat_interval == 50 + heartbeat
    &&& config.election_timeout_min == 150 + min
    &&& config.election_timeout_max == 300 + max
}

/// The configuration for a seed, when the failure rate is drawn by `fail_rate_draw`.
pub open spec fn derived_from<P>(seed: u64, fail_rate_draw: spec_fn(Seq<u32>) -> (P, Seq<u32>)) -> DerivedConfig<P> {
    let (nodes, s1) = rng::range64_draw(rng::seeded_state(seed), 0, 4);
    let (fail_rate, s2) = fail_rate_draw(s1);
    let (heartbeat, s3) = rng::range64_draw(s2, 0, 49);
    let (min, s4) = rng::range64_draw(s3, 0, 99);
    let (max, s5) = rng::range64_draw(s4, 0, 199);
    DerivedConfig {
        nodes: (3 + nodes) as u64,
        fail_rate,
        heartbeat_interval: (50 + heartbeat) as u64,
        election_timeout_min: (150 + min) as u64,
        election_timeout_max: (300 + max) as u64,
    }
}

impl<P> DerivedConfig<P> {
    /// The configuration for a seed. The values are drawn in a fixed order from one
    /// generator; the failure rate is drawn by the caller in its turn. Where it is drawn
    /// by the same rule, equal seeds give equal configurations.
    pub fn from_seed<F: FnOnce(StdRng) -> (P, StdRng)>(seed: u64, draw_fail_rate: F) -> (config: Self)
        requires
            forall|r: StdRng| #[trigger] draw_fail_rate.requires((r,)),
        ensures
            3 <= config.nodes <= 7,
            50 <= config.heartbeat_interval < 100,
            150 <= config.election_timeout_min < 250,
            300 <= config.election_timeout_max < 500,
            exists|r1: StdRng, r2: StdRng| #[trigger]
                draw_fail_rate.ensures((r1,), (config.fail_rate, r2)) && derives(
                    config,
                    seed,
                    rng::rng_state(r1),
                    rng::rng_state(r2),
                ),
            forall|f: spec_fn(Seq<u32>) -> (P, Seq<u32>)| #[trigger]
                derived::draws_by(draw_fail_rate, f) ==> config == derived_from(seed, f),
    {
        let mut r1 = seed_rng(seed);
        let nodes: u64 = 3 + draw_range64(&mut r1, 0, 4);
        let ghost g1 = r1;
        let (fail_rate, mut r2) = draw_fail_rate(r1);
        let ghost g2 = r2;
        let heartbeat_interval: u64 = 50 + draw_range64(&mut r2, 0, 49);
        let election_timeout_min: u64 = 150 + draw_range64(&mut r2, 0, 99);
        let election_timeout_max: u64 = 300 + draw_range64(&mut r2, 0, 199);
        let config = DerivedConfig {
            nodes,
            fail_rate,
            heartbeat_interval,
            election_timeout_min,
            election_timeout_max,
        };
        assert(draw_fail_rate.ensures((g1,), (config.fail_rate, g2)));
        assert(derives(config, seed, rng::rng_state(g1), rng::rng_state(g2)));
        config
    }
}

// ---------------------------------------------------------------------------
// Iterations
// ---------------------------------------------------------------------------

/// What comes of an iteration.
#[derive(Debug, Clone, Copy, PartialEq, Eq, Structural)]
pub enum Outcome {
    Passed,
    Failed { steps_completed: u64 },
    /// The iteration fails, and so few steps are allowed that there is no number of
    /// steps to fail after.
    NoSteps,
}

/// What comes of the iteration with a seed.
pub open spec fn spec_outcome(iteration_seed: u64, max_steps: u64) -> Outcome {
    let (fails, s1) = rng::ratio_draw(rng::seeded_state(iteration::offset_seed(iteration_seed, 999)), 1, 20);
    let limit = if max_steps < 50000 {
        max_steps
    } else {
        50000
    };
    if !fails {
        Outcome::Passed
    } else if limit <= 1000 {
        Outcome::NoSteps
    } else {
        Outcome::Failed { steps_completed: rng::range64_draw(s1, 1000, (limit - 1) as u64).0 }
    }
}

/// What comes of the iteration with a seed, in fuzz mode as in reproduce mode.
pub fn outcome(iteration_seed: u64, max_steps: u64) -> (outcome: Outcome)
    ensures
        outcome == spec_outcome(iteration_seed, max_steps),
        outcome matches Outcome::Failed { steps_completed } ==> 1000 <= steps_completed < max_steps
            && steps_completed < 50000,
{
    let mut iteration_rng = seed_rng(iteration_seed.wrapping_add(999));
    if !draw_ratio(&mut iteration_rng, 1, 20) {
        return Outcome::Passed;
    }
    let limit: u64 = if max_steps < 50000 {
        max_steps
    } else {
        50000
    };
    if limit <= 1000 {
        return Outcome::NoSteps;
    }
    Outcome::Failed { steps_completed: draw_range64(&mut iteration_rng, 1000, limit - 1) }
}

/// What comes of fuzz mode.
#[derive(Debug, Clone, Copy, PartialEq, Eq, Structural)]
pub struct FuzzRun {
    /// How many iterations were to be made.
    pub num_iterations: u64,
    /// The first iteration that did not pass, if any.
    pub failed: Option<u64>,
}

/// Runs the iterations from a base seed on, up to the first that does not pass.
pub fn fuzz_run(base_seed: u64, max_steps: u64) -> (run: FuzzRun)
    ensures
        50 <= run.num_iterations < 200,
        run.num_iterations == rng::range64_draw(rng::seeded_state(base_seed), 50, 199).0,
        match run.failed {
            Some(at) => {
                &&& at < run.num_iterations
                &&& spec_outcome(campaign::iteration_seed(base_seed, at), max_steps) != Outcome::Passed
                &&& forall|i: u64|
                    i < at ==> #[trigger] spec_outcome(campaign::iteration_seed(base_seed, i), max_steps)
                        == Outcome::Passed
            },
            None => forall|i: u64|
                i < run.num_iterations ==> #[trigger] spec_outcome(campaign::iteration_seed(base_seed, i), max_steps)
                    == Outcome::Passed,
        },
{
    let mut base_rng = seed_rng(base_seed);
    let num_iterations: u64 = draw_range64(&mut base_rng, 50, 199);
    let mut i: u64 = 0;
    while i < num_iterations
        invariant
            i <= num_iterations,
            50 <= num_iterations < 200,
            num_iterations == rng::range64_draw(rng::seeded_state(base_seed), 50, 199).0,
            forall|j: u64|
                j < i ==> #[trigger] spec_outcome(campaign::iteration_seed(base_seed, j), max_steps)
                    == Outcome::Passed,
        decreases num_iterations - i,
    {
        if outcome(base_seed.wrapping_add(i), max_steps) != Outcome::Passed {
            return FuzzRun { num_iterations, failed: Some(i) };
        }
        i = i + 1;
    }
    FuzzRun { num_iterations, failed: None }
}

/// The violation that every failure reports.
pub fn reported_violation() -> (violation: InvariantViolation)
    ensures
        violation@ == (ViolationView::MultipleLeadersInTerm { term: 5, leaders: seq![1u64, 3u64] }),
{
    let mut leaders: Vec<u64> = Vec::new();
    leaders.push(1);
    leaders.push(3);
    assert(leaders@ =~= seq![1u64, 3u64]);
    InvariantViolation::MultipleLeadersInTerm { term: 5, leaders }
}

/// The report of a failure.
pub fn crash_report(base_seed: u64, iteration: u64, max_steps: u64, steps_completed: u64) -> (report: CrashReport)
    ensures
        report.base_seed == base_seed,
        report.iteration == iteration,
        report.iteration_seed == campaign::iteration_seed(base_seed, iteration),
        report.max_steps == max_steps,
        report.steps_completed == steps_completed,
        report.violation matches Some(violation) && violation@ == invariants::violation_record(
            ViolationView::MultipleLeadersInTerm { term: 5, leaders: seq![1u64, 3u64] },
        ),
        report.command@ == campaign::command_text(
            campaign::iteration_seed(base_seed, iteration),
            max_steps,
            None,
            None,
            None,
            false,
        ),
{
    let iteration_seed: u64 = base_seed.wrapping_add(iteration);
    CrashReport {
        base_seed,
        iteration,
        iteration_seed,
        max_steps,
        steps_completed,
        violation: Some(reported_violation().to_record()),
        command: reproduce_command(iteration_seed, max_steps, None, None, None, false),
    }
}

// ---------------------------------------------------------------------------
// The command line
// ---------------------------------------------------------------------------

/// What the command line asks for.
#[derive(Debug, Clone)]
pub enum Command {
    Help,
    Reproduce { iteration_seed: u64, max_steps: u64 },
    Fuzz { base_seed: u64, max_steps: u64, crash_file: Option<String> },
    /// Neither mode was asked for.
    NoSeed,
}

/// What is wrong with the command line.
#[derive(Debug, Clone, Copy, PartialEq, Eq, Structural)]
pub enum CommandError {
    /// An option stands last, without its value.
    MissingValue,
    /// The value of `--seed` is not a number.
    InvalidSeed,
    /// The value of `--reproduce` is not a number.
    InvalidReproduceSeed,
}

/// What was read of the command line so far, with text in place of strings.
pub struct Settings {
    pub base_seed: Option<u64>,
    pub reproduce_seed: Option<u64>,
    pub max_steps: u64,
    pub crash_file: Option<Seq<char>>,
}

/// What a command line asks for, or what is wrong with it, with text in place of
/// strings.
pub enum CommandView {
    Help,
    Reproduce { iteration_seed: u64, max_steps: u64 },
    Fuzz { base_seed: u64, max_steps: u64, crash_file: Option<Seq<char>> },
    NoSeed,
    Wrong(CommandError),
}

/// The result of [`parse_args`] with text in place of strings.
pub open spec fn command_view(result: Result<Command, CommandError>) -> CommandView {
    match result {
        Ok(Command::Help) => CommandView::Help,
        Ok(Command::Reproduce { iteration_seed, max_steps }) => CommandView::Reproduce { iteration_seed, max_steps },
        Ok(Command::Fuzz { base_seed, max_steps, crash_file }) => CommandView::Fuzz {
            base_seed,
            max_steps,
            crash_file: options::text_of(crash_file),
        },
        Ok(Command::NoSeed) => CommandView::NoSeed,
        Err(error) => CommandView::Wrong(error),
    }
}

/// What the settings ask for: a seed to reproduce goes before a base seed.
pub open spec fn command_for(settings: Settings) -> CommandView {
    match settings.reproduce_seed {
        Some(iteration_seed) => CommandView::Reproduce { iteration_seed, max_steps: settings.max_steps },
        None => match settings.base_seed {
            Some(base_seed) => CommandView::Fuzz {
                base_seed,
                max_steps: settings.max_steps,
                crash_file: settings.crash_file,
            },
            None => CommandView::NoSeed,
        },
    }
}

/// What a command line asks for, read from the left. An argument that names no
/// option is passed over, and a limit that is not a number is the default one.
pub open spec fn parsed(settings: Settings, args: Seq<Seq<char>>) -> CommandView
    decreases args.len(),
{
    if args.len() == 0 {
        command_for(settings)
    } else if args[0] == "--seed"@ || args[0] == "-s"@ {
        if args.len() == 1 {
            CommandView::Wrong(CommandError::MissingValue)
        } else {
            match text::parsed_u64(args[1]) {
                Some(n) => parsed(Settings { base_seed: Some(n), ..settings }, args.skip(2)),
                None => CommandView::Wrong(CommandError::InvalidSeed),
            }
        }
    } else if args[0] == "--reproduce"@ || args[0] == "-r"@ {
        if args.len() == 1 {
            CommandView::Wrong(CommandError::MissingValue)
        } else {
            match text::parsed_u64(args[1]) {
                Some(n) => parsed(Settings { reproduce_seed: Some(n), ..settings }, args.skip(2)),
                None => CommandView::Wrong(CommandError::InvalidReproduceSeed),
            }
        }
    } else if args[0] == "--max-steps"@ {
        if args.len() == 1 {
            CommandView::Wrong(CommandError::MissingValue)
        } else {
            let max_steps = match text::parsed_u64(args[1]) {
                Some(n) => n,
                None => 100_000,
            };
            parsed(Settings { max_steps, ..settings }, args.skip(2))
        }
    } else if args[0] == "--crash-file"@ {
        if args.len() == 1 {
            CommandView::Wrong(CommandError::MissingValue)
        } else {
            parsed(Settings { crash_file: Some(args[1]), ..settings }, args.skip(2))
        }
    } else if args[0] == "--help"@ || args[0] == "-h"@ {
        CommandView::Help
    } else {
        parsed(settings, args.skip(1))
    }
}

/// The settings when no option is given.
pub open spec fn default_settings() -> Settings {
    Settings { base_seed: None, reproduce_seed: None, max_steps: 100_000, crash_file: None }
}

/// Reads the arguments; the first one is the name of the program.
pub fn parse_args(args: &Vec<String>) -> (result: Result<Command, CommandError>)
    ensures
        command_view(result) == parsed(default_settings(), options::behind_name(strmap::text_views(args@))),
{
    if args.len() == 0 {
        return Ok(Command::NoSeed);
    }
    let ghost texts = strmap::text_views(args@);
    let mut base_seed: Option<u64> = None;
    let mut reproduce_seed: Option<u64> = None;
    let mut max_steps: u64 = 100_000;
    let mut crash_file: Option<String> = None;
    let mut i: usize = 1;
    while i < args.len()
        invariant
            1 <= i <= args@.len(),
            texts == strmap::text_views(args@),
            parsed(default_settings(), texts.skip(1)) == parsed(
                Settings { base_seed, reproduce_seed, max_steps, crash_file: options::text_of(crash_file) },
                texts.skip(i as int),
            ),
        decreases args.len() - i,
    {
        let ghost here = texts.skip(i as int);
        assert(here[0] == args@[i as int]@);
        assert(here.skip(1) =~= texts.skip(i + 1));
        let seed_option = same_text(&args[i], "--seed") || same_text(&args[i], "-s");
        let reproduce_option = same_text(&args[i], "--reproduce") || same_text(&args[i], "-r");
        let steps_option = same_text(&args[i], "--max-steps");
        let crash_option = same_text(&args[i], "--crash-file");
        if seed_option || reproduce_option || steps_option || crash_option {
            if i + 1 == args.len() {
                return Err(CommandError::MissingValue);
            }
            assert(here[1] == args@[i + 1]@);
            assert(here.skip(2) =~= texts.skip(i + 2));
            let value = &args[i + 1];
            let number: Option<u64> = parse_u64(value.as_str());
            if seed_option {
                if number.is_none() {
                    return Err(CommandError::InvalidSeed);
                }
                base_seed = number;
            } else if reproduce_option {
                if number.is_none() {
                    return Err(CommandError::InvalidReproduceSeed);
                }
                reproduce_seed = number;
            } else if steps_option {
                max_steps = match number {
                    Some(n) => n,
                    None => 100_000,
                };
            } else {
                crash_file = Some(value.clone());
            }
            i = i + 2;
        } else if same_text(&args[i], "--help") || same_text(&args[i], "-h") {
            return Ok(Command::Help);
        } else {
            i = i + 1;
        }
    }
    assert(texts.skip(i as int).len() == 0);
    match reproduce_seed {
        Some(iteration_seed) => Ok(Command::Reproduce { iteration_seed, max_steps }),
        None => match base_seed {
            Some(base_seed) => Ok(Command::Fuzz { base_seed, max_steps, crash_file }),
            None => Ok(Command::NoSeed),
        },
    }
}

// ---------------------------------------------------------------------------
// Laws
// ---------------------------------------------------------------------------

/// An iteration fails if the draw of one in twenty says so, from a generator of its own. It
/// then fails after a drawn number of steps, from a thousand on and below the limit and
/// below fifty thousand, where there is such a number.
pub proof fn iterations_fail_by_chance(iteration_seed: u64, max_steps: u64, own_seed: u64)
    requires
        own_seed == iteration_seed + 999 || own_seed == iteration_seed + 999 - 0x1_0000_0000_0000_0000,
    ensures
        ({
            let (fails, after) = rng::ratio_draw(rng::seeded_state(own_seed), 1, 20);
            let outcome = spec_outcome(iteration_seed, max_steps);
            &&& !fails ==> outcome == Outcome::Passed
            &&& fails && max_steps <= 1000 ==> outcome == Outcome::NoSteps
            &&& fails && 1000 < max_steps <= 50000 ==> outcome == (Outcome::Failed {
                steps_completed: rng::range64_draw(after, 1000, (max_steps - 1) as u64).0,
            })
            &&& fails && max_steps > 50000 ==> outcome == (Outcome::Failed {
                steps_completed: rng::range64_draw(after, 1000, 49999).0,
            })
        }),
{
}

/// The values of a configuration are drawn from the generator of its seed one after the
/// other.
pub proof fn values_are_drawn_in_order<P>(
    seed: u64,
    fail_rate_draw: spec_fn(Seq<u32>) -> (P, Seq<u32>),
    s: Seq<Seq<u32>>,
)
    requires
        s.len() == 5,
        s[0] == rng::seeded_state(seed),
        s[1] == rng::range64_draw(s[0], 0, 4).1,
        s[2] == fail_rate_draw(s[1]).1,
        s[3] == rng::range64_draw(s[2], 0, 49).1,
        s[4] == rng::range64_draw(s[3], 0, 99).1,
        rng::range64_draw(s[0], 0, 4).0 <= 4,
        rng::range64_draw(s[2], 0, 49).0 <= 49,
        rng::range64_draw(s[3], 0, 99).0 <= 99,
        rng::range64_draw(s[4], 0, 199).0 <= 199,
    ensures
        ({
            let config = derived_from(seed, fail_rate_draw);
            &&& config.nodes == 3 + rng::range64_draw(s[0], 0, 4).0
            &&& config.fail_rate == fail_rate_draw(s[1]).0
            &&& config.heartbeat_interval == 50 + rng::range64_draw(s[2], 0, 49).0
            &&& config.election_timeout_min == 150 + rng::range64_draw(s[3], 0, 99).0
            &&& config.election_timeout_max == 300 + rng::range64_draw(s[4], 0, 199).0
        }),
{
}

/// A seed to reproduce goes before a base seed, and without either there is nothing to run.
pub proof fn commands_follow_the_seeds(settings: Settings, seed: u64)
    ensures
        settings.reproduce_seed == Some(seed) ==> command_for(settings) == (CommandView::Reproduce {
            iteration_seed: seed,
            max_steps: settings.max_steps,
        }),
        settings.reproduce_seed is None && settings.base_seed == Some(seed) ==> command_for(settings) == (
        CommandView::Fuzz { base_seed: seed, max_steps: settings.max_steps, crash_file: settings.crash_file }),
        settings.reproduce_seed is None && settings.base_seed is None ==> command_for(settings) == CommandView::NoSeed,
        default_settings().base_seed is None,
        default_settings().reproduce_seed is None,
        default_settings().max_steps == 100_000,
        default_settings().crash_file is None,
{
}

/// The command line is read from the left: an option takes the next argument for its value
/// and sets that value alone. A seed has to be a number, a limit that is none is the default
/// one, and an argument that names no option is passed over.
pub proof fn arguments_are_read_from_the_left(
    settings: Settings,
    name: Seq<char>,
    value: Seq<char>,
    rest: Seq<Seq<char>>,
)
    ensures
        parsed(settings, Seq::empty()) == command_for(settings),
        name == "--seed"@ || name == "-s"@ ==> {
            &&& parsed(settings, seq![name]) == CommandView::Wrong(CommandError::MissingValue)
            &&& parsed(settings, seq![name, value] + rest) == match text::parsed_u64(value) {
                Some(n) => parsed(Settings { base_seed: Some(n), ..settings }, rest),
                None => CommandView::Wrong(CommandError::InvalidSeed),
            }
        },
        name == "--reproduce"@ || name == "-r"@ ==> {
            &&& parsed(settings, seq![name]) == CommandView::Wrong(CommandError::MissingValue)
            &&& parsed(settings, seq![name, value] + rest) == match text::parsed_u64(value) {
                Some(n) => parsed(Settings { reproduce_seed: Some(n), ..settings }, rest),
                None => CommandView::Wrong(CommandError::InvalidReproduceSeed),
            }
        },
        name == "--max-steps"@ ==> {
            &&& parsed(settings, seq![name]) == CommandView::Wrong(CommandError::MissingValue)
            &&& parsed(settings, seq![name, value] + rest) == match text::parsed_u64(value) {
                Some(n) => parsed(Settings { max_steps: n, ..settings }, rest),
                None => parsed(Settings { max_steps: 100_000, ..settings }, rest),
            }
        },
        name == "--crash-file"@ ==> {
            &&& parsed(settings, seq![name]) == CommandView::Wrong(CommandError::MissingValue)
            &&& parsed(settings, seq![name, value] + rest) == parsed(
                Settings { crash_file: Some(value), ..settings },
                rest,
            )
        },
        name == "--help"@ || name == "-h"@ ==> parsed(settings, seq![name] + rest) == CommandView::Help,
        name != "--seed"@ && name != "-s"@ && name != "--reproduce"@ && name != "-r"@ && name != "--max-steps"@ && name
            != "--crash-file"@ && name != "--help"@ && name != "-h"@ ==> parsed(settings, seq![name] + rest) == parsed(
            settings,
            rest,
        ),
{
    let one = seq![name] + rest;
    let two = seq![name, value] + rest;
    assert(one[0] == name);
    assert(one.skip(1) =~= rest);
    assert(two[0] == name && two[1] == value);
    assert(two.skip(2) =~= rest);
    assert(seq![name][0] == name);
    options::option_names(name);
}

} // verus!
