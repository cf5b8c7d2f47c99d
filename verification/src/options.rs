//! The command line of the fuzzer.

use vstd::prelude::*;
use vstd::string::*;

use crate::strmap;
use crate::text;
use crate::text::parse_u64;
use crate::text::same_text;

verus! {

/// Fuzzer configuration from command line.
#[derive(Debug, Clone)]
pub struct FuzzConfig {
    /// Base seed for fuzz mode.
    pub base_seed: Option<u64>,
    /// Exact seed for reproduce mode.
    pub reproduce_seed: Option<u64>,
    /// Maximum steps per iteration.
    pub max_steps: u64,
    /// Number of iterations to run (0 = forever).
    pub iterations: u64,
    /// Path to write crash info.
    pub crash_file: Option<String>,
    /// Cluster size, in place of the one derived from the seed.
    pub nodes: Option<u64>,
    /// Probability of message failure, as it was written, in place of the one
    /// derived from the seed.
    pub fail_rate: Option<String>,
    /// Whether no partitions and holds are injected, whatever the seed says.
    pub no_chaos: bool,
}

/// A configuration with text in place of strings.
pub struct FuzzConfigView {
    pub base_seed: Option<u64>,
    pub reproduce_seed: Option<u64>,
    pub max_steps: u64,
    pub iterations: u64,
    pub crash_file: Option<Seq<char>>,
    pub nodes: Option<u64>,
    pub fail_rate: Option<Seq<char>>,
    pub no_chaos: bool,
}

/// A string as text, if there is one.
pub open spec fn text_of(string: Option<String>) -> Option<Seq<char>> {
    match string {
        Some(s) => Some(s@),
        None => None,
    }
}

impl View for FuzzConfig {
    type V = FuzzConfigView;

    open spec fn view(&self) -> FuzzConfigView {
        FuzzConfigView {
            base_seed: self.base_seed,
            reproduce_seed: self.reproduce_seed,
            max_steps: self.max_steps,
            iterations: self.iterations,
            crash_file: text_of(self.crash_file),
            nodes: self.nodes,
            fail_rate: text_of(self.fail_rate),
            no_chaos: self.no_chaos,
        }
    }
}

/// The configuration when no option is given.
pub open spec fn default_config() -> FuzzConfigView {
    FuzzConfigView {
        base_seed: None,
        reproduce_seed: None,
        max_steps: 100_000,
        iterations: 100,
        crash_file: None,
        nodes: None,
        fail_rate: None,
        no_chaos: false,
    }
}

impl Default for FuzzConfig {
    fn default() -> (config: Self)
        ensures
            config@ == default_config(),
    {
        FuzzConfig {
            base_seed: None,
            reproduce_seed: None,
            max_steps: 100_000,
            iterations: 100,
            crash_file: None,
            nodes: None,
            fail_rate: None,
            no_chaos: false,
        }
    }
}

/// The options of the command line.
#[derive(Debug, Clone, Copy, PartialEq, Eq, Structural)]
pub enum FuzzOption {
    Seed,
    Reproduce,
    MaxSteps,
    Iterations,
    CrashFile,
    Nodes,
    FailRate,
    NoChaos,
    Help,
}

/// The option that an argument names.
pub open spec fn spec_option(argument: Seq<char>) -> Option<FuzzOption> {
    if argument == "--seed"@ || argument == "-s"@ {
        Some(FuzzOption::Seed)
    } else if argument == "--reproduce"@ || argument == "-r"@ {
        Some(FuzzOption::Reproduce)
    } else if argument == "--max-steps"@ || argument == "--steps"@ {
        Some(FuzzOption::MaxSteps)
    } else if argument == "--iterations"@ || argument == "-i"@ {
        Some(FuzzOption::Iterations)
    } else if argument == "--crash-file"@ {
        Some(FuzzOption::CrashFile)
    } else if argument == "--nodes"@ || argument == "-n"@ {
        Some(FuzzOption::Nodes)
    } else if argument == "--fail-rate"@ || argument == "-f"@ {
        Some(FuzzOption::FailRate)
    } else if argument == "--no-chaos"@ {
        Some(FuzzOption::NoChaos)
    } else if argument == "--help"@ || argument == "-h"@ {
        Some(FuzzOption::Help)
    } else {
        None
    }
}

/// The option that an argument names.
pub fn option(argument: &String) -> (option: Option<FuzzOption>)
    ensures
        option == spec_option(argument@),
{
    if same_text(argument, "--seed") || same_text(argument, "-s") {
        Some(FuzzOption::Seed)
    } else if same_text(argument, "--reproduce") || same_text(argument, "-r") {
        Some(FuzzOption::Reproduce)
    } else if same_text(argument, "--max-steps") || same_text(argument, "--steps") {
        Some(FuzzOption::MaxSteps)
    } else if same_text(argument, "--iterations") || same_text(argument, "-i") {
        Some(FuzzOption::Iterations)
    } else if same_text(argument, "--crash-file") {
        Some(FuzzOption::CrashFile)
    } else if same_text(argument, "--nodes") || same_text(argument, "-n") {
        Some(FuzzOption::Nodes)
    } else if same_text(argument, "--fail-rate") || same_text(argument, "-f") {
        Some(FuzzOption::FailRate)
    } else if same_text(argument, "--no-chaos") {
        Some(FuzzOption::NoChaos)
    } else if same_text(argument, "--help") || same_text(argument, "-h") {
        Some(FuzzOption::Help)
    } else {
        None
    }
}

/// What the command line asks for.
#[derive(Debug, Clone)]
pub enum FuzzCommand {
    Run(FuzzConfig),
    Help,
}

/// What is wrong with the command line.
#[derive(Debug, Clone)]
pub enum ArgError {
    /// The argument names no option.
    Unknown(String),
    /// The option stands last, without its value.
    MissingValue(FuzzOption),
    /// The value of the option is not a number.
    InvalidValue(FuzzOption),
}

/// What a command line asks for, or what is wrong with it, with text in place of
/// strings.
pub enum ParseView {
    Run(FuzzConfigView),
    Help,
    Unknown(Seq<char>),
    MissingValue(FuzzOption),
    InvalidValue(FuzzOption),
}

/// The result of [`parse_args`] with text in place of strings.
pub open spec fn parse_view(result: Result<FuzzCommand, ArgError>) -> ParseView {
    match result {
        Ok(FuzzCommand::Run(config)) => ParseView::Run(config@),
        Ok(FuzzCommand::Help) => ParseView::Help,
        Err(ArgError::Unknown(argument)) => ParseView::Unknown(argument@),
        Err(ArgError::MissingValue(option)) => ParseView::MissingValue(option),
        Err(ArgError::InvalidValue(option)) => ParseView::InvalidValue(option),
    }
}

/// A configuration with the value of an option set, unless the value is not a
/// number and has to be one.
pub open spec fn with_value(config: FuzzConfigView, option: FuzzOption, value: Seq<char>) -> Option<FuzzConfigView> {
    match option {
        FuzzOption::CrashFile => Some(FuzzConfigView { crash_file: Some(value), ..config }),
        FuzzOption::FailRate => Some(FuzzConfigView { fail_rate: Some(value), ..config }),
        _ => match text::parsed_u64(value) {
            None => None,
            Some(n) => Some(
                match option {
                    FuzzOption::Seed => FuzzConfigView { base_seed: Some(n), ..config },
                    FuzzOption::Reproduce => FuzzConfigView { reproduce_seed: Some(n), ..config },
                    FuzzOption::MaxSteps => FuzzConfigView { max_steps: n, ..config },
                    FuzzOption::Iterations => FuzzConfigView { iterations: n, ..config },
                    FuzzOption::Nodes => FuzzConfigView { nodes: Some(n), ..config },
                    _ => config,
                },
            ),
        },
    }
}

/// What a command line asks for, read from the left: each argument names an
/// option, most of them have a value in the next argument, and a later option
/// overrides an earlier one.
pub open spec fn parsed(config: FuzzConfigView, args: Seq<Seq<char>>) -> ParseView
    decreases args.len(),
{
    if args.len() == 0 {
        ParseView::Run(config)
    } else {
        match spec_option(args[0]) {
            None => ParseView::Unknown(args[0]),
            Some(FuzzOption::Help) => ParseView::Help,
            Some(FuzzOption::NoChaos) => parsed(FuzzConfigView { no_chaos: true, ..config }, args.skip(1)),
            Some(option) => if args.len() == 1 {
                ParseView::MissingValue(option)
            } else {
                match with_value(config, option, args[1]) {
                    None => ParseView::InvalidValue(option),
                    Some(next) => parsed(next, args.skip(2)),
                }
            },
        }
    }
}

/// Sets the value of an option.
fn set_value(config: &mut FuzzConfig, option: FuzzOption, value: &String) -> (valid: bool)
    requires
        option != FuzzOption::NoChaos,
        option != FuzzOption::Help,
    ensures
        match with_value(old(config)@, option, value@) {
            Some(next) => valid && final(config)@ == next,
            None => !valid && final(config)@ == old(config)@,
        },
{
    if matches!(option, FuzzOption::CrashFile) {
        config.crash_file = Some(value.clone());
        return true;
    }
    if matches!(option, FuzzOption::FailRate) {
        config.fail_rate = Some(value.clone());
        return true;
    }
    match parse_u64(value.as_str()) {
        None => false,
        Some(n) => {
            match option {
                FuzzOption::Seed => config.base_seed = Some(n),
                FuzzOption::Reproduce => config.reproduce_seed = Some(n),
                FuzzOption::MaxSteps => config.max_steps = n,
                FuzzOption::Iterations => config.iterations = n,
                _ => config.nodes = Some(n),
            }
            true
        },
    }
}

/// The arguments behind the name of the program.
pub open spec fn behind_name(args: Seq<Seq<char>>) -> Seq<Seq<char>> {
    if args.len() == 0 {
        args
    } else {
        args.skip(1)
    }
}

/// Reads the arguments of the fuzzer; the first one is the name of the program.
pub fn parse_args(args: &Vec<String>) -> (result: Result<FuzzCommand, ArgError>)
    ensures
        parse_view(result) == parsed(default_config(), behind_name(strmap::text_views(args@))),
{
    if args.len() == 0 {
        return Ok(FuzzCommand::Run(FuzzConfig::default()));
    }
    let ghost texts = strmap::text_views(args@);
    let mut config = FuzzConfig::default();
    let mut i: usize = 1;
    while i < args.len()
        invariant
            1 <= i <= args@.len(),
            texts == strmap::text_views(args@),
            parsed(default_config(), texts.skip(1)) == parsed(config@, texts.skip(i as int)),
        decreases args.len() - i,
    {
        let ghost here = texts.skip(i as int);
        assert(here[0] == args@[i as int]@);
        assert(here.skip(1) =~= texts.skip(i + 1));
        match option(&args[i]) {
            None => {
                return Err(ArgError::Unknown(args[i].clone()));
            },
            Some(FuzzOption::Help) => {
                return Ok(FuzzCommand::Help);
            },
            Some(FuzzOption::NoChaos) => {
                config.no_chaos = true;
                i = i + 1;
            },
            Some(option) => {
                if i + 1 == args.len() {
                    return Err(ArgError::MissingValue(option));
                }
                assert(here[1] == args@[i + 1]@);
                assert(here.skip(2) =~= texts.skip(i + 2));
                if !set_value(&mut config, option, &args[i + 1]) {
                    return Err(ArgError::InvalidValue(option));
                }
                i = i + 2;
            },
        }
    }
    assert(texts.skip(i as int).len() == 0);
    Ok(FuzzCommand::Run(config))
}

/// What a value of an option is called in messages.
pub open spec fn value_name(option: FuzzOption) -> Seq<char> {
    match option {
        FuzzOption::Seed => "seed"@,
        FuzzOption::Reproduce => "reproduce seed"@,
        FuzzOption::MaxSteps => "max-steps"@,
        FuzzOption::Iterations => "iterations"@,
        FuzzOption::CrashFile => "crash-file"@,
        FuzzOption::Nodes => "nodes"@,
        FuzzOption::FailRate => "fail-rate"@,
        FuzzOption::NoChaos => "no-chaos"@,
        FuzzOption::Help => "help"@,
    }
}

impl FuzzOption {
    /// What the value of the option is called in messages.
    pub fn value_name(self) -> (name: String)
        ensures
            name@ == value_name(self),
    {
        match self {
            FuzzOption::Seed => String::from_str("seed"),
            FuzzOption::Reproduce => String::from_str("reproduce seed"),
            FuzzOption::MaxSteps => String::from_str("max-steps"),
            FuzzOption::Iterations => String::from_str("iterations"),
            FuzzOption::CrashFile => String::from_str("crash-file"),
            FuzzOption::Nodes => String::from_str("nodes"),
            FuzzOption::FailRate => String::from_str("fail-rate"),
            FuzzOption::NoChaos => String::from_str("no-chaos"),
            FuzzOption::Help => String::from_str("help"),
        }
    }
}

impl ArgError {
    /// The error as text.
    pub fn to_string(&self) -> (message: String)
        ensures
            message@ == match *self {
                ArgError::Unknown(argument) => "Unknown option: "@ + argument@,
                ArgError::MissingValue(option) => "Missing "@ + value_name(option),
                ArgError::InvalidValue(option) => "Invalid "@ + value_name(option),
            },
    {
        match self {
            ArgError::Unknown(argument) => String::from_str("Unknown option: ").concat(argument.as_str()),
            ArgError::MissingValue(option) => String::from_str("Missing ").concat(option.value_name().as_str()),
            ArgError::InvalidValue(option) => String::from_str("Invalid ").concat(option.value_name().as_str()),
        }
    }
}

/// The mode that the fuzzer runs in.
#[derive(Debug, Clone, Copy, PartialEq, Eq, Structural)]
pub enum FuzzMode {
    /// Run a single iteration with this seed.
    Reproduce { iteration_seed: u64 },
    /// Run iterations with this seed and those after it.
    Fuzz { base_seed: u64 },
}

/// The mode that a configuration asks for: a seed to reproduce goes before a base
/// seed, and without either the clock gives the base seed.
pub open spec fn asked_mode(config: FuzzConfigView, clock_nanos: u64) -> FuzzMode {
    match config.reproduce_seed {
        Some(iteration_seed) => FuzzMode::Reproduce { iteration_seed },
        None => FuzzMode::Fuzz {
            base_seed: match config.base_seed {
                Some(seed) => seed,
                None => clock_nanos,
            },
        },
    }
}

impl FuzzConfig {
    /// The mode that the configuration asks for: a seed to reproduce goes before a
    /// base seed, and without either the clock gives the base seed.
    pub fn mode(&self, clock_nanos: u64) -> (mode: FuzzMode)
        ensures
            mode == asked_mode(self@, clock_nanos),
    {
        match self.reproduce_seed {
            Some(iteration_seed) => FuzzMode::Reproduce { iteration_seed },
            None => FuzzMode::Fuzz {
                base_seed: match self.base_seed {
                    Some(seed) => seed,
                    None => clock_nanos,
                },
            },
        }
    }
}

/// The long names of the options are told apart.
pub proof fn lemma_options_are_read()
    ensures
        spec_option("--seed"@) == Some(FuzzOption::Seed),
        spec_option("--reproduce"@) == Some(FuzzOption::Reproduce),
        spec_option("--max-steps"@) == Some(FuzzOption::MaxSteps),
        spec_option("--iterations"@) == Some(FuzzOption::Iterations),
        spec_option("--crash-file"@) == Some(FuzzOption::CrashFile),
        spec_option("--nodes"@) == Some(FuzzOption::Nodes),
        spec_option("--fail-rate"@) == Some(FuzzOption::FailRate),
        spec_option("--no-chaos"@) == Some(FuzzOption::NoChaos),
{
    reveal_strlit("--seed");
    reveal_strlit("-s");
    reveal_strlit("--reproduce");
    reveal_strlit("-r");
    reveal_strlit("--max-steps");
    reveal_strlit("--steps");
    reveal_strlit("--iterations");
    reveal_strlit("-i");
    reveal_strlit("--crash-file");
    reveal_strlit("--nodes");
    reveal_strlit("-n");
    reveal_strlit("--fail-rate");
    reveal_strlit("-f");
    reveal_strlit("--no-chaos");
    assert("--seed"@.len() == 6 && "-s"@.len() == 2 && "-r"@.len() == 2 && "-i"@.len() == 2);
    assert("-n"@.len() == 2 && "-f"@.len() == 2);
    assert("--reproduce"@.len() == 11 && "--reproduce"@[2] == 'r');
    assert("--max-steps"@.len() == 11 && "--max-steps"@[2] == 'm');
    assert("--steps"@.len() == 7 && "--steps"@[2] == 's');
    assert("--nodes"@.len() == 7 && "--nodes"@[2] == 'n');
    assert("--iterations"@.len() == 12 && "--iterations"@[2] == 'i');
    assert("--crash-file"@.len() == 12 && "--crash-file"@[2] == 'c');
    assert("--fail-rate"@.len() == 11 && "--fail-rate"@[2] == 'f');
    assert("--no-chaos"@.len() == 10);
}

/// Every option has its names, and nothing else names an option.
pub proof fn option_names(argument: Seq<char>)
    ensures
        spec_option(argument) == Some(FuzzOption::Seed) <==> argument == "--seed"@ || argument == "-s"@,
        spec_option(argument) == Some(FuzzOption::Reproduce) <==> argument == "--reproduce"@ || argument == "-r"@,
        spec_option(argument) == Some(FuzzOption::MaxSteps) <==> argument == "--max-steps"@ || argument == "--steps"@,
        spec_option(argument) == Some(FuzzOption::Iterations) <==> argument == "--iterations"@ || argument == "-i"@,
        spec_option(argument) == Some(FuzzOption::CrashFile) <==> argument == "--crash-file"@,
        spec_option(argument) == Some(FuzzOption::Nodes) <==> argument == "--nodes"@ || argument == "-n"@,
        spec_option(argument) == Some(FuzzOption::FailRate) <==> argument == "--fail-rate"@ || argument == "-f"@,
        spec_option(argument) == Some(FuzzOption::NoChaos) <==> argument == "--no-chaos"@,
        spec_option(argument) == Some(FuzzOption::Help) <==> argument == "--help"@ || argument == "-h"@,
{
    lemma_options_are_read();
    reveal_strlit("--seed");
    reveal_strlit("-s");
    reveal_strlit("--reproduce");
    reveal_strlit("-r");
    reveal_strlit("--max-steps");
    reveal_strlit("--steps");
    reveal_strlit("--iterations");
    reveal_strlit("-i");
    reveal_strlit("--crash-file");
    reveal_strlit("--nodes");
    reveal_strlit("-n");
    reveal_strlit("--fail-rate");
    reveal_strlit("-f");
    reveal_strlit("--no-chaos");
    reveal_strlit("--help");
    reveal_strlit("-h");
    assert("-s"@.len() == 2 && "-s"@[1] == 's');
    assert("-r"@.len() == 2 && "-r"@[1] == 'r');
    assert("-i"@.len() == 2 && "-i"@[1] == 'i');
    assert("-n"@.len() == 2 && "-n"@[1] == 'n');
    assert("-f"@.len() == 2 && "-f"@[1] == 'f');
    assert("-h"@.len() == 2 && "-h"@[1] == 'h');
    assert("--seed"@.len() == 6 && "--seed"@[2] == 's');
    assert("--help"@.len() == 6 && "--help"@[2] == 'h');
    assert("--steps"@.len() == 7 && "--steps"@[2] == 's');
    assert("--nodes"@.len() == 7 && "--nodes"@[2] == 'n');
    assert("--no-chaos"@.len() == 10);
    assert("--reproduce"@.len() == 11 && "--reproduce"@[2] == 'r');
    assert("--max-steps"@.len() == 11 && "--max-steps"@[2] == 'm');
    assert("--fail-rate"@.len() == 11 && "--fail-rate"@[2] == 'f');
    assert("--iterations"@.len() == 12 && "--iterations"@[2] == 'i');
    assert("--crash-file"@.len() == 12 && "--crash-file"@[2] == 'c');
}

/// The command line is read from the left. An option with a value takes the next argument
/// for it and sets that value alone; a number that cannot be read, a value that is not
/// there and a name that is not known are told apart; and the rest is read in the same way.
pub proof fn arguments_are_read_from_the_left(
    config: FuzzConfigView,
    option: FuzzOption,
    name: Seq<char>,
    value: Seq<char>,
    rest: Seq<Seq<char>>,
)
    ensures
        parsed(config, Seq::empty()) == ParseView::Run(config),
        spec_option(name) is None ==> parsed(config, seq![name] + rest) == ParseView::Unknown(name),
        spec_option(name) == Some(FuzzOption::Help) ==> parsed(config, seq![name] + rest) == ParseView::Help,
        spec_option(name) == Some(FuzzOption::NoChaos) ==> parsed(config, seq![name] + rest) == parsed(
            FuzzConfigView { no_chaos: true, ..config },
            rest,
        ),
        spec_option(name) == Some(option) && option != FuzzOption::Help && option != FuzzOption::NoChaos ==> {
            &&& parsed(config, seq![name]) == ParseView::MissingValue(option)
            &&& option == FuzzOption::CrashFile ==> parsed(config, seq![name, value] + rest) == parsed(
                FuzzConfigView { crash_file: Some(value), ..config },
                rest,
            )
            &&& option == FuzzOption::FailRate ==> parsed(config, seq![name, value] + rest) == parsed(
                FuzzConfigView { fail_rate: Some(value), ..config },
                rest,
            )
            &&& option != FuzzOption::CrashFile && option != FuzzOption::FailRate ==> match text::parsed_u64(value) {
                None => parsed(config, seq![name, value] + rest) == ParseView::InvalidValue(option),
                Some(n) => {
                    &&& option == FuzzOption::Seed ==> parsed(config, seq![name, value] + rest) == parsed(
                        FuzzConfigView { base_seed: Some(n), ..config },
                        rest,
                    )
                    &&& option == FuzzOption::Reproduce ==> parsed(config, seq![name, value] + rest) == parsed(
                        FuzzConfigView { reproduce_seed: Some(n), ..config },
                        rest,
                    )
                    &&& option == FuzzOption::MaxSteps ==> parsed(config, seq![name, value] + rest) == parsed(
                        FuzzConfigView { max_steps: n, ..config },
                        rest,
                    )
                    &&& option == FuzzOption::Iterations ==> parsed(config, seq![name, value] + rest) == parsed(
                        FuzzConfigView { iterations: n, ..config },
                        rest,
                    )
                    &&& option == FuzzOption::Nodes ==> parsed(config, seq![name, value] + rest) == parsed(
                        FuzzConfigView { nodes: Some(n), ..config },
                        rest,
                    )
                },
            }
        },
{
    let one = seq![name] + rest;
    let two = seq![name, value] + rest;
    assert(one[0] == name);
    assert(one.skip(1) =~= rest);
    assert(two[0] == name && two[1] == value);
    assert(two.skip(2) =~= rest);
    assert(seq![name][0] == name);
}

/// Without options a hundred iterations of a hundred thousand steps are made, and nothing is
/// set in place of what the seed gives.
pub proof fn defaults()
    ensures
        default_config().max_steps == 100_000,
        default_config().iterations == 100,
        default_config().base_seed is None,
        default_config().reproduce_seed is None,
        default_config().crash_file is None,
        default_config().nodes is None,
        default_config().fail_rate is None,
        !default_config().no_chaos,
{
}

/// A seed to reproduce goes before a base seed, and the clock gives a seed only where none
/// was given.
pub proof fn modes_follow_the_seeds(config: FuzzConfigView, clock_nanos: u64, seed: u64)
    ensures
        config.reproduce_seed == Some(seed) ==> asked_mode(config, clock_nanos) == (FuzzMode::Reproduce {
            iteration_seed: seed,
        }),
        config.reproduce_seed is None && config.base_seed == Some(seed) ==> asked_mode(config, clock_nanos) == (
        FuzzMode::Fuzz { base_seed: seed }),
        config.reproduce_seed is None && config.base_seed is None ==> asked_mode(config, clock_nanos) == (
        FuzzMode::Fuzz { base_seed: clock_nanos }),
{
}

/// The first argument is the name of the program and is not read.
pub proof fn the_name_of_the_program_is_not_read(name: Seq<char>, args: Seq<Seq<char>>)
    ensures
        behind_name(seq![name] + args) == args,
        behind_name(Seq::empty()).len() == 0,
{
    assert((seq![name] + args).skip(1) =~= args);
}

/// What a value is called in messages is the long name of its option without its dashes;
/// only the seed to reproduce has another name.
pub proof fn values_are_called_by_their_option()
    ensures
        "--"@ + value_name(FuzzOption::Seed) == "--seed"@,
        "--"@ + value_name(FuzzOption::MaxSteps) == "--max-steps"@,
        "--"@ + value_name(FuzzOption::Iterations) == "--iterations"@,
        "--"@ + value_name(FuzzOption::CrashFile) == "--crash-file"@,
        "--"@ + value_name(FuzzOption::Nodes) == "--nodes"@,
        "--"@ + value_name(FuzzOption::FailRate) == "--fail-rate"@,
        "--"@ + value_name(FuzzOption::NoChaos) == "--no-chaos"@,
        "--"@ + value_name(FuzzOption::Help) == "--help"@,
        value_name(FuzzOption::Reproduce) == "reproduce seed"@,
{
    reveal_strlit("--");
    reveal_strlit("seed");
    reveal_strlit("--seed");
    reveal_strlit("max-steps");
    reveal_strlit("--max-steps");
    reveal_strlit("iterations");
    reveal_strlit("--iterations");
    reveal_strlit("crash-file");
    reveal_strlit("--crash-file");
    reveal_strlit("nodes");
    reveal_strlit("--nodes");
    reveal_strlit("fail-rate");
    reveal_strlit("--fail-rate");
    reveal_strlit("no-chaos");
    reveal_strlit("--no-chaos");
    reveal_strlit("help");
    reveal_strlit("--help");
    assert("--"@ + "seed"@ =~= "--seed"@);
    assert("--"@ + "max-steps"@ =~= "--max-steps"@);
    assert("--"@ + "iterations"@ =~= "--iterations"@);
    assert("--"@ + "crash-file"@ =~= "--crash-file"@);
    assert("--"@ + "nodes"@ =~= "--nodes"@);
    assert("--"@ + "fail-rate"@ =~= "--fail-rate"@);
    assert("--"@ + "no-chaos"@ =~= "--no-chaos"@);
    assert("--"@ + "help"@ =~= "--help"@);
}

} // verus!
