//! A run of the fuzzer: which iterations it makes, and how it reports a failure.

use vstd::prelude::*;
use vstd::string::*;

use crate::derived::DerivedConfig;
use crate::options;
use crate::options::FuzzConfig;
use crate::options::FuzzConfigView;
use crate::options::FuzzMode;
use crate::options::FuzzOption;
use crate::options::ParseView;
use crate::strmap;
use crate::text;
use crate::text::decimal_text;

verus! {

/// What came of one iteration.
#[derive(Debug, Clone)]
pub struct FuzzResult {
    pub steps_completed: u64,
    pub invariant_checks: u64,
    pub violations: Vec<String>,
}

/// Fuzz mode: iterations with consecutive seeds, up to the first failure.
#[derive(Debug, Clone)]
pub struct Campaign {
    pub base_seed: u64,
    /// Number of iterations to run (0 = forever).
    pub iterations: u64,
    /// How many iterations have passed.
    pub iteration: u64,
    pub total_steps: u64,
    pub total_checks: u64,
}

/// The seed of an iteration: the base seed and the number of the iteration,
/// added up modulo 2^64.
pub open spec fn iteration_seed(base_seed: u64, iteration: u64) -> u64 {
    ((base_seed + iteration) % 0x1_0000_0000_0000_0000) as u64
}

impl Campaign {
    /// Whether the campaign goes on to another iteration.
    pub open spec fn goes_on(self, running: bool) -> bool {
        running && (self.iterations == 0 || self.iteration < self.iterations)
    }

    /// Whether the counts of an iteration can still be added to the totals.
    pub open spec fn has_room(self, result: FuzzResult) -> bool {
        &&& self.total_steps + result.steps_completed <= u64::MAX
        &&& self.total_checks + result.invariant_checks <= u64::MAX
        &&& self.iteration < u64::MAX
    }

    /// The campaign after an iteration; one that failed is not counted as passed.
    pub open spec fn after(self, result: FuzzResult) -> Campaign {
        Campaign {
            total_steps: (self.total_steps + result.steps_completed) as u64,
            total_checks: (self.total_checks + result.invariant_checks) as u64,
            iteration: if result.violations@.len() > 0 {
                self.iteration
            } else {
                (self.iteration + 1) as u64
            },
            ..self
        }
    }

    /// The campaign after a sequence of iterations.
    pub open spec fn after_all(self, results: Seq<FuzzResult>) -> Campaign
        decreases results.len(),
    {
        if results.len() == 0 {
            self
        } else {
            self.after_all(results.drop_last()).after(results.last())
        }
    }

    /// A campaign before its first iteration.
    pub fn new(base_seed: u64, iterations: u64) -> (campaign: Self)
        ensures
            campaign == (Campaign { base_seed, iterations, iteration: 0, total_steps: 0, total_checks: 0 }),
    {
        Campaign { base_seed, iterations, iteration: 0, total_steps: 0, total_checks: 0 }
    }

    /// The seed of the next iteration; nothing once the campaign was interrupted or
    /// has made all its iterations.
    pub fn next_seed(&self, running: bool) -> (seed: Option<u64>)
        ensures
            seed == if self.goes_on(running) {
                Some(iteration_seed(self.base_seed, self.iteration))
            } else {
                None
            },
    {
        if !running {
            return None;
        }
        if self.iterations > 0 && self.iteration >= self.iterations {
            return None;
        }
        Some(self.base_seed.wrapping_add(self.iteration))
    }

    /// Adds an iteration to the totals. The answer is whether it has failed, which
    /// ends the campaign.
    pub fn finish_iteration(&mut self, result: &FuzzResult) -> (failed: bool)
        requires
            old(self).has_room(*result),
        ensures
            failed == (result.violations@.len() > 0),
            *final(self) == old(self).after(*result),
    {
        self.total_steps = self.total_steps + result.steps_completed;
        self.total_checks = self.total_checks + result.invariant_checks;
        if result.violations.len() > 0 {
            return true;
        }
        self.iteration = self.iteration + 1;
        false
    }
}

// ---------------------------------------------------------------------------
// Reporting a failure
// ---------------------------------------------------------------------------

/// An option with its value, if it has one.
pub open spec fn option_args(name: Seq<char>, value: Option<Seq<char>>) -> Seq<Seq<char>> {
    match value {
        Some(value) => seq![name, value],
        None => Seq::empty(),
    }
}

/// An option without a value, if it is set.
pub open spec fn flag_args(name: Seq<char>, set: bool) -> Seq<Seq<char>> {
    if set {
        seq![name]
    } else {
        Seq::empty()
    }
}

/// The decimal text of a number, if there is one.
pub open spec fn number_text(number: Option<u64>) -> Option<Seq<char>> {
    match number {
        Some(n) => Some(text::decimal(n as nat)),
        None => None,
    }
}

/// The arguments that make the fuzzer run an iteration once more, with what was set
/// for it in place of what its seed gives.
pub open spec fn reproduce_args(
    seed: u64,
    max_steps: u64,
    crash_file: Option<Seq<char>>,
    nodes: Option<u64>,
    fail_rate: Option<Seq<char>>,
    no_chaos: bool,
) -> Seq<Seq<char>> {
    option_args("--reproduce"@, number_text(Some(seed))) + option_args("--max-steps"@, number_text(Some(max_steps)))
        + option_args("--crash-file"@, crash_file) + option_args("--nodes"@, number_text(nodes)) + option_args(
        "--fail-rate"@,
        fail_rate,
    ) + flag_args("--no-chaos"@, no_chaos)
}

/// Words, each with a space in front of it.
pub open spec fn spaced(words: Seq<Seq<char>>) -> Seq<char>
    decreases words.len(),
{
    if words.len() == 0 {
        Seq::empty()
    } else {
        spaced(words.drop_last()) + " "@ + words.last()
    }
}

/// The command with some arguments.
pub open spec fn command_with(words: Seq<Seq<char>>) -> Seq<char> {
    "cargo run --bin fuzz --"@ + spaced(words)
}

/// The command that runs an iteration once more, with what was set for it in place
/// of what its seed gives.
pub open spec fn command_text(
    seed: u64,
    max_steps: u64,
    crash_file: Option<Seq<char>>,
    nodes: Option<u64>,
    fail_rate: Option<Seq<char>>,
    no_chaos: bool,
) -> Seq<char> {
    command_with(reproduce_args(seed, max_steps, crash_file, nodes, fail_rate, no_chaos))
}

/// Words followed by more words.
proof fn lemma_spaced_concat(words: Seq<Seq<char>>, more: Seq<Seq<char>>)
    ensures
        spaced(words + more) == spaced(words) + spaced(more),
    decreases more.len(),
{
    if more.len() == 0 {
        assert(words + more =~= words);
        assert(spaced(words) + spaced(more) =~= spaced(words));
    } else {
        lemma_spaced_concat(words, more.drop_last());
        assert((words + more).drop_last() =~= words + more.drop_last());
        assert(spaced(words + more) =~= spaced(words) + spaced(more));
    }
}

/// Appends an option with its value, if it has one.
fn append_option(command: &mut String, name: &str, value: Option<&str>, Ghost(words): Ghost<Seq<Seq<char>>>)
    requires
        old(command)@ == command_with(words),
    ensures
        final(command)@ == command_with(
            words + option_args(
                name@,
                match value {
                    Some(value) => Some(value@),
                    None => None,
                },
            ),
        ),
{
    match value {
        Some(value) => {
            command.append(" ");
            command.append(name);
            command.append(" ");
            command.append(value);
            proof {
                let more = seq![name@, value@];
                lemma_spaced_concat(words, more);
                assert(more.drop_last() =~= seq![name@]);
                assert(seq![name@].drop_last() =~= Seq::<Seq<char>>::empty());
                reveal_with_fuel(spaced, 3);
                assert(spaced(more) =~= " "@ + name@ + " "@ + value@);
                assert(command@ =~= command_with(words + more));
            }
        },
        None => {
            assert(words + Seq::<Seq<char>>::empty() =~= words);
        },
    }
}

/// Appends an option with a number, if it has one.
fn append_number_option(command: &mut String, name: &str, number: Option<u64>, Ghost(words): Ghost<Seq<Seq<char>>>)
    requires
        old(command)@ == command_with(words),
    ensures
        final(command)@ == command_with(words + option_args(name@, number_text(number))),
{
    match number {
        Some(n) => {
            let value = decimal_text(n);
            append_option(command, name, Some(value.as_str()), Ghost(words));
        },
        None => append_option(command, name, None, Ghost(words)),
    }
}

/// Appends an option without a value, if it is set.
fn append_flag(command: &mut String, name: &str, set: bool, Ghost(words): Ghost<Seq<Seq<char>>>)
    requires
        old(command)@ == command_with(words),
    ensures
        final(command)@ == command_with(words + flag_args(name@, set)),
{
    if set {
        command.append(" ");
        command.append(name);
        proof {
            let more = seq![name@];
            lemma_spaced_concat(words, more);
            assert(more.drop_last() =~= Seq::<Seq<char>>::empty());
            reveal_with_fuel(spaced, 2);
            assert(spaced(more) =~= " "@ + name@);
            assert(command@ =~= command_with(words + more));
        }
    } else {
        assert(words + Seq::<Seq<char>>::empty() =~= words);
    }
}

/// The command that runs an iteration once more, with what was set for it in place
/// of what its seed gives.
pub fn reproduce_command(
    seed: u64,
    max_steps: u64,
    crash_file: Option<&String>,
    nodes: Option<u64>,
    fail_rate: Option<&String>,
    no_chaos: bool,
) -> (command: String)
    ensures
        command@ == command_text(
            seed,
            max_steps,
            match crash_file {
                Some(path) => Some(path@),
                None => None,
            },
            nodes,
            match fail_rate {
                Some(rate) => Some(rate@),
                None => None,
            },
            no_chaos,
        ),
{
    let mut command = String::from_str("cargo run --bin fuzz --");
    let ghost none = Seq::<Seq<char>>::empty();
    assert(command@ =~= command_with(none));
    append_number_option(&mut command, "--reproduce", Some(seed), Ghost(none));
    let ghost a = option_args("--reproduce"@, number_text(Some(seed)));
    assert(none + a =~= a);
    append_number_option(&mut command, "--max-steps", Some(max_steps), Ghost(a));
    let ghost b = a + option_args("--max-steps"@, number_text(Some(max_steps)));
    let path: Option<&str> = match crash_file {
        Some(path) => Some(path.as_str()),
        None => None,
    };
    append_option(&mut command, "--crash-file", path, Ghost(b));
    let ghost c = b + option_args(
        "--crash-file"@,
        match crash_file {
            Some(path) => Some(path@),
            None => None,
        },
    );
    append_number_option(&mut command, "--nodes", nodes, Ghost(c));
    let ghost d = c + option_args("--nodes"@, number_text(nodes));
    let rate: Option<&str> = match fail_rate {
        Some(rate) => Some(rate.as_str()),
        None => None,
    };
    append_option(&mut command, "--fail-rate", rate, Ghost(d));
    let ghost e = d + option_args(
        "--fail-rate"@,
        match fail_rate {
            Some(rate) => Some(rate@),
            None => None,
        },
    );
    append_flag(&mut command, "--no-chaos", no_chaos, Ghost(e));
    command
}

/// What is written to the crash file, besides the derived configuration.
#[derive(Debug, Clone)]
pub struct CrashReport {
    pub base_seed: u64,
    pub iteration: u64,
    pub iteration_seed: u64,
    pub max_steps: u64,
    pub steps_completed: u64,
    /// The first violation.
    pub violation: Option<String>,
    /// The command that reproduces the failure.
    pub command: String,
}

/// Whether a report tells of this failure in a run under `config`.
pub open spec fn reports(
    report: CrashReport,
    base_seed: u64,
    iteration: u64,
    seed: u64,
    config: FuzzConfigView,
    result: FuzzResult,
    path: Seq<char>,
) -> bool {
    &&& report.base_seed == base_seed
    &&& report.iteration == iteration
    &&& report.iteration_seed == seed
    &&& report.max_steps == config.max_steps
    &&& report.steps_completed == result.steps_completed
    &&& match report.violation {
        Some(violation) => result.violations@.len() > 0 && violation@ == result.violations@[0]@,
        None => result.violations@.len() == 0,
    }
    &&& report.command@ == command_text(
        seed,
        config.max_steps,
        Some(path),
        config.nodes,
        config.fail_rate,
        config.no_chaos,
    )
}

/// The report of a failure.
fn report_failure(
    base_seed: u64,
    iteration: u64,
    seed: u64,
    config: &FuzzConfig,
    result: &FuzzResult,
    path: &String,
) -> (report: CrashReport)
    ensures
        reports(report, base_seed, iteration, seed, config@, *result, path@),
{
    let violation = if result.violations.len() > 0 {
        Some(result.violations[0].clone())
    } else {
        None
    };
    CrashReport {
        base_seed,
        iteration,
        iteration_seed: seed,
        max_steps: config.max_steps,
        steps_completed: result.steps_completed,
        violation,
        command: reproduce_command(
            seed,
            config.max_steps,
            Some(path),
            config.nodes,
            config.fail_rate.as_ref(),
            config.no_chaos,
        ),
    }
}

impl Campaign {
    /// The report of a failure in the current iteration of a run under `config`.
    pub fn crash_report(&self, config: &FuzzConfig, result: &FuzzResult, path: &String) -> (report: CrashReport)
        ensures
            reports(
                report,
                self.base_seed,
                self.iteration,
                iteration_seed(self.base_seed, self.iteration),
                config@,
                *result,
                path@,
            ),
    {
        let seed: u64 = self.base_seed.wrapping_add(self.iteration);
        report_failure(self.base_seed, self.iteration, seed, config, result, path)
    }
}

/// The report of a failure in reproduce mode: that of the first iteration from
/// the seed.
pub fn reproduce_report(seed: u64, config: &FuzzConfig, result: &FuzzResult, path: &String) -> (report: CrashReport)
    ensures
        reports(report, seed, 0, seed, config@, *result, path@),
{
    report_failure(seed, 0, seed, config, result, path)
}

// ---------------------------------------------------------------------------
// Laws
// ---------------------------------------------------------------------------

/// The configuration of a run that repeats an iteration of a run under `config`.
pub open spec fn reproduction(seed: u64, config: FuzzConfigView, crash_file: Option<Seq<char>>) -> FuzzConfigView {
    FuzzConfigView {
        reproduce_seed: Some(seed),
        max_steps: config.max_steps,
        crash_file,
        nodes: config.nodes,
        fail_rate: config.fail_rate,
        no_chaos: config.no_chaos,
        ..options::default_config()
    }
}

/// An option with its value is read before the rest of the arguments.
proof fn lemma_option_is_read(
    config: FuzzConfigView,
    name: Seq<char>,
    option: FuzzOption,
    value: Option<Seq<char>>,
    rest: Seq<Seq<char>>,
)
    requires
        options::spec_option(name) == Some(option),
        option != FuzzOption::Help,
        option != FuzzOption::NoChaos,
        value is Some ==> options::with_value(config, option, value->0) is Some,
    ensures
        options::parsed(config, option_args(name, value) + rest) == options::parsed(
            match value {
                Some(value) => options::with_value(config, option, value)->0,
                None => config,
            },
            rest,
        ),
{
    let args = option_args(name, value) + rest;
    match value {
        Some(value) => {
            assert(args[0] == name && args[1] == value);
            assert(args.skip(2) =~= rest);
        },
        None => {
            assert(args =~= rest);
        },
    }
}

/// The command of a report makes the fuzzer run the same iteration, with the same
/// limit, the same settings in place of what the seed gives, and the given crash
/// file.
pub proof fn reproduce_args_reproduce(seed: u64, config: FuzzConfigView, crash_file: Option<Seq<char>>)
    ensures
        options::parsed(
            options::default_config(),
            reproduce_args(seed, config.max_steps, crash_file, config.nodes, config.fail_rate, config.no_chaos),
        ) == ParseView::Run(reproduction(seed, config, crash_file)),
{
    let a = option_args("--reproduce"@, number_text(Some(seed)));
    let b = option_args("--max-steps"@, number_text(Some(config.max_steps)));
    let c = option_args("--crash-file"@, crash_file);
    let d = option_args("--nodes"@, number_text(config.nodes));
    let e = option_args("--fail-rate"@, config.fail_rate);
    let f = flag_args("--no-chaos"@, config.no_chaos);
    let c0 = options::default_config();
    let c1 = FuzzConfigView { reproduce_seed: Some(seed), ..c0 };
    let c2 = FuzzConfigView { max_steps: config.max_steps, ..c1 };
    let c3 = FuzzConfigView { crash_file, ..c2 };
    let c4 = FuzzConfigView { nodes: config.nodes, ..c3 };
    let c5 = FuzzConfigView { fail_rate: config.fail_rate, ..c4 };
    options::lemma_options_are_read();
    text::decimal_reads_back(seed);
    text::decimal_reads_back(config.max_steps);
    if let Some(nodes) = config.nodes {
        text::decimal_reads_back(nodes);
    }
    lemma_option_is_read(c0, "--reproduce"@, FuzzOption::Reproduce, number_text(Some(seed)), b + c + d + e + f);
    lemma_option_is_read(c1, "--max-steps"@, FuzzOption::MaxSteps, number_text(Some(config.max_steps)), c + d + e + f);
    lemma_option_is_read(c2, "--crash-file"@, FuzzOption::CrashFile, crash_file, d + e + f);
    lemma_option_is_read(c3, "--nodes"@, FuzzOption::Nodes, number_text(config.nodes), e + f);
    lemma_option_is_read(c4, "--fail-rate"@, FuzzOption::FailRate, config.fail_rate, f);
    assert(a + b + c + d + e + f =~= a + (b + c + d + e + f));
    assert(b + c + d + e + f =~= b + (c + d + e + f));
    assert(c + d + e + f =~= c + (d + e + f));
    assert(d + e + f =~= d + (e + f));
    if config.no_chaos {
        assert(f[0] == "--no-chaos"@);
        assert(f.skip(1).len() == 0);
        assert(options::parsed(c5, f) == options::parsed(FuzzConfigView { no_chaos: true, ..c5 }, f.skip(1)));
    } else {
        assert(f.len() == 0);
    }
}

/// Reproduce mode repeats an iteration: it runs a single iteration, with the same
/// seed and the same limit, and whatever the seed gives comes out as the same
/// configuration. (The failure rate that was set is read from the same text.)
pub proof fn reproduction_has_the_same_configuration<P>(
    seed: u64,
    config: FuzzConfigView,
    crash_file: Option<Seq<char>>,
    derived: DerivedConfig<P>,
    fail_rate: Option<P>,
    clock_nanos: u64,
)
    ensures
        options::asked_mode(reproduction(seed, config, crash_file), clock_nanos) == (FuzzMode::Reproduce {
            iteration_seed: seed,
        }),
        reproduction(seed, config, crash_file).max_steps == config.max_steps,
        reproduction(seed, config, crash_file).fail_rate == config.fail_rate,
        derived.overridden(reproduction(seed, config, crash_file), fail_rate) == derived.overridden(config, fail_rate),
{
}

/// A failure that reproduce mode finds again is reported as it was: with the same seed,
/// limit, number of steps and violation, and, for the same crash file, with the same
/// command.
pub proof fn reproduction_is_reported_alike(
    first: CrashReport,
    again: CrashReport,
    base_seed: u64,
    iteration: u64,
    seed: u64,
    config: FuzzConfigView,
    result: FuzzResult,
    found_again: FuzzResult,
    path: Seq<char>,
    path_again: Seq<char>,
)
    requires
        reports(first, base_seed, iteration, seed, config, result, path),
        reports(again, seed, 0, seed, reproduction(seed, config, Some(path_again)), found_again, path_again),
        found_again.steps_completed == result.steps_completed,
        strmap::text_views(found_again.violations@) == strmap::text_views(result.violations@),
    ensures
        again.iteration_seed == first.iteration_seed,
        again.max_steps == first.max_steps,
        again.steps_completed == first.steps_completed,
        options::text_of(again.violation) == options::text_of(first.violation),
        path_again == path ==> again.command@ == first.command@,
{
    let texts = strmap::text_views(result.violations@);
    let texts_again = strmap::text_views(found_again.violations@);
    assert(texts.len() == texts_again.len());
    if result.violations@.len() > 0 {
        assert(texts[0] == result.violations@[0]@);
        assert(texts_again[0] == found_again.violations@[0]@);
    }
}

/// A campaign from the seed of an iteration begins with that iteration.
pub proof fn campaign_reproduces(base_seed: u64, iteration: u64)
    ensures
        iteration_seed(iteration_seed(base_seed, iteration), 0) == iteration_seed(base_seed, iteration),
{
}

/// No two iterations of a campaign have the same seed.
pub proof fn iteration_seeds_differ(base_seed: u64, a: u64, b: u64)
    requires
        a != b,
    ensures
        iteration_seed(base_seed, a) != iteration_seed(base_seed, b),
{
}

/// A campaign whose iterations all pass makes as many of them as it was asked
/// for, with the seeds from the base seed on, and then stops.
pub proof fn campaign_makes_its_iterations(campaign: Campaign, results: Seq<FuzzResult>)
    requires
        campaign.iteration == 0,
        campaign.iterations > 0,
        results.len() <= campaign.iterations,
        forall|i: int| 0 <= i < results.len() ==> (#[trigger] results[i]).violations@.len() == 0,
    ensures
        campaign.after_all(results).goes_on(true) <==> results.len() < campaign.iterations,
        campaign.after_all(results).iteration == results.len(),
        campaign.after_all(results).base_seed == campaign.base_seed,
        campaign.after_all(results).iterations == campaign.iterations,
    decreases results.len(),
{
    if results.len() > 0 {
        let front = results.drop_last();
        assert forall|i: int| 0 <= i < front.len() implies (#[trigger] front[i]).violations@.len() == 0 by {
            assert(front[i] == results[i]);
        }
        campaign_makes_its_iterations(campaign, front);
        assert(results.last() == results[results.len() - 1]);
    }
}

/// The seeds of a campaign count up from the base seed and wrap around at 2^64.
pub proof fn iteration_seeds_count_up(base_seed: u64, iteration: u64)
    ensures
        base_seed + iteration <= u64::MAX ==> iteration_seed(base_seed, iteration) == base_seed + iteration,
        base_seed + iteration > u64::MAX ==> iteration_seed(base_seed, iteration) == base_seed + iteration
            - 0x1_0000_0000_0000_0000,
{
}

/// A campaign goes on until it is interrupted or has made all its iterations; without a
/// number of iterations it goes on forever.
pub proof fn campaigns_go_on_until_done(campaign: Campaign, running: bool)
    ensures
        !running ==> !campaign.goes_on(running),
        running && campaign.iterations == 0 ==> campaign.goes_on(running),
        running && campaign.iteration >= campaign.iterations > 0 ==> !campaign.goes_on(running),
        running && campaign.iteration < campaign.iterations ==> campaign.goes_on(running),
{
}

/// An iteration adds its steps and checks to the totals; it counts as passed exactly if it
/// has found no violation, and the rest of the campaign stays as it is.
pub proof fn iterations_are_added_up(campaign: Campaign, result: FuzzResult)
    requires
        campaign.total_steps + result.steps_completed <= u64::MAX,
        campaign.total_checks + result.invariant_checks <= u64::MAX,
        campaign.iteration < u64::MAX,
    ensures
        campaign.has_room(result),
        campaign.after(result).total_steps == campaign.total_steps + result.steps_completed,
        campaign.after(result).total_checks == campaign.total_checks + result.invariant_checks,
        result.violations@.len() == 0 ==> campaign.after(result).iteration == campaign.iteration + 1,
        result.violations@.len() > 0 ==> campaign.after(result).iteration == campaign.iteration,
        campaign.after(result).base_seed == campaign.base_seed,
        campaign.after(result).iterations == campaign.iterations,
{
}

/// A report tells of the seed, the limit and the steps of the iteration, and of the first
/// violation that it has found.
pub proof fn reports_tell_of_the_first_violation(
    report: CrashReport,
    base_seed: u64,
    iteration: u64,
    seed: u64,
    config: FuzzConfigView,
    result: FuzzResult,
    path: Seq<char>,
)
    requires
        reports(report, base_seed, iteration, seed, config, result, path),
    ensures
        report.base_seed == base_seed,
        report.iteration == iteration,
        report.iteration_seed == seed,
        report.max_steps == config.max_steps,
        report.steps_completed == result.steps_completed,
        result.violations@.len() > 0 ==> report.violation is Some && report.violation->0@ == result.violations@[0]@,
        result.violations@.len() == 0 ==> report.violation is None,
        exists|args: Seq<Seq<char>>|
            options::parsed(options::default_config(), args) == ParseView::Run(
                reproduction(seed, config, Some(path)),
            ) && report.command@ == #[trigger] command_with(args),
{
    reproduce_args_reproduce(seed, config, Some(path));
    let args = reproduce_args(seed, config.max_steps, Some(path), config.nodes, config.fail_rate, config.no_chaos);
    assert(report.command@ == command_with(args));
}

/// A command is the call of the fuzzer with its arguments behind it, each after a space.
pub proof fn commands_are_words_with_spaces(words: Seq<Seq<char>>, word: Seq<char>)
    ensures
        command_with(Seq::empty()) == "cargo run --bin fuzz --"@,
        command_with(words.push(word)) == command_with(words) + " "@ + word,
{
    assert(command_with(Seq::empty()) =~= "cargo run --bin fuzz --"@);
    assert(words.push(word).drop_last() =~= words);
    assert(command_with(words.push(word)) =~= command_with(words) + " "@ + word);
}

/// A reproduction keeps the limit and what was set in place of what the seed gives, and asks
/// for nothing else than the seed and the crash file.
pub proof fn reproductions_keep_the_settings(seed: u64, config: FuzzConfigView, crash_file: Option<Seq<char>>)
    ensures
        ({
            let again = reproduction(seed, config, crash_file);
            &&& again.reproduce_seed == Some(seed)
            &&& again.base_seed is None
            &&& again.max_steps == config.max_steps
            &&& again.crash_file == crash_file
            &&& again.nodes == config.nodes
            &&& again.fail_rate == config.fail_rate
            &&& again.no_chaos == config.no_chaos
        }),
{
}

} // verus!
