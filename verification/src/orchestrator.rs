//! The orchestrator: it runs the fuzzer again and again, uploads logs, and tracks
//! crashes.

use uuid::Uuid;
use vstd::prelude::*;
use vstd::string::*;

use crate::calendar;
use crate::calendar::iso_timestamp;
use crate::fake_fuzz;
use crate::fake_fuzz::CommandView;
use crate::fake_fuzz::Settings;
use crate::options;
use crate::options::FuzzConfigView;
use crate::options::ParseView;
use crate::strmap;
use crate::text;
use crate::text::append_decimal;
use crate::text::decimal_text;
use crate::text::parse_u64;
use crate::text::same_text;

verus! {

// ---------------------------------------------------------------------------
// Configuration
// ---------------------------------------------------------------------------

/// The environment variables that configure the orchestrator, as far as they are
/// set.
#[derive(Debug, Clone)]
pub struct EnvVars {
    /// `DETSIM_GCS_BUCKET`.
    pub gcs_bucket: Option<String>,
    /// `DETSIM_MAX_STEPS`.
    pub max_steps: Option<String>,
    /// `DETSIM_ITERATIONS`.
    pub iterations: Option<String>,
    /// `DETSIM_BASE_SEED`.
    pub base_seed: Option<String>,
    /// `DETSIM_FUZZ_BINARY`.
    pub fuzz_binary: Option<String>,
    /// `DETSIM_DRY_RUN`.
    pub dry_run: Option<String>,
    /// `DETSIM_DISABLE_LOGS`.
    pub disable_logs: Option<String>,
}

/// The configuration of the orchestrator.
#[derive(Debug, Clone)]
pub struct Config {
    pub gcs_bucket: Option<String>,
    pub max_steps: u64,
    pub iterations: u64,
    pub base_seed: u64,
    pub fuzz_binary: String,
    pub dry_run: bool,
    pub disable_logs: bool,
}

/// The number in a variable, or a default if it is not set or not a number.
pub open spec fn spec_number_or(var: Option<String>, default: u64) -> u64 {
    match var {
        Some(value) => match text::parsed_u64(value@) {
            Some(n) => n,
            None => default,
        },
        None => default,
    }
}

/// Whether a variable is set to `true` or `1`.
pub open spec fn spec_is_set(var: Option<String>) -> bool {
    var matches Some(value) && (value@ == "true"@ || value@ == "1"@)
}

/// The number in a variable, or a default if it is not set or not a number.
fn number_or(var: &Option<String>, default: u64) -> (number: u64)
    ensures
        number == spec_number_or(*var, default),
{
    match var {
        Some(value) => match parse_u64(value.as_str()) {
            Some(n) => n,
            None => default,
        },
        None => default,
    }
}

/// Whether a variable is set to `true` or `1`.
fn is_set(var: &Option<String>) -> (set: bool)
    ensures
        set == spec_is_set(*var),
{
    match var {
        Some(value) => same_text(value, "true") || same_text(value, "1"),
        None => false,
    }
}

impl Config {
    /// The configuration from environment variables. Without a base seed the clock
    /// gives one.
    pub fn from_vars(vars: EnvVars, clock_nanos: u64) -> (config: Self)
        ensures
            config.gcs_bucket == vars.gcs_bucket,
            config.max_steps == spec_number_or(vars.max_steps, 100_000),
            config.iterations == spec_number_or(vars.iterations, 100),
            config.base_seed == spec_number_or(vars.base_seed, clock_nanos),
            config.fuzz_binary@ == match vars.fuzz_binary {
                Some(binary) => binary@,
                None => "fuzz"@,
            },
            config.dry_run == spec_is_set(vars.dry_run),
            config.disable_logs == spec_is_set(vars.disable_logs),
    {
        let max_steps: u64 = number_or(&vars.max_steps, 100_000);
        let iterations: u64 = number_or(&vars.iterations, 100);
        let base_seed: u64 = number_or(&vars.base_seed, clock_nanos);
        let dry_run = is_set(&vars.dry_run);
        let disable_logs = is_set(&vars.disable_logs);
        let fuzz_binary = match vars.fuzz_binary {
            Some(binary) => binary,
            None => String::from_str("fuzz"),
        };
        Config {
            gcs_bucket: vars.gcs_bucket,
            max_steps,
            iterations,
            base_seed,
            fuzz_binary,
            dry_run,
            disable_logs,
        }
    }

    /// Whether anything is uploaded.
    pub open spec fn uploads(self) -> bool {
        !self.dry_run && self.gcs_bucket is Some
    }

    /// Whether the logs of a run are uploaded.
    pub fn uploads_logs(&self) -> (yes: bool)
        ensures
            yes == (self.uploads() && !self.disable_logs),
            yes == (!self.dry_run && !self.disable_logs && self.gcs_bucket is Some),
    {
        !self.dry_run && !self.disable_logs && self.gcs_bucket.is_some()
    }

    /// Whether the crash file of a run is uploaded.
    pub fn uploads_crashes(&self) -> (yes: bool)
        ensures
            yes == self.uploads(),
            yes == (!self.dry_run && self.gcs_bucket is Some),
    {
        !self.dry_run && self.gcs_bucket.is_some()
    }
}

// ---------------------------------------------------------------------------
// Runs
// ---------------------------------------------------------------------------

/// Whether a character is a hexadecimal digit in lower case.
pub open spec fn is_lower_hex(c: char) -> bool {
    text::is_digit(c) || 'a' <= c <= 'f'
}

/// Whether a text has the form of a random UUID: groups of 8, 4, 4, 4 and 12
/// hexadecimal digits, with 4 as its version and one of four variants.
pub open spec fn is_run_id(id: Seq<char>) -> bool {
    &&& id.len() == 36
    &&& forall|i: int|
        0 <= i < 36 ==> if i == 8 || i == 13 || i == 18 || i == 23 {
            #[trigger] id[i] == '-'
        } else {
            is_lower_hex(id[i])
        }
    &&& id[14] == '4'
    &&& id[19] == '8' || id[19] == '9' || id[19] == 'a' || id[19] == 'b'
}

/// `uuid::Uuid::new_v4` and its `Display`: 36 characters, lower case, hyphenated,
/// with the version and the variant of random UUIDs; all else is chance. The call
/// panics where the system has no source of randomness.
#[verifier::external_body]
fn new_uuid() -> (id: String)
    ensures
        is_run_id(id@),
{
    Uuid::new_v4().to_string()
}

/// The identifier of a new run.
pub fn new_run_id() -> (id: String)
    ensures
        is_run_id(id@),
{
    new_uuid()
}

/// How a run is called in messages: the first eight characters of its identifier.
pub fn short_id(run_id: &String) -> (short: String)
    requires
        run_id@.len() >= 8,
    ensures
        short@ == run_id@.take(8),
{
    let short = String::from_str(run_id.as_str().substring_char(0, 8));
    assert(run_id@.subrange(0, 8) =~= run_id@.take(8));
    short
}

/// Where the fuzzer writes crash info in a run.
pub open spec fn crash_file_text(run_id: Seq<char>) -> Seq<char> {
    "/tmp/crash-"@ + run_id + ".json"@
}

/// Where the fuzzer writes crash info in a run.
pub fn crash_file(run_id: &String) -> (path: String)
    ensures
        path@ == crash_file_text(run_id@),
{
    String::from_str("/tmp/crash-").concat(run_id.as_str()).concat(".json")
}

/// The arguments of the fuzzer in a run.
pub open spec fn spec_fuzz_args(config: Config, seed: u64, crash_file: Seq<char>) -> Seq<Seq<char>> {
    seq![
        "--seed"@,
        text::decimal(seed as nat),
        "--max-steps"@,
        text::decimal(config.max_steps as nat),
        "--iterations"@,
        text::decimal(config.iterations as nat),
        "--crash-file"@,
        crash_file,
    ]
}

/// The arguments of the fuzzer in a run.
pub fn fuzz_args(config: &Config, seed: u64, crash_file: &String) -> (args: Vec<String>)
    ensures
        strmap::text_views(args@) == spec_fuzz_args(*config, seed, crash_file@),
{
    let mut args: Vec<String> = Vec::new();
    args.push(String::from_str("--seed"));
    args.push(decimal_text(seed));
    args.push(String::from_str("--max-steps"));
    args.push(decimal_text(config.max_steps));
    args.push(String::from_str("--iterations"));
    args.push(decimal_text(config.iterations));
    args.push(String::from_str("--crash-file"));
    args.push(crash_file.clone());
    assert(strmap::text_views(args@) =~= spec_fuzz_args(*config, seed, crash_file@));
    args
}

/// What came of a run.
#[derive(Debug, Clone)]
pub struct RunResult {
    pub exit_code: i32,
    pub stdout: String,
    pub stderr: String,
}

impl RunResult {
    /// The result of a run that ended with this exit code; a run that was killed has
    /// none, which counts as -1.
    pub fn new(exit_code: Option<i32>, stdout: String, stderr: String) -> (result: Self)
        ensures
            result == (RunResult {
                exit_code: match exit_code {
                    Some(code) => code,
                    None => (-1) as i32,
                },
                stdout,
                stderr,
            }),
    {
        let exit_code: i32 = match exit_code {
            Some(code) => code,
            None => -1,
        };
        RunResult { exit_code, stdout, stderr }
    }

    /// Whether the fuzzer has crashed.
    pub fn crashed(&self) -> (yes: bool)
        ensures
            yes == (self.exit_code != 0),
    {
        self.exit_code != 0
    }
}

/// The state of the orchestrator between runs.
#[derive(Debug, Clone, Copy, PartialEq, Eq, Structural)]
pub struct Orchestrator {
    /// The seed of the next run.
    pub seed: u64,
    pub total_runs: u64,
    pub total_crashes: u64,
}

impl Orchestrator {
    /// The state before the first run.
    pub fn new(config: &Config) -> (orchestrator: Self)
        ensures
            orchestrator == (Orchestrator { seed: config.base_seed, total_runs: 0, total_crashes: 0 }),
    {
        Orchestrator { seed: config.base_seed, total_runs: 0, total_crashes: 0 }
    }

    /// The state after a run. The next run has the next seed, modulo 2^64.
    pub open spec fn after(self, result: RunResult) -> Orchestrator {
        Orchestrator {
            seed: ((self.seed + 1) % 0x1_0000_0000_0000_0000) as u64,
            total_runs: (self.total_runs + 1) as u64,
            total_crashes: (self.total_crashes + if result.exit_code != 0 {
                1int
            } else {
                0int
            }) as u64,
        }
    }

    /// The state after a sequence of runs.
    pub open spec fn after_all(self, results: Seq<RunResult>) -> Orchestrator
        decreases results.len(),
    {
        if results.len() == 0 {
            self
        } else {
            self.after_all(results.drop_last()).after(results.last())
        }
    }

    /// Whether no more runs have crashed than were made.
    pub open spec fn consistent(self) -> bool {
        self.total_crashes <= self.total_runs
    }

    /// Counts a run.
    pub fn finish_run(&mut self, result: &RunResult)
        requires
            old(self).consistent(),
            old(self).total_runs < u64::MAX,
        ensures
            *final(self) == old(self).after(*result),
            final(self).consistent(),
            final(self).total_runs == old(self).total_runs + 1,
    {
        if result.crashed() {
            self.total_crashes = self.total_crashes + 1;
        }
        self.total_runs = self.total_runs + 1;
        self.seed = self.seed.wrapping_add(1);
    }
}

// ---------------------------------------------------------------------------
// Uploads
// ---------------------------------------------------------------------------

/// Where the logs of a run are put together, and where they are uploaded to.
#[derive(Debug, Clone)]
pub struct LogUpload {
    pub tmp_dir: String,
    pub metadata_path: String,
    pub stdout_path: String,
    pub stderr_path: String,
    /// All files of the directory.
    pub source: String,
    pub gcs_path: String,
}

/// The directory in which the logs of a run are put together.
pub open spec fn log_dir(run_id: Seq<char>) -> Seq<char> {
    "/tmp/run-"@ + run_id
}

/// The upload of the logs of a run to a bucket.
pub fn log_upload(bucket: &String, run_id: &String) -> (upload: LogUpload)
    ensures
        upload.tmp_dir@ == log_dir(run_id@),
        upload.metadata_path@ == log_dir(run_id@) + "/metadata.json"@,
        upload.stdout_path@ == log_dir(run_id@) + "/stdout.log"@,
        upload.stderr_path@ == log_dir(run_id@) + "/stderr.log"@,
        upload.source@ == log_dir(run_id@) + "/*"@,
        upload.gcs_path@ == "gs://"@ + bucket@ + "/runs/"@ + run_id@ + "/"@,
{
    let tmp_dir = String::from_str("/tmp/run-").concat(run_id.as_str());
    let metadata_path = tmp_dir.clone().concat("/metadata.json");
    let stdout_path = tmp_dir.clone().concat("/stdout.log");
    let stderr_path = tmp_dir.clone().concat("/stderr.log");
    let source = tmp_dir.clone().concat("/*");
    let mut gcs_path = String::from_str("gs://");
    gcs_path.append(bucket.as_str());
    gcs_path.append("/runs/");
    gcs_path.append(run_id.as_str());
    gcs_path.append("/");
    LogUpload { tmp_dir, metadata_path, stdout_path, stderr_path, source, gcs_path }
}

/// What is written down of a run beside its logs.
#[derive(Debug, Clone)]
pub struct RunMetadata {
    pub run_id: String,
    pub seed: u64,
    pub exit_code: i32,
    pub max_steps: u64,
    /// When it was written down, in ISO 8601.
    pub timestamp: String,
}

/// What is written down of a run beside its logs, `clock_secs` seconds after the
/// start of 1970.
pub fn run_metadata(config: &Config, run_id: &String, seed: u64, result: &RunResult, clock_secs: u64) -> (metadata:
    RunMetadata)
    ensures
        metadata.run_id@ == run_id@,
        metadata.seed == seed,
        metadata.exit_code == result.exit_code,
        metadata.max_steps == config.max_steps,
        metadata.timestamp@ == calendar::iso_text(clock_secs as nat),
{
    RunMetadata {
        run_id: run_id.clone(),
        seed,
        exit_code: result.exit_code,
        max_steps: config.max_steps,
        timestamp: iso_timestamp(clock_secs),
    }
}

/// Where a crash file is copied to, and where it is uploaded to.
#[derive(Debug, Clone)]
pub struct CrashUpload {
    pub tmp_path: String,
    pub gcs_path: String,
}

/// The upload of the crash with a seed to a bucket.
pub fn crash_upload(bucket: &String, iteration_seed: u64) -> (upload: CrashUpload)
    ensures
        upload.tmp_path@ == "/tmp/crash-upload-"@ + text::decimal(iteration_seed as nat) + ".json"@,
        upload.gcs_path@ == "gs://"@ + bucket@ + "/crashes/"@ + text::decimal(iteration_seed as nat) + ".json"@,
{
    let mut tmp_path = String::from_str("/tmp/crash-upload-");
    append_decimal(&mut tmp_path, iteration_seed);
    tmp_path.append(".json");
    let mut gcs_path = String::from_str("gs://");
    gcs_path.append(bucket.as_str());
    gcs_path.append("/crashes/");
    append_decimal(&mut gcs_path, iteration_seed);
    gcs_path.append(".json");
    CrashUpload { tmp_path, gcs_path }
}

// ---------------------------------------------------------------------------
// Laws
// ---------------------------------------------------------------------------

/// The fuzzer reads the arguments of a run as they are meant.
pub proof fn fuzzer_reads_its_args(config: Config, seed: u64, crash_file: Seq<char>)
    ensures
        options::parsed(options::default_config(), spec_fuzz_args(config, seed, crash_file)) == ParseView::Run(
            FuzzConfigView {
                base_seed: Some(seed),
                max_steps: config.max_steps,
                iterations: config.iterations,
                crash_file: Some(crash_file),
                ..options::default_config()
            },
        ),
{
    let args = spec_fuzz_args(config, seed, crash_file);
    let c0 = options::default_config();
    let c1 = FuzzConfigView { base_seed: Some(seed), ..c0 };
    let c2 = FuzzConfigView { max_steps: config.max_steps, ..c1 };
    let c3 = FuzzConfigView { iterations: config.iterations, ..c2 };
    let c4 = FuzzConfigView { crash_file: Some(crash_file), ..c3 };
    options::lemma_options_are_read();
    text::decimal_reads_back(seed);
    text::decimal_reads_back(config.max_steps);
    text::decimal_reads_back(config.iterations);
    let a1 = args.skip(2);
    let a2 = a1.skip(2);
    let a3 = a2.skip(2);
    assert(options::parsed(c0, args) == options::parsed(c1, a1));
    assert(a1[0] == "--max-steps"@ && a1[1] == text::decimal(config.max_steps as nat));
    assert(options::parsed(c1, a1) == options::parsed(c2, a2));
    assert(a2[0] == "--iterations"@ && a2[1] == text::decimal(config.iterations as nat));
    assert(options::parsed(c2, a2) == options::parsed(c3, a3));
    assert(a3[0] == "--crash-file"@ && a3[1] == crash_file);
    assert(options::parsed(c3, a3) == options::parsed(c4, a3.skip(2)));
    assert(a3.skip(2).len() == 0);
}

/// The stand-in for the fuzzer reads the arguments of a run as they are meant,
/// and passes over the number of iterations.
pub proof fn stand_in_reads_its_args(config: Config, seed: u64, crash_file: Seq<char>)
    ensures
        fake_fuzz::parsed(fake_fuzz::default_settings(), spec_fuzz_args(config, seed, crash_file)) == (
        CommandView::Fuzz { base_seed: seed, max_steps: config.max_steps, crash_file: Some(crash_file) }),
{
    let args = spec_fuzz_args(config, seed, crash_file);
    let s0 = fake_fuzz::default_settings();
    let s1 = Settings { base_seed: Some(seed), ..s0 };
    let s2 = Settings { max_steps: config.max_steps, ..s1 };
    let s3 = Settings { crash_file: Some(crash_file), ..s2 };
    let count = text::decimal(config.iterations as nat);
    text::decimal_reads_back(seed);
    text::decimal_reads_back(config.max_steps);
    text::decimal_denotes_number(config.iterations as nat);
    assert(text::is_digit(count[0]));
    reveal_strlit("--seed");
    reveal_strlit("-s");
    reveal_strlit("--reproduce");
    reveal_strlit("-r");
    reveal_strlit("--max-steps");
    reveal_strlit("--iterations");
    reveal_strlit("--crash-file");
    reveal_strlit("--help");
    reveal_strlit("-h");
    assert("--seed"@.len() == 6 && "-s"@.len() == 2 && "-r"@.len() == 2 && "-h"@.len() == 2 && "--help"@.len() == 6);
    assert("--reproduce"@.len() == 11 && "--reproduce"@[2] == 'r');
    assert("--max-steps"@.len() == 11 && "--max-steps"@[2] == 'm');
    assert("--iterations"@.len() == 12 && "--iterations"@[2] == 'i');
    assert("--crash-file"@.len() == 12 && "--crash-file"@[2] == 'c');
    assert("--seed"@[0] == '-' && "-s"@[0] == '-' && "--reproduce"@[0] == '-' && "-r"@[0] == '-');
    assert("--max-steps"@[0] == '-' && "--crash-file"@[0] == '-' && "--help"@[0] == '-' && "-h"@[0] == '-');
    let a1 = args.skip(2);
    let a2 = a1.skip(2);
    let a3 = a2.skip(1);
    let a4 = a3.skip(1);
    assert(args[0] == "--seed"@ && args[1] == text::decimal(seed as nat));
    assert(fake_fuzz::parsed(s0, args) == fake_fuzz::parsed(s1, a1));
    assert(a1[0] == "--max-steps"@ && a1[1] == text::decimal(config.max_steps as nat));
    assert(fake_fuzz::parsed(s1, a1) == fake_fuzz::parsed(s2, a2));
    assert(a2[0] == "--iterations"@);
    assert(fake_fuzz::parsed(s2, a2) == fake_fuzz::parsed(s2, a3));
    assert(a3[0] == count);
    assert(fake_fuzz::parsed(s2, a3) == fake_fuzz::parsed(s2, a4));
    assert(a4[0] == "--crash-file"@ && a4[1] == crash_file);
    assert(fake_fuzz::parsed(s2, a4) == fake_fuzz::parsed(s3, a4.skip(2)));
    assert(a4.skip(2).len() == 0);
}

/// Runs have consecutive seeds: after a number of runs, the next seed is that many
/// beyond the first, modulo 2^64, and all runs and all crashes are counted.
pub proof fn runs_are_counted(begin: Orchestrator, results: Seq<RunResult>)
    requires
        begin.total_runs == 0,
        begin.total_crashes == 0,
        results.len() <= u64::MAX,
    ensures
        begin.after_all(results).seed == (begin.seed + results.len()) % 0x1_0000_0000_0000_0000,
        begin.after_all(results).total_runs == results.len(),
        begin.after_all(results).total_crashes == results.filter(|r: RunResult| r.exit_code != 0).len(),
        begin.after_all(results).total_crashes <= results.len(),
    decreases results.len(),
{
    reveal(Seq::filter);
    if results.len() > 0 {
        runs_are_counted(begin, results.drop_last());
    }
}

/// Runs with different identifiers have different crash files.
pub proof fn crash_files_differ(a: Seq<char>, b: Seq<char>)
    requires
        a != b,
    ensures
        crash_file_text(a) != crash_file_text(b),
{
    let prefix = "/tmp/crash-"@;
    let suffix = ".json"@;
    if crash_file_text(a) == crash_file_text(b) {
        let whole = crash_file_text(a);
        let end = whole.len() - suffix.len();
        assert(whole.subrange(prefix.len() as int, end) =~= a);
        assert(crash_file_text(b).subrange(prefix.len() as int, end) =~= b);
    }
}

/// A variable gives its number, and the default where it is not set or holds no number.
pub proof fn variables_give_numbers(value: String, default: u64, n: u64)
    ensures
        spec_number_or(None, default) == default,
        text::parsed_u64(value@) == Some(n) ==> spec_number_or(Some(value), default) == n,
        text::parsed_u64(value@) is None ==> spec_number_or(Some(value), default) == default,
{
}

/// A variable switches something on exactly if it holds `true` or `1`.
pub proof fn variables_are_switches(value: String)
    ensures
        !spec_is_set(None),
        spec_is_set(Some(value)) <==> value@ == "true"@ || value@ == "1"@,
{
}

/// A run counts as one run, and as a crash exactly if it did not end with zero; the next run
/// has the next seed, which wraps around at 2^64.
pub proof fn runs_are_added_up(before: Orchestrator, result: RunResult)
    requires
        before.total_runs < u64::MAX,
        before.total_crashes < u64::MAX,
    ensures
        before.after(result).total_runs == before.total_runs + 1,
        result.exit_code == 0 ==> before.after(result).total_crashes == before.total_crashes,
        result.exit_code != 0 ==> before.after(result).total_crashes == before.total_crashes + 1,
        before.seed < u64::MAX ==> before.after(result).seed == before.seed + 1,
        before.seed == u64::MAX ==> before.after(result).seed == 0,
{
}

/// The crash file and the directory of a run hold its identifier.
pub proof fn files_are_named_by_the_run(run_id: Seq<char>)
    ensures
        crash_file_text(run_id).len() == run_id.len() + 16,
        crash_file_text(run_id).take(11) == "/tmp/crash-"@,
        crash_file_text(run_id).subrange(11, 11 + run_id.len() as int) == run_id,
        crash_file_text(run_id).skip(11 + run_id.len() as int) == ".json"@,
        log_dir(run_id).take(9) == "/tmp/run-"@,
        log_dir(run_id).skip(9) == run_id,
{
    reveal_strlit("/tmp/crash-");
    reveal_strlit(".json");
    reveal_strlit("/tmp/run-");
    assert(crash_file_text(run_id).take(11) =~= "/tmp/crash-"@);
    assert(crash_file_text(run_id).subrange(11, 11 + run_id.len() as int) =~= run_id);
    assert(crash_file_text(run_id).skip(11 + run_id.len() as int) =~= ".json"@);
    assert(log_dir(run_id).take(9) =~= "/tmp/run-"@);
    assert(log_dir(run_id).skip(9) =~= run_id);
}

/// Nothing is uploaded in a dry run, nor without a bucket.
pub proof fn uploads_need_a_bucket(config: Config)
    ensures
        config.dry_run ==> !config.uploads(),
        config.gcs_bucket is None ==> !config.uploads(),
        !config.dry_run && config.gcs_bucket is Some ==> config.uploads(),
{
}

/// After some runs the seed has moved on by as many, all runs are counted, and those that did
/// not end with zero are counted as crashes.
pub proof fn all_runs_are_added_up(begin: Orchestrator, results: Seq<RunResult>)
    requires
        begin.total_runs + results.len() <= u64::MAX,
        begin.total_crashes + results.len() <= u64::MAX,
    ensures
        begin.after_all(results).total_runs == begin.total_runs + results.len(),
        begin.after_all(results).total_crashes == begin.total_crashes + results.filter(
            |result: RunResult| result.exit_code != 0,
        ).len(),
        begin.after_all(results).seed == (begin.seed + results.len()) % 0x1_0000_0000_0000_0000,
    decreases results.len(),
{
    reveal(Seq::filter);
    if results.len() > 0 {
        all_runs_are_added_up(begin, results.drop_last());
        results.drop_last().lemma_filter_len(|result: RunResult| result.exit_code != 0);
    }
}

} // verus!
