//! Tests of the orchestrator and of the stand-in for the fuzzer.

use rand::rngs::StdRng;
use rand::Rng;
use rand::SeedableRng;

use tests_turmoil::calendar::date_after;
use tests_turmoil::calendar::iso_timestamp;
use tests_turmoil::calendar::Date;
use tests_turmoil::crash_data::crash_seed;
use tests_turmoil::crash_data::read_parts;
use tests_turmoil::crash_data::seed_or_zero;
use tests_turmoil::crash_data::show_crash;
use tests_turmoil::crash_data::summarize;
use tests_turmoil::crash_data::CrashParts;
use tests_turmoil::fake_fuzz;
use tests_turmoil::fake_fuzz::fuzz_run;
use tests_turmoil::fake_fuzz::outcome;
use tests_turmoil::fake_fuzz::Command;
use tests_turmoil::fake_fuzz::CommandError;
use tests_turmoil::fake_fuzz::Outcome;
use tests_turmoil::options;
use tests_turmoil::orchestrator::crash_file;
use tests_turmoil::orchestrator::crash_upload;
use tests_turmoil::orchestrator::fuzz_args;
use tests_turmoil::orchestrator::log_upload;
use tests_turmoil::orchestrator::new_run_id;
use tests_turmoil::orchestrator::run_metadata;
use tests_turmoil::orchestrator::short_id;
use tests_turmoil::orchestrator::Config;
use tests_turmoil::orchestrator::EnvVars;
use tests_turmoil::orchestrator::Orchestrator;
use tests_turmoil::orchestrator::RunResult;

fn no_vars() -> EnvVars {
    EnvVars {
        gcs_bucket: None,
        max_steps: None,
        iterations: None,
        base_seed: None,
        fuzz_binary: None,
        dry_run: None,
        disable_logs: None,
    }
}

fn var(text: &str) -> Option<String> {
    Some(text.to_string())
}

#[test]
fn configuration_defaults() {
    let config = Config::from_vars(no_vars(), 1234);
    assert_eq!(config.gcs_bucket, None);
    assert_eq!(config.max_steps, 100_000);
    assert_eq!(config.iterations, 100);
    assert_eq!(config.base_seed, 1234);
    assert_eq!(config.fuzz_binary, "fuzz");
    assert!(!config.dry_run);
    assert!(!config.disable_logs);
}

#[test]
fn configuration_from_variables() {
    let vars = EnvVars {
        gcs_bucket: var("b"),
        max_steps: var("7"),
        iterations: var("8"),
        base_seed: var("9"),
        fuzz_binary: var("./fake_fuzz"),
        dry_run: var("true"),
        disable_logs: var("1"),
    };
    let config = Config::from_vars(vars, 1234);
    assert_eq!(config.gcs_bucket, var("b"));
    assert_eq!((config.max_steps, config.iterations, config.base_seed), (7, 8, 9));
    assert_eq!(config.fuzz_binary, "./fake_fuzz");
    assert!(config.dry_run);
    assert!(config.disable_logs);
}

#[test]
fn configuration_ignores_what_it_cannot_read() {
    let vars = EnvVars {
        max_steps: var("many"),
        iterations: var("-1"),
        base_seed: var(""),
        dry_run: var("yes"),
        disable_logs: var("TRUE"),
        ..no_vars()
    };
    let config = Config::from_vars(vars, 5);
    assert_eq!((config.max_steps, config.iterations, config.base_seed), (100_000, 100, 5));
    assert!(!config.dry_run);
    assert!(!config.disable_logs);
}

#[test]
fn uploads_are_made_unless_switched_off() {
    let with = |dry: &str, disable: &str| {
        Config::from_vars(
            EnvVars { gcs_bucket: var("b"), dry_run: var(dry), disable_logs: var(disable), ..no_vars() },
            0,
        )
    };
    assert!(with("", "").uploads_logs() && with("", "").uploads_crashes());
    assert!(!with("1", "").uploads_logs() && !with("1", "").uploads_crashes());
    assert!(!with("", "1").uploads_logs() && with("", "1").uploads_crashes());
    let without = Config::from_vars(no_vars(), 0);
    assert!(!without.uploads_logs() && !without.uploads_crashes());
}

#[test]
fn run_ids_are_random_uuids() {
    let a = new_run_id();
    let b = new_run_id();
    assert_ne!(a, b);
    for id in [a, b] {
        assert_eq!(id.len(), 36);
        assert_eq!(&id[14..15], "4");
        assert!(id.chars().all(|c| c == '-' || c.is_ascii_digit() || ('a'..='f').contains(&c)));
        assert_eq!(short_id(&id), id[..8].to_string());
    }
}

#[test]
fn paths_of_a_run() {
    let id = "7a1411c5-2a68-4ccc-9729-b0833d10b844".to_string();
    assert_eq!(crash_file(&id), "/tmp/crash-7a1411c5-2a68-4ccc-9729-b0833d10b844.json");
    let upload = log_upload(&"bucket".to_string(), &"id".to_string());
    assert_eq!(upload.tmp_dir, "/tmp/run-id");
    assert_eq!(upload.metadata_path, "/tmp/run-id/metadata.json");
    assert_eq!(upload.stdout_path, "/tmp/run-id/stdout.log");
    assert_eq!(upload.stderr_path, "/tmp/run-id/stderr.log");
    assert_eq!(upload.source, "/tmp/run-id/*");
    assert_eq!(upload.gcs_path, "gs://bucket/runs/id/");
    let crash = crash_upload(&"bucket".to_string(), 17);
    assert_eq!(crash.tmp_path, "/tmp/crash-upload-17.json");
    assert_eq!(crash.gcs_path, "gs://bucket/crashes/17.json");
}

#[test]
fn runs_have_their_own_crash_files() {
    assert_ne!(crash_file(&"a".to_string()), crash_file(&"b".to_string()));
    assert_ne!(crash_file(&new_run_id()), crash_file(&new_run_id()));
}

#[test]
fn metadata_of_a_run() {
    let config = Config::from_vars(no_vars(), 0);
    let result = RunResult::new(None, String::new(), String::new());
    let metadata = run_metadata(&config, &"id".to_string(), 3, &result, 1700000000);
    assert_eq!(metadata.run_id, "id");
    assert_eq!(metadata.seed, 3);
    assert_eq!(metadata.exit_code, -1);
    assert_eq!(metadata.max_steps, 100_000);
    assert_eq!(metadata.timestamp, "2023-11-14T22:13:20Z");
}

#[test]
fn timestamps_are_iso_8601() {
    assert_eq!(iso_timestamp(0), "1970-01-01T00:00:00Z");
    assert_eq!(iso_timestamp(86399), "1970-01-01T23:59:59Z");
    assert_eq!(iso_timestamp(951782400), "2000-02-29T00:00:00Z");
    assert_eq!(iso_timestamp(951868799), "2000-02-29T23:59:59Z");
    assert_eq!(iso_timestamp(951868800), "2000-03-01T00:00:00Z");
    assert_eq!(iso_timestamp(1709164801), "2024-02-29T00:00:01Z");
    assert_eq!(iso_timestamp(1735689599), "2024-12-31T23:59:59Z");
    assert_eq!(iso_timestamp(4107542400), "2100-03-01T00:00:00Z");
    assert_eq!(iso_timestamp(253402300799), "9999-12-31T23:59:59Z");
    assert_eq!(iso_timestamp(253402300800), "+10000-01-01T00:00:00Z");
    assert_eq!(iso_timestamp(u64::MAX), "+584554051223-11-09T07:00:15Z");
}

#[test]
fn dates_follow_each_other() {
    assert_eq!(date_after(0), Date { year: 1970, month: 1, day: 1 });
    let mut last = date_after(0);
    for days in 1..200_000 {
        let date = date_after(days);
        let next_day = date.day == last.day + 1 && date.month == last.month && date.year == last.year;
        let next_month = date.day == 1 && date.month == last.month + 1 && date.year == last.year;
        let next_year = date.day == 1 && date.month == 1 && last.month == 12 && date.year == last.year + 1;
        assert!(next_day || next_month || next_year);
        last = date;
    }
}

#[test]
fn runs_and_crashes_are_counted() {
    let config = Config::from_vars(EnvVars { base_seed: var("18446744073709551615"), ..no_vars() }, 0);
    let mut orchestrator = Orchestrator::new(&config);
    assert_eq!(orchestrator.seed, u64::MAX);
    orchestrator.finish_run(&RunResult::new(Some(0), String::new(), String::new()));
    assert_eq!(orchestrator, Orchestrator { seed: 0, total_runs: 1, total_crashes: 0 });
    orchestrator.finish_run(&RunResult::new(Some(1), String::new(), String::new()));
    orchestrator.finish_run(&RunResult::new(None, String::new(), String::new()));
    assert_eq!(orchestrator, Orchestrator { seed: 2, total_runs: 3, total_crashes: 2 });
}

/// A command line: the name of the program, then the arguments of a run.
fn command_line(program: &str, seed: u64, path: &str) -> Vec<String> {
    let config = Config::from_vars(EnvVars { max_steps: var("500"), iterations: var("20"), ..no_vars() }, 0);
    let mut line = vec![program.to_string()];
    line.extend(fuzz_args(&config, seed, &path.to_string()));
    line
}

#[test]
fn the_fuzzer_reads_its_arguments() {
    let line = command_line("fuzz", 11, "/tmp/c.json");
    assert_eq!(
        line.join(" "),
        "fuzz --seed 11 --max-steps 500 --iterations 20 --crash-file /tmp/c.json"
    );
    match options::parse_args(&line) {
        Ok(options::FuzzCommand::Run(config)) => {
            assert_eq!(config.base_seed, Some(11));
            assert_eq!(config.max_steps, 500);
            assert_eq!(config.iterations, 20);
            assert_eq!(config.crash_file, var("/tmp/c.json"));
        }
        other => panic!("not read: {:?}", other),
    }
}

#[test]
fn the_stand_in_reads_its_arguments() {
    match fake_fuzz::parse_args(&command_line("fake_fuzz", 11, "/tmp/c.json")) {
        Ok(Command::Fuzz { base_seed, max_steps, crash_file }) => {
            assert_eq!(base_seed, 11);
            assert_eq!(max_steps, 500);
            assert_eq!(crash_file, var("/tmp/c.json"));
        }
        other => panic!("not read: {:?}", other),
    }
}

fn fake_args(words: &[&str]) -> Result<Command, CommandError> {
    fake_fuzz::parse_args(&words.iter().map(|w| w.to_string()).collect())
}

#[test]
fn the_stand_in_needs_a_seed() {
    assert!(matches!(fake_args(&[]), Ok(Command::NoSeed)));
    assert!(matches!(fake_args(&["fake_fuzz", "--bogus", "7"]), Ok(Command::NoSeed)));
    assert!(matches!(fake_args(&["fake_fuzz", "-h"]), Ok(Command::Help)));
    assert!(matches!(
        fake_args(&["fake_fuzz", "-s", "1", "-r", "2", "--max-steps", "x"]),
        Ok(Command::Reproduce { iteration_seed: 2, max_steps: 100000 })
    ));
    assert!(matches!(fake_args(&["fake_fuzz", "--seed"]), Err(CommandError::MissingValue)));
    assert!(matches!(fake_args(&["fake_fuzz", "--seed", "x"]), Err(CommandError::InvalidSeed)));
    assert!(matches!(fake_args(&["fake_fuzz", "-r", "x"]), Err(CommandError::InvalidReproduceSeed)));
}

/// What the stand-in draws for an iteration.
fn drawn_outcome(seed: u64, max_steps: u64) -> Outcome {
    let mut rng = StdRng::seed_from_u64(seed.wrapping_add(999));
    if rng.gen_bool(0.05) {
        Outcome::Failed { steps_completed: rng.gen_range(1000..max_steps.min(50000)) }
    } else {
        Outcome::Passed
    }
}

#[test]
fn outcomes_follow_the_generator() {
    let mut failures = 0;
    for seed in 0..400u64 {
        for max_steps in [2000u64, 100000] {
            assert_eq!(outcome(seed, max_steps), drawn_outcome(seed, max_steps));
        }
        if outcome(seed, 1000) == Outcome::NoSteps {
            failures += 1;
            assert!(outcome(seed, 1001) != Outcome::Passed);
        }
    }
    assert!(failures > 0);
}

#[test]
fn failures_of_the_stand_in_are_reproduced() {
    let mut seen_failure = false;
    for base_seed in [0u64, 5000, u64::MAX - 10] {
        let run = fuzz_run(base_seed, 100000);
        assert_eq!(run.num_iterations, StdRng::seed_from_u64(base_seed).gen_range(50..200u64));
        let last = run.failed.unwrap_or(run.num_iterations);
        for i in 0..last {
            assert_eq!(outcome(base_seed.wrapping_add(i), 100000), Outcome::Passed);
        }
        if let Some(at) = run.failed {
            seen_failure = true;
            assert_ne!(outcome(base_seed.wrapping_add(at), 100000), Outcome::Passed);
        }
    }
    assert!(seen_failure);
}

#[test]
fn derived_values_of_the_stand_in() {
    for seed in [0u64, 77] {
        let config: fake_fuzz::DerivedConfig<f64> = fake_fuzz::DerivedConfig::from_seed(seed, |mut rng: StdRng| {
            let rate = rng.gen_range(0.0..0.15);
            (rate, rng)
        });
        let mut rng = StdRng::seed_from_u64(seed);
        let nodes: usize = 3 + rng.gen_range(0..5);
        assert_eq!(config.nodes, nodes as u64);
        assert_eq!(config.fail_rate, rng.gen_range(0.0..0.15));
        assert_eq!(config.heartbeat_interval, 50 + rng.gen_range(0..50u64));
        assert_eq!(config.election_timeout_min, 150 + rng.gen_range(0..100u64));
        assert_eq!(config.election_timeout_max, 300 + rng.gen_range(0..200u64));
    }
}

#[test]
fn report_of_the_stand_in() {
    let report = fake_fuzz::crash_report(10, 4, 2000, 1500);
    assert_eq!(report.base_seed, 10);
    assert_eq!(report.iteration, 4);
    assert_eq!(report.iteration_seed, 14);
    assert_eq!(report.steps_completed, 1500);
    assert_eq!(
        report.violation,
        var("MultipleLeadersInTerm { term: 5, leaders: [1, 3] }")
    );
    assert_eq!(report.command, "cargo run --bin fuzz -- --reproduce 14 --max-steps 2000");
}

const CRASH: &str = r#"{
  "iteration_seed": 1770363389478012250,
  "reproduce": { "command": "cargo run" },
  "steps_completed": 20827,
  "violation": "Step 20827: x"
}"#;

#[test]
fn crash_files_are_shown() {
    let json = CRASH.to_string();
    assert_eq!(
        show_crash(&json),
        vec![
            "  iteration_seed: 1770363389478012250".to_string(),
            "  steps_completed: 20827".to_string(),
            "  violation: \"Step 20827: x\"".to_string(),
            "  REPRODUCE: cargo run".to_string(),
        ]
    );
    assert_eq!(crash_seed(&json).unwrap(), 1770363389478012250);
    let parts = read_parts(&json).unwrap();
    assert_eq!(parts.command, var("cargo run"));
}

#[test]
fn crash_files_may_lack_members() {
    let json = "{\"iteration_seed\": -1}".to_string();
    assert_eq!(crash_seed(&json).unwrap(), 0);
    assert_eq!(crash_seed(&"[]".to_string()).unwrap(), 0);
    assert_eq!(
        show_crash(&json),
        vec![
            "  iteration_seed: -1".to_string(),
            "  steps_completed: null".to_string(),
            "  violation: null".to_string(),
        ]
    );
}

#[test]
fn crash_files_that_are_not_json_are_shown_raw() {
    let raw: Vec<String> = (1..=12).map(|i| format!("line {}", i)).collect();
    let text = raw.join("\n");
    assert_eq!(crash_seed(&text).unwrap_err().reason, "expected value at line 1 column 1");
    assert_eq!(read_parts(&text).unwrap_err().reason, "expected value at line 1 column 1");
    assert_eq!(crash_seed(&"{".to_string()).unwrap_err().reason, "EOF while parsing an object at line 1 column 1");
    let shown = show_crash(&text);
    assert_eq!(shown.len(), 10);
    assert_eq!(shown[0], "    line 1");
    assert_eq!(shown[9], "    line 10");
}

#[test]
fn summaries_of_given_parts() {
    let parts = CrashParts {
        iteration_seed: "1".to_string(),
        steps_completed: "2".to_string(),
        violation: "null".to_string(),
        command: None,
    };
    assert_eq!(
        summarize(&Ok(parts), &String::new()),
        vec!["  iteration_seed: 1".to_string(), "  steps_completed: 2".to_string(), "  violation: null".to_string()]
    );
    assert_eq!(seed_or_zero(None), 0);
    assert_eq!(seed_or_zero(Some(3)), 3);
}
