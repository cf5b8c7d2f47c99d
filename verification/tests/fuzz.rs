//! Tests of the fuzzer: its command line, its configuration and its iterations.

use rand::rngs::StdRng;
use rand::Rng;
use rand::SeedableRng;

use tests_turmoil::campaign::reproduce_command;
use tests_turmoil::campaign::reproduce_report;
use tests_turmoil::campaign::Campaign;
use tests_turmoil::campaign::FuzzResult;
use tests_turmoil::cluster::FullNodeSnapshot;
use tests_turmoil::derived::DerivedConfig;
use tests_turmoil::iteration::after_step;
use tests_turmoil::iteration::Iteration;
use tests_turmoil::iteration::MembershipChange;
use tests_turmoil::iteration::StepNext;
use tests_turmoil::iteration::TickEnd;
use tests_turmoil::iteration::TickStart;
use tests_turmoil::options::parse_args;
use tests_turmoil::options::ArgError;
use tests_turmoil::options::FuzzCommand;
use tests_turmoil::options::FuzzConfig;
use tests_turmoil::options::FuzzMode;
use tests_turmoil::options::FuzzOption;
use tests_turmoil::store::StateMachineData;
use tests_turmoil::typ::LogIds;
use tests_turmoil::typ::RaftMetrics;
use tests_turmoil::typ::RaftStateSnapshot;
use tests_turmoil::typ::ServerState;
use tests_turmoil::typ::Vote;

fn args(words: &[&str]) -> Vec<String> {
    words.iter().map(|w| w.to_string()).collect()
}

/// The configuration that a command line gives.
fn config_of(words: &[&str]) -> FuzzConfig {
    match parse_args(&args(words)) {
        Ok(FuzzCommand::Run(config)) => config,
        other => panic!("no run: {:?}", other),
    }
}

#[test]
fn options_default() {
    for words in [vec![], vec!["fuzz"]] {
        let config = config_of(&words);
        assert_eq!(config.base_seed, None);
        assert_eq!(config.reproduce_seed, None);
        assert_eq!(config.max_steps, 100_000);
        assert_eq!(config.iterations, 100);
        assert_eq!(config.crash_file, None);
        assert_eq!(config.nodes, None);
        assert_eq!(config.fail_rate, None);
        assert!(!config.no_chaos);
    }
}

#[test]
fn options_of_the_readme_run() {
    let config = config_of(&["fuzz", "--iterations", "1", "--steps", "10000"]);
    assert_eq!(config.iterations, 1);
    assert_eq!(config.max_steps, 10000);
}

#[test]
fn options_long_and_short() {
    let long = config_of(&[
        "fuzz", "--seed", "7", "--reproduce", "8", "--max-steps", "9", "--iterations", "0", "--crash-file", "/tmp/x",
        "--nodes", "5", "--fail-rate", "0.25", "--no-chaos",
    ]);
    let short = config_of(&[
        "fuzz", "-s", "7", "-r", "8", "--steps", "9", "-i", "0", "--crash-file", "/tmp/x", "-n", "5", "-f", "0.25",
        "--no-chaos",
    ]);
    for config in [long, short] {
        assert_eq!(config.base_seed, Some(7));
        assert_eq!(config.reproduce_seed, Some(8));
        assert_eq!(config.max_steps, 9);
        assert_eq!(config.iterations, 0);
        assert_eq!(config.crash_file, Some("/tmp/x".to_string()));
        assert_eq!(config.nodes, Some(5));
        assert_eq!(config.fail_rate, Some("0.25".to_string()));
        assert!(config.no_chaos);
    }
}

#[test]
fn options_later_ones_win() {
    let config = config_of(&["fuzz", "-s", "1", "--seed", "+2"]);
    assert_eq!(config.base_seed, Some(2));
}

#[test]
fn options_help_ends_the_reading() {
    assert!(matches!(parse_args(&args(&["fuzz", "-h", "--bogus"])), Ok(FuzzCommand::Help)));
    assert!(matches!(parse_args(&args(&["fuzz", "-s", "1", "--help"])), Ok(FuzzCommand::Help)));
}

#[test]
fn options_unknown_missing_and_invalid() {
    let unknown = parse_args(&args(&["fuzz", "--bogus"])).unwrap_err();
    assert!(matches!(&unknown, ArgError::Unknown(word) if word == "--bogus"));
    assert_eq!(unknown.to_string(), "Unknown option: --bogus");

    let missing = parse_args(&args(&["fuzz", "-i"])).unwrap_err();
    assert!(matches!(missing, ArgError::MissingValue(FuzzOption::Iterations)));

    for (words, text) in [
        (["fuzz", "--seed", "x"], "Invalid seed"),
        (["fuzz", "-r", "-1"], "Invalid reproduce seed"),
        (["fuzz", "--max-steps", ""], "Invalid max-steps"),
        (["fuzz", "-i", "1.5"], "Invalid iterations"),
        (["fuzz", "-n", "18446744073709551616"], "Invalid nodes"),
    ] {
        let error = parse_args(&args(&words)).unwrap_err();
        assert!(matches!(error, ArgError::InvalidValue(_)));
        assert_eq!(error.to_string(), text);
    }
}

#[test]
fn mode_prefers_the_seed_to_reproduce() {
    let both = config_of(&["fuzz", "-s", "3", "-r", "4"]);
    assert_eq!(both.mode(5), FuzzMode::Reproduce { iteration_seed: 4 });
    let base = config_of(&["fuzz", "-s", "3"]);
    assert_eq!(base.mode(5), FuzzMode::Fuzz { base_seed: 3 });
    let none = config_of(&["fuzz"]);
    assert_eq!(none.mode(5), FuzzMode::Fuzz { base_seed: 5 });
}

/// The configuration of a seed, with both probabilities drawn.
fn derive(seed: u64) -> DerivedConfig<f64> {
    DerivedConfig::from_seed(
        seed,
        |mut rng: StdRng| {
            let rate = rng.gen_range(0.0..0.08);
            (rate, rng)
        },
        |mut rng: StdRng| {
            let chance = rng.gen_range(0.01..0.05);
            (chance, rng)
        },
    )
}

#[test]
fn derived_values_are_drawn_in_order() {
    for seed in [0u64, 1, 42, 1770363389478012250, u64::MAX] {
        let config = derive(seed);
        let mut rng = StdRng::seed_from_u64(seed);
        let heartbeat: u64 = 50 + rng.gen_range(0..100);
        let min: u64 = heartbeat * rng.gen_range(2..4);
        let nodes: usize = 3 + rng.gen_range(0..3);
        let fail_rate: f64 = rng.gen_range(0.0..0.08);
        let max: u64 = min + rng.gen_range(100..500);
        let chaos = rng.gen_bool(0.8);
        let restart: f64 = rng.gen_range(0.01..0.05);
        let chaos_interval: u64 = rng.gen_range(2000..5000);
        let membership_interval: u64 = rng.gen_range(10000..25000);
        assert_eq!(config.heartbeat_interval, heartbeat);
        assert_eq!(config.election_timeout_min, min);
        assert_eq!(config.num_initial_nodes, nodes as u64);
        assert_eq!(config.max_potential_nodes, 10);
        assert_eq!(config.fail_rate, fail_rate);
        assert_eq!(config.election_timeout_max, max);
        assert_eq!(config.enable_chaos, chaos);
        assert_eq!(config.restart_chance, restart);
        assert_eq!(config.chaos_interval, chaos_interval);
        assert_eq!(config.membership_interval, membership_interval);
    }
}

#[test]
fn derived_values_repeat_for_a_seed() {
    assert_eq!(format!("{:?}", derive(5)), format!("{:?}", derive(5)));
    assert_ne!(format!("{:?}", derive(5)), format!("{:?}", derive(6)));
}

#[test]
fn derived_config_of_a_recorded_crash() {
    let config: DerivedConfig<f64> = DerivedConfig::from_seed(
        1770363389478012250,
        |rng: StdRng| (0.0, rng),
        |mut rng: StdRng| {
            let chance = rng.gen_range(0.01..0.05);
            (chance, rng)
        },
    );
    assert_eq!(config.chaos_interval, 3112);
    assert_eq!(config.election_timeout_max, 703);
    assert_eq!(config.election_timeout_min, 234);
    assert!(config.enable_chaos);
    assert_eq!(config.fail_rate, 0.0);
    assert_eq!(config.heartbeat_interval, 78);
    assert_eq!(config.max_potential_nodes, 10);
    assert_eq!(config.membership_interval, 23825);
    assert_eq!(config.num_initial_nodes, 3);
    assert_eq!(config.restart_chance, 0.04181629574769935);
}

#[test]
fn derived_config_of_that_seed_as_it_is_drawn() {
    let config = derive(1770363389478012250);
    assert_eq!(config.num_initial_nodes, 3);
    assert_eq!(config.max_potential_nodes, 10);
    assert_eq!(config.fail_rate, 0.07392125026797647);
    assert_eq!(config.heartbeat_interval, 78);
    assert_eq!(config.election_timeout_min, 234);
    assert_eq!(config.election_timeout_max, 640);
    assert!(config.enable_chaos);
    assert_eq!(config.restart_chance, 0.024828409846169894);
    assert_eq!(config.chaos_interval, 4765);
    assert_eq!(config.membership_interval, 19566);
}

#[test]
fn election_timeouts_are_two_or_three_heartbeats() {
    let mut seen = [false; 2];
    for seed in 0..50 {
        let config = derive(seed);
        let factor = config.election_timeout_min / config.heartbeat_interval;
        assert_eq!(config.election_timeout_min, factor * config.heartbeat_interval);
        assert!(factor == 2 || factor == 3);
        seen[factor as usize - 2] = true;
    }
    assert_eq!(seen, [true; 2]);
}

#[test]
fn derived_config_is_overridden_by_options() {
    let plain = derive(7);
    let same = plain.clone().with_options(&config_of(&["fuzz"]), None);
    assert_eq!(same.num_initial_nodes, plain.num_initial_nodes);
    assert_eq!(same.fail_rate, plain.fail_rate);
    assert_eq!(same.enable_chaos, plain.enable_chaos);

    let set = plain.clone().with_options(&config_of(&["fuzz", "-n", "4", "--no-chaos"]), Some(0.5));
    assert_eq!(set.num_initial_nodes, 4);
    assert_eq!(set.max_potential_nodes, 10);
    assert_eq!(set.fail_rate, 0.5);
    assert!(!set.enable_chaos);
    assert_eq!(set.heartbeat_interval, plain.heartbeat_interval);

    let large = plain.with_options(&config_of(&["fuzz", "-n", "12"]), None);
    assert_eq!(large.num_initial_nodes, 12);
    assert_eq!(large.max_potential_nodes, 12);
}

fn passed(steps: u64) -> FuzzResult {
    FuzzResult { steps_completed: steps, invariant_checks: steps, violations: vec![] }
}

fn failed(steps: u64, violation: &str) -> FuzzResult {
    FuzzResult { steps_completed: steps, invariant_checks: steps, violations: vec![violation.to_string()] }
}

#[test]
fn campaign_counts_its_iterations() {
    let mut campaign = Campaign::new(u64::MAX, 2);
    assert_eq!(campaign.next_seed(false), None);
    assert_eq!(campaign.next_seed(true), Some(u64::MAX));
    assert!(!campaign.finish_iteration(&passed(10)));
    assert_eq!(campaign.next_seed(true), Some(0));
    assert!(!campaign.finish_iteration(&passed(5)));
    assert_eq!(campaign.next_seed(true), None);
    assert_eq!(campaign.iteration, 2);
    assert_eq!(campaign.total_steps, 15);
    assert_eq!(campaign.total_checks, 15);
}

#[test]
fn campaign_without_limit_goes_on() {
    let mut campaign = Campaign::new(1, 0);
    for i in 0..1000 {
        assert_eq!(campaign.next_seed(true), Some(1 + i));
        assert!(!campaign.finish_iteration(&passed(1)));
    }
}

#[test]
fn campaign_stops_at_the_first_failure() {
    let mut campaign = Campaign::new(100, 0);
    assert!(!campaign.finish_iteration(&passed(10)));
    let failure = failed(3, "Step 3: x");
    assert!(campaign.finish_iteration(&failure));
    assert_eq!(campaign.iteration, 1);
    assert_eq!(campaign.total_steps, 13);
    let config = config_of(&["fuzz", "--steps", "50"]);
    let report = campaign.crash_report(&config, &failure, &"/tmp/c.json".to_string());
    assert_eq!(report.base_seed, 100);
    assert_eq!(report.iteration, 1);
    assert_eq!(report.iteration_seed, 101);
    assert_eq!(report.max_steps, 50);
    assert_eq!(report.steps_completed, 3);
    assert_eq!(report.violation, Some("Step 3: x".to_string()));
    assert_eq!(
        report.command,
        "cargo run --bin fuzz -- --reproduce 101 --max-steps 50 --crash-file /tmp/c.json"
    );
    let config = config_of(&["fuzz", "--steps", "50", "-n", "7", "-f", "0.25", "--no-chaos"]);
    assert_eq!(
        campaign.crash_report(&config, &failure, &"/tmp/c.json".to_string()).command,
        "cargo run --bin fuzz -- --reproduce 101 --max-steps 50 --crash-file /tmp/c.json --nodes 7 --fail-rate 0.25 --no-chaos"
    );
}

#[test]
fn report_of_a_recorded_crash() {
    let seed = 1770363389478012250;
    let path = "/tmp/crash-7a1411c5-2a68-4ccc-9729-b0833d10b844.json".to_string();
    let violation = "Step 20827: LeaderMissingCommitted { term: 2, leader: 7, missing_index: 125 }";
    let config = config_of(&["fuzz", "--max-steps", "10000000000"]);
    let report = reproduce_report(seed, &config, &failed(20827, violation), &path);
    assert_eq!(report.base_seed, seed);
    assert_eq!(report.iteration, 0);
    assert_eq!(report.iteration_seed, seed);
    assert_eq!(report.max_steps, 10000000000);
    assert_eq!(report.steps_completed, 20827);
    assert_eq!(report.violation, Some(violation.to_string()));
    assert_eq!(
        report.command,
        "cargo run --bin fuzz -- --reproduce 1770363389478012250 --max-steps 10000000000 --crash-file /tmp/crash-7a1411c5-2a68-4ccc-9729-b0833d10b844.json"
    );
    assert_eq!(reproduce_report(1, &config, &passed(2), &path).violation, None);
}

#[test]
fn reproduce_command_is_read_back() {
    let command = reproduce_command(12, 34, None, None, None, false);
    assert_eq!(command, "cargo run --bin fuzz -- --reproduce 12 --max-steps 34");
    let words: Vec<&str> = command.split(' ').skip(4).collect();
    let config = config_of(&words);
    assert_eq!(config.mode(0), FuzzMode::Reproduce { iteration_seed: 12 });
    assert_eq!(config.max_steps, 34);
}

#[test]
fn reproduction_has_the_configuration_of_the_run() {
    let lines = [
        vec!["fuzz"],
        vec!["fuzz", "--nodes", "7"],
        vec!["fuzz", "--fail-rate", "0.5"],
        vec!["fuzz", "--no-chaos"],
        vec!["fuzz", "-s", "3", "-i", "9", "-n", "4", "-f", "0", "--no-chaos", "--steps", "77"],
    ];
    for line in lines {
        let run = config_of(&line);
        let path = "crash.json".to_string();
        let report = Campaign::new(40, 0).crash_report(&run, &failed(1, "x"), &path);
        let words: Vec<&str> = report.command.split(' ').skip(4).collect();
        let again = config_of(&words);
        assert_eq!(again.mode(0), FuzzMode::Reproduce { iteration_seed: 40 });
        assert_eq!(again.max_steps, run.max_steps);
        assert_eq!(again.crash_file, Some(path));
        assert_eq!(again.fail_rate, run.fail_rate);
        let rate: Option<f64> = run.fail_rate.as_ref().map(|text| text.parse().unwrap());
        assert_eq!(
            format!("{:?}", derive(40).with_options(&run, rate)),
            format!("{:?}", derive(40).with_options(&again, rate))
        );
    }
}

/// What happened before each tick of an iteration, and what came of it. In the 25th
/// tick two nodes are found to lead.
fn trace(seed: u64, nodes: u64, max_steps: u64) -> (Vec<TickStart>, FuzzResult) {
    let mut it = iteration(seed, nodes, 2, 3, max_steps);
    let mut starts = Vec::new();
    loop {
        let (next, start) = it.begin_tick(true, |mut rng: StdRng| {
            let hit = rng.gen_bool(0.5);
            (hit, rng)
        });
        it = next;
        if !matches!(start, TickStart::Go { .. }) {
            return (starts, it.into_result());
        }
        starts.push(start);
        let snapshots = if starts.len() == 25 {
            vec![(1, leader_snapshot(5)), (3, leader_snapshot(5))]
        } else {
            vec![]
        };
        if matches!(it.end_tick(&snapshots, &vec![]), TickEnd::Violated) {
            return (starts, it.into_result());
        }
    }
}

#[test]
fn iterations_with_one_seed_decide_alike() {
    for seed in 0..20 {
        let (a, result_a) = trace(seed, 4, 100);
        let (b, result_b) = trace(seed, 4, 100);
        assert_eq!(a, b);
        assert_eq!(a.len(), 25);
        assert_eq!(format!("{:?}", result_a), format!("{:?}", result_b));
        assert_eq!(result_a.violations.len(), 1);
        let (c, _) = trace(seed, 4, 10);
        assert_eq!(c, a[..10]);
    }
    assert_ne!(trace(1, 4, 20).0, trace(2, 4, 20).0);
}

#[test]
fn every_step_is_checked_whatever_the_configuration_is() {
    for nodes in [0, 1, 2, 3, 7, 12] {
        for max_steps in [0, 1, 9, 40] {
            let (starts, result) = trace(3, nodes, max_steps);
            assert_eq!(result.steps_completed, starts.len() as u64);
            assert_eq!(result.invariant_checks, result.steps_completed);
            assert!(result.steps_completed <= max_steps);
        }
    }
}

/// An iteration with these intervals and this many voters of ten nodes.
fn iteration(seed: u64, nodes: u64, membership_interval: u64, chaos_interval: u64, max_steps: u64) -> Iteration {
    let mut config = derive(1);
    config.num_initial_nodes = nodes;
    config.membership_interval = membership_interval;
    config.chaos_interval = chaos_interval;
    Iteration::new(seed, &config, max_steps)
}

fn never(rng: StdRng) -> (bool, StdRng) {
    (false, rng)
}

fn always(rng: StdRng) -> (bool, StdRng) {
    (true, rng)
}

#[test]
fn iteration_begins_with_the_first_nodes() {
    let it = iteration(5, 3, 10, 10, 7);
    assert_eq!(it.active_voters.to_vec(), vec![1, 2, 3]);
    assert_eq!(it.next_node_id, 4);
    assert_eq!(it.steps, 0);
    assert_eq!(it.max_steps, 7);
}

#[test]
fn iteration_ends_when_interrupted_or_done() {
    let it = iteration(5, 3, 10, 10, 1);
    let (it, start) = it.begin_tick(false, never);
    assert_eq!(start, TickStart::Interrupted);
    let (mut it, start) = it.begin_tick(true, never);
    assert_eq!(start, TickStart::Go { membership: MembershipChange::Keep, restart: None });
    assert!(matches!(it.end_tick(&[], &vec![]), TickEnd::Next));
    let (it, start) = it.begin_tick(true, never);
    assert_eq!(start, TickStart::MaxSteps);
    let result = it.into_result();
    assert_eq!(result.steps_completed, 1);
    assert_eq!(result.invariant_checks, 1);
    assert!(result.violations.is_empty());
}

#[test]
fn membership_changes_follow_the_generator() {
    let seed = 99u64;
    let mut rng = StdRng::seed_from_u64(seed.wrapping_add(5000));
    let mut it = iteration(seed, 4, 1, 1_000_000, 1_000_000);
    it.steps = 1;
    let mut voters: Vec<u64> = vec![1, 2, 3, 4];
    let mut next = 5;
    let mut seen_add = false;
    let mut seen_remove = false;
    for _ in 0..50 {
        let add = voters.len() < 3 || (voters.len() < 7 && rng.gen_bool(0.7));
        let expected = if add {
            if next <= 10 {
                voters.push(next);
                next += 1;
                seen_add = true;
                MembershipChange::Add(next - 1)
            } else {
                MembershipChange::Keep
            }
        } else if voters.len() > 3 {
            seen_remove = true;
            MembershipChange::Remove(voters.remove(0))
        } else {
            MembershipChange::Keep
        };
        assert_eq!(it.change_membership(), expected);
        assert_eq!(it.active_voters.to_vec(), voters);
        assert!(3 <= voters.len() && voters.len() <= 7);
        assert_eq!(it.next_node_id, next);
    }
    assert!(seen_add && seen_remove);
}

#[test]
fn membership_changes_only_at_the_interval() {
    let mut it = iteration(1, 5, 4, 100, 100);
    it.steps = 0;
    assert_eq!(it.change_membership(), MembershipChange::Keep);
    it.steps = 3;
    assert_eq!(it.change_membership(), MembershipChange::Keep);
    it.steps = 4;
    assert!(it.change_membership() != MembershipChange::Keep);
}

#[test]
fn small_clusters_always_grow() {
    let mut it = iteration(1, 2, 1, 100, 100);
    it.steps = 1;
    assert_eq!(it.change_membership(), MembershipChange::Add(3));
    assert_eq!(it.active_voters.to_vec(), vec![1, 2, 3]);
}

#[test]
fn crashes_hit_a_drawn_voter() {
    let seed = 31u64;
    let mut rng = StdRng::seed_from_u64(seed.wrapping_add(3000));
    let mut it = iteration(seed, 5, 1000, 2, 1000);
    for step in [2u64, 4, 6, 8] {
        it.steps = step;
        let victim = 1 + rng.gen_range(0..5usize) as u64;
        let (next, start) = it.begin_tick(true, always);
        it = next;
        assert_eq!(start, TickStart::Go { membership: MembershipChange::Keep, restart: Some(victim) });
    }
    it.steps = 3;
    let (it, start) = it.begin_tick(true, always);
    assert_eq!(start, TickStart::Go { membership: MembershipChange::Keep, restart: None });
    let mut it = it;
    it.steps = 10;
    let (_, start) = it.begin_tick(true, never);
    assert_eq!(start, TickStart::Go { membership: MembershipChange::Keep, restart: None });
}

#[test]
fn nobody_crashes_without_voters() {
    let mut it = iteration(31, 0, 1000, 2, 1000);
    it.steps = 2;
    let (_, start) = it.begin_tick(true, always);
    assert_eq!(start, TickStart::Go { membership: MembershipChange::Keep, restart: None });
}

#[test]
fn steps_of_the_simulation() {
    assert_eq!(after_step(&Ok(true)), StepNext::Again);
    assert_eq!(after_step(&Ok(false)), StepNext::TickDone);
    assert_eq!(
        after_step(&Err("Ran for duration: 3600s steps: 9 without completing".to_string())),
        StepNext::DurationReached
    );
    assert_eq!(after_step(&Err("a without completing b".to_string())), StepNext::DurationReached);
    assert_eq!(after_step(&Err("host node-1 has failed".to_string())), StepNext::Failed);
}

fn leader_snapshot(term: u64) -> FullNodeSnapshot {
    FullNodeSnapshot {
        raft: RaftStateSnapshot {
            server_state: ServerState::Leader,
            vote: Vote { term, node_id: 1 },
            committed: None,
            log_ids: LogIds { purged: None, by_index: Default::default() },
        },
        sm: StateMachineData::default(),
    }
}

#[test]
fn violations_end_the_iteration() {
    let mut it = iteration(1, 3, 1000, 1000, 100_000);
    it.steps = 20826;
    it.invariant_checks = 20826;
    let snapshots = vec![(1, leader_snapshot(5)), (3, leader_snapshot(5))];
    assert!(matches!(it.end_tick(&snapshots, &vec![]), TickEnd::Violated));
    let result = it.into_result();
    assert_eq!(result.steps_completed, 20827);
    assert_eq!(result.invariant_checks, 20827);
    assert_eq!(
        result.violations,
        vec!["Step 20827: MultipleLeadersInTerm { term: 5, leaders: [1, 3] }".to_string()]
    );
}

#[test]
fn progress_is_reported_every_five_thousand_steps() {
    let metrics = |state: ServerState, term: u64, id: u64| {
        (id, RaftMetrics { id, state, vote: Vote { term, node_id: id } })
    };
    let all = vec![
        metrics(ServerState::Follower, 9, 1),
        metrics(ServerState::Leader, 7, 2),
        metrics(ServerState::Candidate, 8, 3),
    ];
    let mut it = iteration(1, 3, 1_000_000, 1_000_000, 100_000);
    it.steps = 4998;
    assert!(matches!(it.end_tick(&[], &all), TickEnd::Next));
    match it.end_tick(&[(2, leader_snapshot(7))], &all) {
        TickEnd::Report(progress) => {
            assert_eq!(progress.step, 5000);
            assert_eq!(progress.leaders, vec![2]);
            assert_eq!(progress.max_term, 9);
            assert_eq!(progress.voters, vec![1, 2, 3]);
            assert_eq!(progress.checks, 2);
        }
        other => panic!("no report: {:?}", other),
    }
    it.steps = 9999;
    match it.end_tick(&[], &vec![]) {
        TickEnd::Report(progress) => assert_eq!(progress.max_term, 0),
        other => panic!("no report: {:?}", other),
    }
}
