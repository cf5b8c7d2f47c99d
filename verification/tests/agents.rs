//! Tests of what runs beside the nodes, and of the generator behind it.

use rand::rngs::StdRng;
use rand::Rng;
use rand::SeedableRng;

use tests_turmoil::agents::all_links_both_ways;
use tests_turmoil::agents::all_links_once;
use tests_turmoil::agents::find_leader;
use tests_turmoil::agents::hold_step;
use tests_turmoil::agents::membership_step;
use tests_turmoil::agents::node_links;
use tests_turmoil::agents::requeue;
use tests_turmoil::agents::ChaosAction;
use tests_turmoil::agents::ChaosAgent;
use tests_turmoil::agents::HoldStep;
use tests_turmoil::agents::MembershipStep;
use tests_turmoil::agents::Workload;
use tests_turmoil::ordered::IdSet;
use tests_turmoil::rng::seeded;
use tests_turmoil::typ::RaftMetrics;
use tests_turmoil::typ::ServerState;
use tests_turmoil::typ::Vote;

#[test]
fn generators_repeat_for_a_seed() {
    let mut a = seeded(17);
    let mut b = StdRng::seed_from_u64(17);
    for _ in 0..100 {
        assert_eq!(a.gen::<u64>(), b.gen::<u64>());
    }
    assert_ne!(seeded(1).gen::<u64>(), seeded(2).gen::<u64>());
}

#[test]
fn links_between_three_nodes() {
    assert_eq!(node_links(2, 3), vec![(2, 1), (2, 3)]);
    assert_eq!(node_links(9, 3), vec![(9, 1), (9, 2), (9, 3)]);
    assert_eq!(all_links_once(3), vec![(1, 2), (1, 3), (2, 3)]);
    assert_eq!(all_links_both_ways(3), vec![(1, 2), (1, 3), (2, 1), (2, 3), (3, 1), (3, 2)]);
    assert!(all_links_once(1).is_empty());
    assert!(all_links_both_ways(0).is_empty());
}

#[test]
fn repair_mends_what_a_partition_cuts() {
    let once = all_links_once(10);
    assert_eq!(once.len(), 45);
    for (a, b) in node_links(4, 10) {
        assert!(once.contains(&(a, b)) || once.contains(&(b, a)));
    }
    let both = all_links_both_ways(10);
    assert_eq!(both.len(), 90);
    for (a, b) in once {
        assert!(both.contains(&(a, b)) && both.contains(&(b, a)));
    }
}

#[test]
fn chaos_agent_follows_its_generator() {
    let seed = 12345u64;
    let max_nodes = 10u64;
    let mut agent = ChaosAgent::new(seed, max_nodes);
    let mut rng = StdRng::seed_from_u64(seed.wrapping_add(1000));
    let mut seen = [false; 5];
    for _ in 0..200 {
        assert_eq!(agent.draw_delay(), rng.gen_range(1000..5000u64));
        let kind = rng.gen_range(0..5);
        seen[kind as usize] = true;
        let action = agent.draw_action();
        match kind {
            0 => {
                let victim = rng.gen_range(1..=max_nodes);
                assert!(matches!(action, ChaosAction::Partition(links) if links == node_links(victim, max_nodes)));
            }
            1 => assert!(matches!(action, ChaosAction::Repair(links) if links == all_links_once(max_nodes))),
            2 => {
                let first = rng.gen_range(1..=max_nodes);
                let mut second = rng.gen_range(1..=max_nodes);
                assert!(matches!(action, ChaosAction::Hold { a, b } if a == first && b == second));
                let mut step = hold_step(first, second);
                while second == first {
                    assert_eq!(step, HoldStep::DrawAgain { a: first });
                    second = rng.gen_range(1..=max_nodes);
                    step = agent.draw_again(first);
                }
                assert_eq!(step, HoldStep::Hold { a: first, b: second });
            }
            3 => assert!(matches!(action, ChaosAction::Release(links) if links == all_links_both_ways(max_nodes))),
            _ => assert!(matches!(action, ChaosAction::Rest)),
        }
    }
    assert_eq!(seen, [true; 5]);
}

#[test]
fn no_messages_are_held_between_a_node_and_itself() {
    assert_eq!(hold_step(3, 4), HoldStep::Hold { a: 3, b: 4 });
    assert_eq!(hold_step(4, 3), HoldStep::Hold { a: 4, b: 3 });
    assert_eq!(hold_step(3, 3), HoldStep::DrawAgain { a: 3 });
    let mut alone = ChaosAgent::new(1, 1);
    assert_eq!(alone.draw_again(1), HoldStep::DrawAgain { a: 1 });
    assert_eq!(alone.draw_again(2), HoldStep::Hold { a: 2, b: 1 });
}

#[test]
fn workload_follows_its_generator() {
    let seed = 7u64;
    let mut workload = Workload::new(seed);
    let mut rng = StdRng::seed_from_u64(seed.wrapping_add(2000));
    for i in 0..5u64 {
        assert_eq!(workload.draw_delay(), rng.gen_range(10..50u64));
        let request = workload.next_request();
        assert_eq!(request.client_id, "workload");
        assert_eq!(request.serial, i);
        assert_eq!(request.key, format!("key-{}", i));
        assert_eq!(request.value, format!("value-{}-{}", i, rng.gen::<u32>()));
        workload.record(true);
    }
    workload.record(false);
    assert_eq!(workload.write_count, 5);
    workload.write_count = 2003;
    assert_eq!(workload.next_request().key, "key-3");
}

fn metrics(id: u64, state: ServerState) -> (u64, RaftMetrics) {
    (id, RaftMetrics { id, state, vote: Vote { term: 1, node_id: id } })
}

#[test]
fn the_first_leader_is_found() {
    assert_eq!(find_leader(&vec![]), None);
    assert_eq!(find_leader(&vec![metrics(1, ServerState::Follower), metrics(2, ServerState::Candidate)]), None);
    let two = vec![
        metrics(1, ServerState::Learner),
        metrics(3, ServerState::Leader),
        metrics(4, ServerState::Leader),
    ];
    assert_eq!(find_leader(&two), Some(3));
}

fn set(ids: &[u64]) -> IdSet {
    let mut set = IdSet::new();
    for id in ids {
        set.insert(*id);
    }
    set
}

#[test]
fn membership_requests_go_to_the_leader_or_wait() {
    assert!(matches!(membership_step(None, Some(1)), MembershipStep::Wait));
    match membership_step(Some(set(&[1, 2, 3])), Some(2)) {
        MembershipStep::Change { leader, voters } => {
            assert_eq!(leader, 2);
            assert_eq!(voters.to_vec(), vec![1, 2, 3]);
        }
        _ => panic!("no change"),
    }
    match membership_step(Some(set(&[4])), None) {
        MembershipStep::Requeue { voters, delay_ms } => {
            assert_eq!(delay_ms, 500);
            let mut slot = None;
            requeue(&mut slot, voters);
            assert_eq!(slot.unwrap().to_vec(), vec![4]);
        }
        _ => panic!("not requeued"),
    }
    let mut newer = Some(set(&[9]));
    requeue(&mut newer, set(&[4]));
    assert_eq!(newer.unwrap().to_vec(), vec![9]);
}

#[test]
fn id_sets_are_ordered() {
    let mut ids = set(&[5, 1, 3, 1]);
    assert_eq!(ids.to_vec(), vec![1, 3, 5]);
    assert_eq!(ids.len(), 3);
    assert!(ids.contains(3));
    ids.remove(3);
    ids.remove(4);
    assert!(!ids.contains(3));
    assert_eq!(ids.clone().to_vec(), vec![1, 5]);
}
