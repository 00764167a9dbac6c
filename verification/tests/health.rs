use cs110l::health::{filter_alive, ProbeOutcome};
use cs110l::upstream::UpstreamPool;

fn addrs(list: &[&str]) -> Vec<String> {
    list.iter().map(|s| s.to_string()).collect()
}

#[test]
fn only_status_200_is_alive() {
    assert!(ProbeOutcome::Status(200).is_alive());
    assert!(!ProbeOutcome::Status(201).is_alive());
    assert!(!ProbeOutcome::Status(204).is_alive());
    assert!(!ProbeOutcome::Status(301).is_alive());
    assert!(!ProbeOutcome::Status(404).is_alive());
    assert!(!ProbeOutcome::Status(500).is_alive());
    assert!(!ProbeOutcome::Status(0).is_alive());
    assert!(!ProbeOutcome::ConnectFailed.is_alive());
    assert!(!ProbeOutcome::SendFailed.is_alive());
    assert!(!ProbeOutcome::ResponseFailed.is_alive());
}

#[test]
fn a_pass_sorts_the_pool_by_outcome() {
    let mut pool = UpstreamPool::new(addrs(&["a:1", "b:2", "c:3", "d:4"]));
    filter_alive(
        &mut pool,
        &vec![
            ProbeOutcome::Status(200),
            ProbeOutcome::ConnectFailed,
            ProbeOutcome::Status(500),
            ProbeOutcome::Status(200),
        ],
    );
    assert_eq!(pool.alive(), addrs(&["a:1", "d:4"]));
    assert_eq!(pool.dead(), addrs(&["b:2", "c:3"]));
}

#[test]
fn an_upstream_that_always_fails_stays_dead() {
    let mut pool = UpstreamPool::new(addrs(&["down:1", "up:2"]));
    for _ in 0..10 {
        let targets = pool.probe_targets();
        let outcomes: Vec<ProbeOutcome> = targets
            .iter()
            .map(|t| if t == "down:1" { ProbeOutcome::ConnectFailed } else { ProbeOutcome::Status(200) })
            .collect();
        filter_alive(&mut pool, &outcomes);
        assert_eq!(pool.dead(), addrs(&["down:1"]));
        assert_eq!(pool.alive(), addrs(&["up:2"]));
        assert!(pool.is_dead(&"down:1".to_string()));
    }
}

#[test]
fn an_upstream_that_recovers_is_alive_after_the_next_pass() {
    let mut pool = UpstreamPool::new(addrs(&["a:1", "b:2"]));
    filter_alive(&mut pool, &vec![ProbeOutcome::ResponseFailed, ProbeOutcome::Status(200)]);
    assert_eq!(pool.dead(), addrs(&["a:1"]));
    assert_eq!(pool.probe_targets(), addrs(&["b:2", "a:1"]));
    filter_alive(&mut pool, &vec![ProbeOutcome::Status(200), ProbeOutcome::Status(200)]);
    assert_eq!(pool.alive(), addrs(&["b:2", "a:1"]));
    assert!(pool.dead().is_empty());
}

#[test]
fn a_pass_overrules_failover() {
    let mut pool = UpstreamPool::new(addrs(&["a:1", "b:2"]));
    pool.mark_dead(1);
    assert_eq!(pool.probe_targets(), addrs(&["a:1", "b:2"]));
    filter_alive(&mut pool, &vec![ProbeOutcome::SendFailed, ProbeOutcome::Status(200)]);
    assert_eq!(pool.alive(), addrs(&["b:2"]));
    assert_eq!(pool.dead(), addrs(&["a:1"]));
}

#[test]
fn a_pass_without_outcomes_leaves_nothing_alive() {
    let mut pool = UpstreamPool::new(addrs(&["a:1", "b:2"]));
    filter_alive(&mut pool, &Vec::new());
    assert_eq!(pool.alive_count(), 0);
    assert_eq!(pool.dead_count(), 2);
}
