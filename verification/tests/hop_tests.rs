use rzrouter::demux::{shard_index, DemuxError};
use rzrouter::hop::{
    connections_to_open, count_open, decode_hop_state, encode_hop_state, maintenance_action, pick_open,
    recover_after_failed_open, AtomicHopState, HopState, MaintenanceAction,
};
use rzrouter::hop_manager::ids_to_retire;
use rzrouter::resolver::{hop_not_found, resolved_host, retry_delay_ms, RzPointEndpoint};
use rzrouter::config::RouterMode;
use rzrouter::error::RZError;

#[test]
fn hop_state_codes() {
    for st in [HopState::Healthy, HopState::Recovering, HopState::Unavailable] {
        assert!(decode_hop_state(encode_hop_state(st)) == st);
    }
    assert!(decode_hop_state(7) == HopState::Unavailable);
    let a = AtomicHopState::new(HopState::Recovering);
    assert!(a.load() == HopState::Recovering);
    a.store(HopState::Healthy);
    assert!(a.compare_exchange(HopState::Healthy, HopState::Unavailable).is_ok());
    assert!(a.compare_exchange(HopState::Healthy, HopState::Recovering) == Err(HopState::Unavailable));
    assert!(a.load() == HopState::Unavailable);
}

#[test]
fn round_robin_pick() {
    let closed = vec![false, true, false];
    assert_eq!(pick_open(&closed, 0), Some(0));
    assert_eq!(pick_open(&closed, 1), Some(2));
    assert_eq!(pick_open(&closed, 5), Some(2));
    assert_eq!(pick_open(&closed, usize::MAX), Some(0));
    assert_eq!(pick_open(&vec![true, true], 3), None);
    assert_eq!(pick_open(&vec![], 3), None);
    assert_eq!(count_open(&closed), 2);
    assert_eq!(count_open(&vec![true]), 0);
}

#[test]
fn maintenance_decisions() {
    assert!(maintenance_action(HopState::Healthy, false) == MaintenanceAction::EnsureConnections);
    assert!(maintenance_action(HopState::Recovering, true) == MaintenanceAction::Reconnect);
    assert!(maintenance_action(HopState::Recovering, false) == MaintenanceAction::ResolveAndReconnect);
    assert!(maintenance_action(HopState::Unavailable, true) == MaintenanceAction::StartRecovering);
    assert!(maintenance_action(HopState::Unavailable, false) == MaintenanceAction::Wait);
    assert_eq!(connections_to_open(4, 1), 3);
    assert_eq!(connections_to_open(0, 0), 1);
    assert_eq!(connections_to_open(4, 6), 0);
    assert!(recover_after_failed_open(0, 2));
    assert!(!recover_after_failed_open(0, 1));
    assert!(!recover_after_failed_open(1, 3));
}

#[test]
fn retire_unused_hops() {
    let reg: Vec<String> = ["r1", "r2", "r3"].iter().map(|x| x.to_string()).collect();
    let active: Vec<String> = ["r2", "x"].iter().map(|x| x.to_string()).collect();
    assert_eq!(ids_to_retire(&reg, &active), vec!["r1".to_string(), "r3".to_string()]);
    assert!(ids_to_retire(&reg, &reg).is_empty());
}

#[test]
fn demux_shards() {
    assert_eq!(shard_index(130, 64), 2);
    assert_eq!(shard_index(u32::MAX, 64), 63);
    assert!(DemuxError::Timeout != DemuxError::ConnectionClosed);
}

#[test]
fn resolver_urls_and_answers() {
    let e = RzPointEndpoint::new("172.20.0.40:9090/", RouterMode::Edge);
    assert_eq!(e.base_url, "http://172.20.0.40:9090");
    assert_eq!(e.resolve_url("router-1"), "http://172.20.0.40:9090/routers/router-1");
    let e = RzPointEndpoint::new("https://p//", RouterMode::Zone);
    assert_eq!(e.base_url, "https://p");
    assert_eq!(e.resolve_url("b1"), "https://p/bridges/b1");
    assert_eq!(resolved_host("b1", "  host-1.internal \n").ok(), Some("host-1.internal".to_string()));
    match resolved_host("b1", " \t\n") {
        Err(RZError::Resolver(m)) => assert_eq!(m, "empty response for hop b1"),
        _ => panic!("expected an error"),
    }
    match hop_not_found("b9") {
        RZError::Resolver(m) => assert_eq!(m, "hop b9 not found"),
        _ => panic!("expected a resolver error"),
    }
    assert_eq!(retry_delay_ms(0), Some(100));
    assert_eq!(retry_delay_ms(1), Some(200));
    assert_eq!(retry_delay_ms(2), None);
}
