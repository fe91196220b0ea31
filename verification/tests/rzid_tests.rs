use rzrouter::config::{Config, RouterMode};
use rzrouter::error::RZError;
use rzrouter::routing_state::{EdgeState, RoutingSnapshot, ZoneState};
use rzrouter::rzid::{
    apply_edge_fetch, apply_shard_segments, edge_fetch_plan, edge_valid_zones, finish_edge_sync, finish_zone_sync,
    install_zone_shards, shard_segments_due, zone_shards_due, EdgeFetchKind, RzidEndpoint, ShardBridges,
    VersionManifest,
};
use rzrouter::strmap::StrMap;

fn s(v: &[&str]) -> Vec<String> {
    v.iter().map(|x| x.to_string()).collect()
}

fn config(mode: RouterMode, addr: &str) -> Config {
    Config {
        mode,
        listen_host: "0.0.0.0".to_string(),
        tcp_port: 9000,
        api_listening_addr: "0.0.0.0".to_string(),
        api_port: 9100,
        rzid_addr: addr.to_string(),
        rzpoint_addr: "p:1".to_string(),
        zone_id: Some("zone1".to_string()),
        router_id: Some("router-zone-0".to_string()),
        max_connections: 10,
        conn_per_hop: 4,
        hop_tcp_port: 9000,
        refresh_interval_secs: 10,
        heartbeat_interval_secs: 30,
        request_timeout_secs: 30,
        worker_threads: 4,
        app_keepalive_secs: 15,
        frame_timeout_secs: 20,
        idle_timeout_secs: 90,
        max_buffer_size: 100,
        max_frame_size: 10,
    }
}

fn manifest(entries: &[(&str, u64)]) -> VersionManifest {
    let mut versions = StrMap::new();
    for (k, v) in entries {
        versions.insert(k.to_string(), *v);
    }
    VersionManifest { global_version: 1, versions }
}

fn sorted(mut v: Vec<String>) -> Vec<String> {
    v.sort();
    v
}

#[test]
fn base_url_normalization() {
    let e = RzidEndpoint::new(&config(RouterMode::Edge, "http://https://host:8080//")).ok().unwrap();
    assert_eq!(e.base_url, "http://host:8080");
    let e = RzidEndpoint::new(&config(RouterMode::Edge, "http://http://h/")).ok().unwrap();
    assert_eq!(e.base_url, "http://h");
    let e = RzidEndpoint::new(&config(RouterMode::Edge, "172.20.0.41:8080")).ok().unwrap();
    assert_eq!(e.base_url, "http://172.20.0.41:8080");
    assert_eq!(e.zone_id, "zone1");
    assert_eq!(e.router_id, "router-zone-0");
}

#[test]
fn zone_mode_needs_ids() {
    let mut c = config(RouterMode::Zone, "h");
    c.router_id = None;
    match RzidEndpoint::new(&c) {
        Err(RZError::Config(m)) => assert_eq!(m, "zone mode requires zone_id and router_id"),
        _ => panic!("expected an error"),
    }
    let mut c = config(RouterMode::Edge, "h");
    c.router_id = None;
    let e = RzidEndpoint::new(&c).ok().unwrap();
    assert_eq!(e.router_id, "");
}

#[test]
fn urls_and_registration() {
    let e = RzidEndpoint::new(&config(RouterMode::Zone, "h:1")).ok().unwrap();
    assert_eq!(e.register_url(), "http://h:1/register");
    assert_eq!(e.versions_url(), "http://h:1/versions");
    assert_eq!(e.codecs_url(), "http://h:1/codecs");
    assert_eq!(e.zone_routers_url("z"), "http://h:1/zones/z/routers");
    assert_eq!(e.zone_segments_url("z"), "http://h:1/zones/z/segments");
    assert_eq!(e.zone_shards_url("z"), "http://h:1/zones/z/shards");
    assert_eq!(e.shard_segments_url("s"), "http://h:1/shards/s/segments");
    assert!(e.sends_heartbeat());
    let r = e.register_request();
    assert_eq!(r.kind, "router");
    assert_eq!(r.id, "router-zone-0");
    assert_eq!(r.zone, "zone1");
    assert!(r.shard.is_none());
    let e = RzidEndpoint::new(&config(RouterMode::Edge, "h:1")).ok().unwrap();
    assert!(!e.sends_heartbeat());
}

#[test]
fn edge_change_detection() {
    let e = RzidEndpoint::new(&config(RouterMode::Edge, "h")).ok().unwrap();
    let m = manifest(&[
        ("zones/z1/routers", 3),
        ("zones/z1/segments", 4),
        ("zones/z2/shards", 5),
        ("shards/s1/segments", 6),
    ]);
    let mut local = StrMap::new();
    assert_eq!(sorted(e.detect_changes(&m, &local)), s(&["zones/z1/routers", "zones/z1/segments"]));
    local.insert("zones/z1/routers".to_string(), 3);
    assert_eq!(e.detect_changes(&m, &local), s(&["zones/z1/segments"]));
    local.insert("zones/z1/segments".to_string(), 2);
    assert_eq!(e.detect_changes(&m, &local), s(&["zones/z1/segments"]));
    local.insert("zones/z1/segments".to_string(), 4);
    assert!(e.detect_changes(&m, &local).is_empty());
}

#[test]
fn zone_change_detection() {
    let e = RzidEndpoint::new(&config(RouterMode::Zone, "h")).ok().unwrap();
    let m = manifest(&[("zones/zone1/shards", 1), ("zones/zone2/shards", 1), ("zones/zone1/routers", 1)]);
    let local = StrMap::new();
    assert_eq!(e.detect_changes(&m, &local), s(&["zones/zone1/shards"]));
}

#[test]
fn valid_zones_from_manifest() {
    let m = manifest(&[
        ("zones/z1/routers", 1),
        ("zones/z1/segments", 1),
        ("zones/z2", 1),
        ("zones", 1),
        ("zonesX/z3/routers", 1),
        ("shards/s1/segments", 1),
    ]);
    assert_eq!(sorted(edge_valid_zones(&m)), s(&["z1", "z2"]));
}

#[test]
fn edge_plan_and_apply() {
    let plan = edge_fetch_plan(&s(&["z1", "z2"]), &s(&["zones/z2/segments", "zones/z1/routers", "zones/z2/routers"]));
    let got: Vec<(String, EdgeFetchKind, String)> = plan.iter().map(|f| (f.zone.clone(), f.kind, f.key.clone())).collect();
    assert_eq!(
        got,
        vec![
            ("z1".to_string(), EdgeFetchKind::Routers, "zones/z1/routers".to_string()),
            ("z2".to_string(), EdgeFetchKind::Routers, "zones/z2/routers".to_string()),
            ("z2".to_string(), EdgeFetchKind::Segments, "zones/z2/segments".to_string()),
        ]
    );
    let mut state = EdgeState::new();
    apply_edge_fetch(&mut state, &plan[0], s(&["r1"]));
    apply_edge_fetch(&mut state, &plan[2], s(&["london"]));
    apply_edge_fetch(&mut state, &plan[1], s(&["r2"]));
    assert_eq!(state.lookup("london"), &s(&["r2"])[..]);
}

#[test]
fn finish_edge_drops_segments_without_routers() {
    let mut state = EdgeState::new();
    state.set_zone_routers("z1", s(&["r1"]));
    state.set_segment_zone("a".to_string(), "z1".to_string());
    state.set_segment_zone("b".to_string(), "z9".to_string());
    match finish_edge_sync(state) {
        Ok(RoutingSnapshot::Edge(e)) => {
            assert_eq!(e.segment_to_zone.len(), 1);
            assert_eq!(e.lookup("a"), &s(&["r1"])[..]);
        },
        _ => panic!("expected an edge snapshot"),
    }
    let mut state = EdgeState::new();
    state.set_segment_zone("b".to_string(), "z9".to_string());
    match finish_edge_sync(state) {
        Err(RZError::NoRoute(m)) => assert_eq!(m, "empty edge state after sync"),
        _ => panic!("expected an error"),
    }
}

#[test]
fn zone_sync_steps() {
    let e = RzidEndpoint::new(&config(RouterMode::Zone, "h")).ok().unwrap();
    let mut state = ZoneState::new();
    assert!(zone_shards_due(&e, &Vec::new(), &state));
    state.set_segment_shard("old".to_string(), "gone".to_string());
    let mut shards = StrMap::new();
    shards.insert("s1".to_string(), ShardBridges { bridges: s(&["b1", "b2"]) });
    install_zone_shards(&mut state, shards);
    assert!(state.segment_to_shard.get("old").is_none());
    assert!(!zone_shards_due(&e, &Vec::new(), &state));
    assert!(zone_shards_due(&e, &s(&["zones/zone1/shards"]), &state));

    let m = manifest(&[("shards/s1/segments", 2)]);
    let mut local = StrMap::new();
    assert!(shard_segments_due(&m, &local, "s1"));
    assert!(!shard_segments_due(&m, &local, "s2"));
    local.insert("shards/s1/segments".to_string(), 2);
    assert!(!shard_segments_due(&m, &local, "s1"));

    assert!(!apply_shard_segments(&e, &mut state, "s1", "zone2", s(&["x"])));
    assert!(state.lookup("x").is_empty());
    assert!(apply_shard_segments(&e, &mut state, "s1", "zone1", s(&["x"])));
    assert_eq!(state.lookup("x"), &s(&["b1", "b2"])[..]);

    match finish_zone_sync(state) {
        Ok(RoutingSnapshot::Zone(z)) => assert_eq!(z.lookup("x"), &s(&["b1", "b2"])[..]),
        _ => panic!("expected a zone snapshot"),
    }
    match finish_zone_sync(ZoneState::new()) {
        Err(RZError::NoRoute(m)) => assert_eq!(m, "empty zone state after sync"),
        _ => panic!("expected an error"),
    }
}
