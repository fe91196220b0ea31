use rzrouter::routing_state::{EdgeState, RoutingSnapshot, ZoneState};
use rzrouter::strmap::StrMap;

fn s(v: &[&str]) -> Vec<String> {
    v.iter().map(|x| x.to_string()).collect()
}

#[test]
fn edge_lookup_follows_both_maps() {
    let mut e = EdgeState::new();
    assert!(e.is_empty());
    e.set_zone_routers("z1", s(&["r1", "r2"]));
    e.set_segment_zone("london".to_string(), "z1".to_string());
    e.set_segment_zone("nyc".to_string(), "z2".to_string());
    assert_eq!(e.lookup("london"), &s(&["r1", "r2"])[..]);
    assert!(e.lookup("nyc").is_empty());
    assert!(e.lookup("paris").is_empty());
    assert!(!e.is_empty());
}

#[test]
fn replace_zone_segments_is_authoritative() {
    let mut e = EdgeState::new();
    e.set_zone_routers("z1", s(&["r1"]));
    e.set_zone_routers("z2", s(&["r2"]));
    e.set_segment_zone("a".to_string(), "z1".to_string());
    e.set_segment_zone("b".to_string(), "z1".to_string());
    e.set_segment_zone("c".to_string(), "z2".to_string());
    e.replace_zone_segments("z1", s(&["b", "c"]));
    assert!(e.lookup("a").is_empty());
    assert_eq!(e.lookup("b"), &s(&["r1"])[..]);
    assert_eq!(e.lookup("c"), &s(&["r1"])[..]);
    assert_eq!(e.segment_to_zone.len(), 2);
}

#[test]
fn retain_valid_zones_drops_everything_of_gone_zones() {
    let mut e = EdgeState::new();
    e.set_zone_routers("z1", s(&["r1"]));
    e.set_zone_routers("z2", s(&["r2"]));
    e.set_segment_zone("a".to_string(), "z1".to_string());
    e.set_segment_zone("c".to_string(), "z2".to_string());
    e.retain_valid_zones(&s(&["z2"]));
    assert!(e.lookup("a").is_empty());
    assert_eq!(e.lookup("c"), &s(&["r2"])[..]);
    assert!(e.zone_to_routers.get("z1").is_none());
    assert_eq!(e.segment_to_zone.len(), 1);
}

#[test]
fn zone_state_operations() {
    let mut z = ZoneState::new();
    assert!(z.is_empty());
    z.set_shard_bridges("s1", s(&["b1"]));
    z.set_segment_shard("seg1".to_string(), "s1".to_string());
    z.replace_shard_segments("s1", s(&["seg2"]));
    assert!(z.lookup("seg1").is_empty());
    assert_eq!(z.lookup("seg2"), &s(&["b1"])[..]);
    z.set_segment_shard("seg3".to_string(), "gone".to_string());
    z.retain_valid_shards(&s(&["s1"]));
    assert!(z.segment_to_shard.get("seg3").is_none());
    assert_eq!(z.segment_to_shard.len(), 1);
}

#[test]
fn snapshot_dispatch_and_hop_ids() {
    let mut e = EdgeState::new();
    e.set_zone_routers("z1", s(&["r1", "r2"]));
    e.set_zone_routers("z2", s(&["r3"]));
    e.set_segment_zone("a".to_string(), "z2".to_string());
    let snap = RoutingSnapshot::Edge(e);
    assert!(snap.is_edge());
    assert!(!snap.is_zone());
    assert_eq!(snap.lookup("a"), &s(&["r3"])[..]);
    let mut ids = snap.get_all_hop_ids();
    ids.sort();
    assert_eq!(ids, s(&["r1", "r2", "r3"]));

    let mut z = ZoneState::new();
    z.set_shard_bridges("s1", s(&["b1"]));
    let snap = RoutingSnapshot::Zone(z);
    assert!(snap.is_zone());
    assert_eq!(snap.get_all_hop_ids(), s(&["b1"]));
}

#[test]
fn strmap_insert_remove_keys() {
    let mut m: StrMap<u64> = StrMap::new();
    m.insert("a".to_string(), 1);
    m.insert("b".to_string(), 2);
    m.insert("a".to_string(), 3);
    assert_eq!(m.len(), 2);
    assert_eq!(m.get("a"), Some(&3));
    m.remove("a");
    assert_eq!(m.get("a"), None);
    assert_eq!(m.keys(), s(&["b"]));
    m.retain_keys_in(&s(&["x"]));
    assert!(m.is_empty());
}

#[test]
fn duplicate_copies_state() {
    let mut e = EdgeState::new();
    e.set_zone_routers("z1", s(&["r1"]));
    e.set_segment_zone("a".to_string(), "z1".to_string());
    let d = e.duplicate();
    e.set_zone_routers("z1", s(&["other"]));
    assert_eq!(d.lookup("a"), &s(&["r1"])[..]);
}
