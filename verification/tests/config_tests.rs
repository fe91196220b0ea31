use rzrouter::config::{port_text, Config, RouterMode};
use rzrouter::error::RZError;
use std::time::Duration;

fn base() -> Config {
    Config {
        mode: RouterMode::Edge,
        listen_host: "0.0.0.0".to_string(),
        tcp_port: 9000,
        api_listening_addr: "127.0.0.1".to_string(),
        api_port: 9100,
        rzid_addr: "localhost:8080".to_string(),
        rzpoint_addr: "localhost:8081".to_string(),
        zone_id: None,
        router_id: None,
        max_connections: 10000,
        conn_per_hop: 4,
        hop_tcp_port: 9000,
        refresh_interval_secs: 10,
        heartbeat_interval_secs: 30,
        request_timeout_secs: 30,
        worker_threads: 4,
        app_keepalive_secs: 15,
        frame_timeout_secs: 20,
        idle_timeout_secs: 90,
        max_buffer_size: 262144,
        max_frame_size: 16384,
    }
}

fn config_error(r: Result<(), RZError>) -> String {
    match r {
        Err(RZError::Config(m)) => m,
        _ => panic!("expected a configuration error"),
    }
}

#[test]
fn addresses() {
    let c = base();
    assert_eq!(c.listen_addr(), "0.0.0.0:9000");
    assert_eq!(c.api_listen_addr(), "127.0.0.1:9100");
    assert_eq!(port_text(0), "0");
    assert_eq!(port_text(7), "7");
    assert_eq!(port_text(65535), "65535");
    assert_eq!(port_text(100), "100");
}

#[test]
fn ids_default_to_empty() {
    let mut c = base();
    assert_eq!(c.zone_id(), "");
    assert_eq!(c.router_id(), "");
    c.zone_id = Some("zone1".to_string());
    c.router_id = Some("router-zone-0".to_string());
    assert_eq!(c.zone_id(), "zone1");
    assert_eq!(c.router_id(), "router-zone-0");
}

#[test]
fn durations() {
    let c = base();
    assert_eq!(c.app_keepalive_interval(), Duration::from_secs(15));
    assert_eq!(c.frame_timeout(), Duration::from_secs(20));
    assert_eq!(c.idle_timeout(), Duration::from_secs(90));
    assert_eq!(c.request_timeout(), Duration::from_secs(30));
}

#[test]
fn validate_accepts_defaults() {
    assert!(base().validate().is_ok());
    let mut c = base();
    c.mode = RouterMode::Zone;
    c.zone_id = Some("zone1".to_string());
    c.router_id = Some("r".to_string());
    assert!(c.validate().is_ok());
}

#[test]
fn validate_zone_mode_ids() {
    let mut c = base();
    c.mode = RouterMode::Zone;
    assert_eq!(config_error(c.validate()), "zone_id is required for zone mode");
    c.zone_id = Some(String::new());
    assert_eq!(config_error(c.validate()), "zone_id is required for zone mode");
    c.zone_id = Some("zone1".to_string());
    assert_eq!(config_error(c.validate()), "router_id is required for zone mode");
    c.router_id = Some(String::new());
    assert_eq!(config_error(c.validate()), "router_id is required for zone mode");
}

#[test]
fn validate_limits() {
    let mut c = base();
    c.max_frame_size = c.max_buffer_size + 1;
    assert_eq!(config_error(c.validate()), "max_frame_size cannot be larger than max_buffer_size");
    let mut c = base();
    c.frame_timeout_secs = 0;
    assert_eq!(config_error(c.validate()), "frame_timeout_secs must be > 0");
}

#[test]
fn router_mode_names() {
    assert_eq!(RouterMode::parse_mode("edge"), Ok(RouterMode::Edge));
    assert_eq!(RouterMode::parse_mode("zone"), Ok(RouterMode::Zone));
    assert_eq!(RouterMode::parse_mode("hub"), Err("unknown mode: hub".to_string()));
    assert_eq!("zone".parse::<RouterMode>(), Ok(RouterMode::Zone));
    assert_eq!(RouterMode::Edge.as_str(), "edge");
    assert_eq!(RouterMode::Zone.as_str(), "zone");
}
