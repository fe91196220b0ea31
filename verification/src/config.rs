//! Router configuration: mode, addresses, limits and timeouts.
use vstd::prelude::*;
use std::time::Duration;
use crate::error::RZError;
use crate::text::{concat3, str_eq};

verus! {

/// Router tier: edge routers route to zone routers, zone routers to bridges.
#[derive(Debug, Clone, Copy, PartialEq, Eq, Structural)]
pub enum RouterMode {
    Edge,
    Zone,
}

impl RouterMode {
    /// Parses `"edge"` or `"zone"`; anything else is an error naming it.
    pub fn parse_mode(s: &str) -> (r: Result<RouterMode, String>)
        ensures
            s@ == "edge"@ ==> r == Ok::<RouterMode, String>(RouterMode::Edge),
            s@ == "zone"@ ==> r == Ok::<RouterMode, String>(RouterMode::Zone),
            s@ != "edge"@ && s@ != "zone"@ ==> (r matches Err(m) && m@ == "unknown mode: "@ + s@),
    {
        proof {
            reveal_strlit("edge");
            reveal_strlit("zone");
            reveal_strlit("");
            assert("edge"@[0] != "zone"@[0]);
        }
        if str_eq(s, "edge") {
            Ok(RouterMode::Edge)
        } else if str_eq(s, "zone") {
            Ok(RouterMode::Zone)
        } else {
            Err(concat3("unknown mode: ", s, ""))
        }
    }

    /// The name of the mode, as `parse_mode` reads it.
    pub fn as_str(&self) -> (s: &'static str)
        ensures
            s@ == (match self {
                RouterMode::Edge => "edge"@,
                RouterMode::Zone => "zone"@,
            }),
    {
        match self {
            RouterMode::Edge => "edge",
            RouterMode::Zone => "zone",
        }
    }
}

impl std::str::FromStr for RouterMode {
    type Err = String;

    /// Same as `RouterMode::parse_mode`.
    fn from_str(s: &str) -> (r: Result<Self, Self::Err>)
        ensures
            s@ == "edge"@ ==> r == Ok::<RouterMode, String>(RouterMode::Edge),
            s@ == "zone"@ ==> r == Ok::<RouterMode, String>(RouterMode::Zone),
            s@ != "edge"@ && s@ != "zone"@ ==> (r matches Err(m) && m@ == "unknown mode: "@ + s@),
    {
        RouterMode::parse_mode(s)
    }
}

/// The decimal digit of `d` (below ten).
pub open spec fn digit_char(d: nat) -> char {
    if d == 0 { '0' } else if d == 1 { '1' } else if d == 2 { '2' } else if d == 3 { '3' } else if d == 4 {
        '4'
    } else if d == 5 { '5' } else if d == 6 { '6' } else if d == 7 { '7' } else if d == 8 { '8' } else { '9' }
}

/// The decimal representation of `n`, without leading zeros.
pub open spec fn decimal(n: nat) -> Seq<char>
    decreases n,
{
    if n < 10 {
        seq![digit_char(n)]
    } else {
        decimal(n / 10).push(digit_char(n % 10))
    }
}

fn digit_str(d: u16) -> (s: &'static str)
    requires
        d < 10,
    ensures
        s@ == seq![digit_char(d as nat)],
{
    proof {
        reveal_strlit("0");
        reveal_strlit("1");
        reveal_strlit("2");
        reveal_strlit("3");
        reveal_strlit("4");
        reveal_strlit("5");
        reveal_strlit("6");
        reveal_strlit("7");
        reveal_strlit("8");
        reveal_strlit("9");
    }
    let s = match d {
        0 => "0",
        1 => "1",
        2 => "2",
        3 => "3",
        4 => "4",
        5 => "5",
        6 => "6",
        7 => "7",
        8 => "8",
        _ => "9",
    };
    assert(s@ =~= seq![digit_char(d as nat)]);
    s
}

/// Decimal text of a port number.
pub fn port_text(n: u16) -> (s: String)
    ensures
        s@ == decimal(n as nat),
    decreases n,
{
    if n < 10 {
        String::from_str(digit_str(n))
    } else {
        let mut s = port_text(n / 10);
        let ghost prefix = s@;
        s.append(digit_str(n % 10));
        assert(s@ =~= prefix.push(digit_char((n % 10) as nat)));
        s
    }
}

/// `host:port`.
pub open spec fn host_port(host: Seq<char>, port: u16) -> Seq<char> {
    host + ":"@ + decimal(port as nat)
}

fn join_host_port(host: &str, port: u16) -> (s: String)
    ensures
        s@ == host_port(host@, port),
{
    let p = port_text(port);
    concat3(host, ":", p.as_str())
}

/// What `Duration::from_secs` returns for `secs`.
pub uninterp spec fn secs_duration(secs: u64) -> Duration;

/// `Duration::from_secs`: a duration of `secs` whole seconds.
#[verifier::external_body]
fn duration_from_secs(secs: u64) -> (d: Duration)
    ensures
        d == secs_duration(secs),
{
    Duration::from_secs(secs)
}

/// The text of an optional string, empty when absent.
pub open spec fn text_or_empty(s: Option<String>) -> Seq<char> {
    match s {
        Some(v) => v@,
        None => Seq::empty(),
    }
}

pub struct Config {
    /// Router mode: edge or zone.
    pub mode: RouterMode,
    /// Listen host (e.g. "0.0.0.0" or "127.0.0.1").
    pub listen_host: String,
    /// TCP port to listen on.
    pub tcp_port: u16,
    /// HTTP API listen host (for /metrics and /health).
    pub api_listening_addr: String,
    /// HTTP API port.
    pub api_port: u16,
    /// Service registry address (e.g. "localhost:8080").
    pub rzid_addr: String,
    /// Resolver address (e.g. "localhost:8081").
    pub rzpoint_addr: String,
    /// Zone id (required in zone mode).
    pub zone_id: Option<String>,
    /// Router id (required in zone mode).
    pub router_id: Option<String>,
    /// Maximum number of concurrent TCP connections.
    pub max_connections: usize,
    /// Number of connections per hop.
    pub conn_per_hop: usize,
    /// TCP port of the hops.
    pub hop_tcp_port: u16,
    /// Registry refresh interval in seconds.
    pub refresh_interval_secs: u64,
    /// Heartbeat interval in seconds.
    pub heartbeat_interval_secs: u64,
    /// Request timeout in seconds.
    pub request_timeout_secs: u64,
    /// Number of worker threads.
    pub worker_threads: usize,
    /// Application-level keepalive interval in seconds; 0 disables keepalives.
    pub app_keepalive_secs: u64,
    /// Maximum time allowed to complete a single frame, in seconds.
    pub frame_timeout_secs: u64,
    /// Absolute idle timeout in seconds.
    pub idle_timeout_secs: u64,
    /// Maximum size of the receive buffer per connection, in bytes.
    pub max_buffer_size: usize,
    /// Maximum size of a single frame, in bytes.
    pub max_frame_size: usize,
}

impl Config {
    /// Checks the settings that the command line alone does not: zone mode
    /// needs a non-empty zone id and router id, a frame must fit the buffer,
    /// and the frame timeout must be positive.
    pub fn validate(&self) -> (r: Result<(), RZError>)
        ensures
            self.mode == RouterMode::Zone && text_or_empty(self.zone_id) == Seq::<char>::empty() ==> (r matches Err(
                RZError::Config(m),
            ) && m@ == "zone_id is required for zone mode"@),
            self.mode == RouterMode::Zone && text_or_empty(self.zone_id) != Seq::<char>::empty()
                && text_or_empty(self.router_id) == Seq::<char>::empty() ==> (r matches Err(RZError::Config(m))
                && m@ == "router_id is required for zone mode"@),
            !(self.mode == RouterMode::Zone && (text_or_empty(self.zone_id) == Seq::<char>::empty()
                || text_or_empty(self.router_id) == Seq::<char>::empty())) ==> {
                if self.max_frame_size > self.max_buffer_size {
                    r matches Err(RZError::Config(m)) && m@ == "max_frame_size cannot be larger than max_buffer_size"@
                } else if self.frame_timeout_secs == 0 {
                    r matches Err(RZError::Config(m)) && m@ == "frame_timeout_secs must be > 0"@
                } else {
                    r is Ok
                }
            },
    {
        if self.mode == RouterMode::Zone {
            let z = self.zone_id();
            assert(z@.len() == 0 <==> z@ =~= Seq::<char>::empty());
            if z.is_empty() {
                return Err(RZError::Config(String::from_str("zone_id is required for zone mode")));
            }
            let r = self.router_id();
            assert(r@.len() == 0 <==> r@ =~= Seq::<char>::empty());
            if r.is_empty() {
                return Err(RZError::Config(String::from_str("router_id is required for zone mode")));
            }
        }
        if self.max_frame_size > self.max_buffer_size {
            return Err(RZError::Config(String::from_str("max_frame_size cannot be larger than max_buffer_size")));
        }
        if self.frame_timeout_secs == 0 {
            return Err(RZError::Config(String::from_str("frame_timeout_secs must be > 0")));
        }
        Ok(())
    }

    /// `listen_host:tcp_port`.
    pub fn listen_addr(&self) -> (s: String)
        ensures
            s@ == host_port(self.listen_host@, self.tcp_port),
    {
        join_host_port(self.listen_host.as_str(), self.tcp_port)
    }

    /// `api_listening_addr:api_port`.
    pub fn api_listen_addr(&self) -> (s: String)
        ensures
            s@ == host_port(self.api_listening_addr@, self.api_port),
    {
        join_host_port(self.api_listening_addr.as_str(), self.api_port)
    }

    /// The zone id, or the empty string.
    pub fn zone_id(&self) -> (s: &str)
        ensures
            s@ == text_or_empty(self.zone_id),
    {
        proof {
            reveal_strlit("");
        }
        match &self.zone_id {
            Some(z) => z.as_str(),
            None => {
                assert(""@ =~= Seq::<char>::empty());
                ""
            },
        }
    }

    /// The router id, or the empty string.
    pub fn router_id(&self) -> (s: &str)
        ensures
            s@ == text_or_empty(self.router_id),
    {
        proof {
            reveal_strlit("");
        }
        match &self.router_id {
            Some(z) => z.as_str(),
            None => {
                assert(""@ =~= Seq::<char>::empty());
                ""
            },
        }
    }

    pub fn app_keepalive_interval(&self) -> (d: Duration)
        ensures
            d == secs_duration(self.app_keepalive_secs),
    {
        duration_from_secs(self.app_keepalive_secs)
    }

    pub fn frame_timeout(&self) -> (d: Duration)
        ensures
            d == secs_duration(self.frame_timeout_secs),
    {
        duration_from_secs(self.frame_timeout_secs)
    }

    pub fn idle_timeout(&self) -> (d: Duration)
        ensures
            d == secs_duration(self.idle_timeout_secs),
    {
        duration_from_secs(self.idle_timeout_secs)
    }

    pub fn request_timeout(&self) -> (d: Duration)
        ensures
            d == secs_duration(self.request_timeout_secs),
    {
        duration_from_secs(self.request_timeout_secs)
    }
}

} // verus!
