//! Address resolution of hops: which resolver URL to ask and how its answer
//! is read. The request itself is made by the caller.
use vstd::prelude::*;
use crate::config::RouterMode;
use crate::error::RZError;
use crate::text::{concat3, starts_with, trim_end_char, has_prefix, strip_trailing};

verus! {

/// Resolver base URL for an address: the address without trailing `/`,
/// preceded by `http://` unless it already starts with `http`.
pub open spec fn resolver_base_url(addr: Seq<char>) -> Seq<char> {
    if has_prefix(addr, "http"@) {
        strip_trailing(addr, '/')
    } else {
        "http://"@ + strip_trailing(addr, '/')
    }
}

/// Path under which the resolver answers for a hop: routers for an edge
/// router, bridges for a zone router.
pub open spec fn resolve_path(mode: RouterMode, hop_id: Seq<char>) -> Seq<char> {
    match mode {
        RouterMode::Edge => "/routers/"@ + hop_id,
        RouterMode::Zone => "/bridges/"@ + hop_id,
    }
}

/// What `str::trim` returns for a text: the text without leading and
/// trailing Unicode white space.
pub uninterp spec fn trimmed(s: Seq<char>) -> Seq<char>;

/// `str::trim`: the text without leading and trailing white space.
#[verifier::external_body]
fn str_trim(s: &str) -> (r: &str)
    ensures
        r@ == trimmed(s@),
{
    s.trim()
}

/// Settings of the resolver client.
pub struct RzPointEndpoint {
    pub base_url: String,
    pub mode: RouterMode,
}

impl RzPointEndpoint {
    pub fn new(rzpoint_addr: &str, mode: RouterMode) -> (e: RzPointEndpoint)
        ensures
            e.base_url@ == resolver_base_url(rzpoint_addr@),
            e.mode == mode,
    {
        let clean = trim_end_char(rzpoint_addr, '/');
        let base_url = if starts_with(rzpoint_addr, "http") {
            String::from_str(clean)
        } else {
            proof {
                reveal_strlit("");
            }
            let u = concat3("http://", clean, "");
            assert(u@ =~= "http://"@ + clean@);
            u
        };
        RzPointEndpoint { base_url, mode }
    }

    /// URL that resolves a hop id.
    pub fn resolve_url(&self, hop_id: &str) -> (u: String)
        ensures
            u@ == self.base_url@ + resolve_path(self.mode, hop_id@),
    {
        let collection = match self.mode {
            RouterMode::Edge => "/routers/",
            RouterMode::Zone => "/bridges/",
        };
        let u = concat3(self.base_url.as_str(), collection, hop_id);
        assert(u@ =~= self.base_url@ + resolve_path(self.mode, hop_id@));
        u
    }
}

/// Reads a trimmed resolver answer: an empty answer is an error.
pub fn host_from_trimmed(hop_id: &str, host: &str) -> (r: Result<String, RZError>)
    ensures
        host@.len() == 0 ==> (r matches Err(RZError::Resolver(m)) && m@ == "empty response for hop "@ + hop_id@),
        host@.len() != 0 ==> (r matches Ok(h) && h@ == host@),
{
    if host.is_empty() {
        proof {
            reveal_strlit("");
        }
        let m = concat3("empty response for hop ", hop_id, "");
        assert(m@ =~= "empty response for hop "@ + hop_id@);
        Err(RZError::Resolver(m))
    } else {
        Ok(String::from_str(host))
    }
}

/// Reads the body of a successful resolver answer: the host, trimmed.
pub fn resolved_host(hop_id: &str, body: &str) -> (r: Result<String, RZError>)
    ensures
        trimmed(body@).len() == 0 ==> (r matches Err(RZError::Resolver(m)) && m@ == "empty response for hop "@ + hop_id@),
        trimmed(body@).len() != 0 ==> (r matches Ok(h) && h@ == trimmed(body@)),
{
    host_from_trimmed(hop_id, str_trim(body))
}

/// The error of a hop that the resolver does not know.
pub fn hop_not_found(hop_id: &str) -> (e: RZError)
    ensures
        e matches RZError::Resolver(m) && m@ == "hop "@ + hop_id@ + " not found"@,
{
    RZError::Resolver(concat3("hop ", hop_id, " not found"))
}

/// Pause before the next of three resolution attempts, in milliseconds;
/// none after the last attempt.
pub fn retry_delay_ms(attempt: u64) -> (d: Option<u64>)
    ensures
        attempt < 2 ==> (d matches Some(ms) && ms == 100 * (attempt + 1)),
        attempt >= 2 ==> d is None,
{
    if attempt < 2 {
        Some(100 * (attempt + 1))
    } else {
        None
    }
}

} // verus!
