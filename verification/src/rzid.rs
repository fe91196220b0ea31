//! Synchronization with the service registry: which manifest entries
//! changed, which resources to fetch, and how fetched resources turn into a
//! new routing snapshot. The registry requests themselves are made by the
//! caller, which hands their results to the functions here.
use vstd::prelude::*;
use crate::config::{Config, RouterMode, text_or_empty};
use crate::error::RZError;
use crate::routing_state::{
    EdgeState, ZoneState, RoutingSnapshot, keep_groups, keep_groups_spec, replace_group_spec, list_map,
};
use crate::strmap::{StrMap, strs_view, str_set, distinct_views, contains_str};
use crate::text::{
    concat3, starts_with, ends_with, find_char_from, str_eq, has_prefix, has_suffix, strip_prefixes,
    strip_trailing, trim_start_matches, trim_end_char, index_of_char_from, lemma_index_of_char_from,
};

verus! {

pub struct CodecsResponse {
    pub rate_features: Vec<String>,
    pub hash: u64,
}

/// Versions of the registry's resources, by resource key.
pub struct VersionManifest {
    pub global_version: u64,
    pub versions: StrMap<u64>,
}

pub struct ZoneRoutersResponse {
    pub version: u64,
    pub routers: Vec<String>,
}

pub struct ZoneSegmentsResponse {
    pub version: u64,
    pub segments: Vec<String>,
}

pub struct ShardBridges {
    pub bridges: Vec<String>,
}

pub struct ZoneShardsResponse {
    pub version: u64,
    pub shards: StrMap<ShardBridges>,
}

pub struct ShardSegmentsResponse {
    pub version: u64,
    pub zone: String,
    pub segments: Vec<String>,
}

/// Body of a registration (heartbeat) request.
pub struct RegisterRequest {
    pub kind: String,
    pub id: String,
    pub zone: String,
    pub shard: Option<String>,
}

/// Registry base URL for an address: `http://` followed by the address
/// without leading `http://` and `https://` and without trailing `/`.
pub open spec fn registry_base_url(addr: Seq<char>) -> Seq<char> {
    "http://"@ + strip_trailing(strip_prefixes(strip_prefixes(addr, "http://"@), "https://"@), '/')
}

/// Manifest key of a zone's router list.
pub open spec fn routers_key(zone: Seq<char>) -> Seq<char> {
    "zones/"@ + zone + "/routers"@
}

/// Manifest key of a zone's segment list.
pub open spec fn segments_key(zone: Seq<char>) -> Seq<char> {
    "zones/"@ + zone + "/segments"@
}

/// Manifest key of a zone's shard topology.
pub open spec fn shards_key(zone: Seq<char>) -> Seq<char> {
    "zones/"@ + zone + "/shards"@
}

/// Manifest key of a shard's segment list.
pub open spec fn shard_segments_key(shard: Seq<char>) -> Seq<char> {
    "shards/"@ + shard + "/segments"@
}

/// The zone that a manifest key names: the part after `zones/` up to the
/// next `/`.
pub open spec fn manifest_zone(key: Seq<char>) -> Option<Seq<char>> {
    let n = "zones/"@.len() as int;
    if has_prefix(key, "zones/"@) {
        Some(key.subrange(n, index_of_char_from(key, '/', n)))
    } else {
        None
    }
}

/// Whether a router in `mode` follows the manifest key: an edge router the
/// router and segment lists of zones, a zone router its own zone's shards.
pub open spec fn followed_key(mode: RouterMode, zone_id: Seq<char>, key: Seq<char>) -> bool {
    match mode {
        RouterMode::Edge => has_prefix(key, "zones/"@) && (has_suffix(key, "/routers"@) || has_suffix(key, "/segments"@)),
        RouterMode::Zone => key == shards_key(zone_id),
    }
}

/// Followed manifest keys whose version differs from the version recorded locally.
pub open spec fn changed_keys(
    mode: RouterMode,
    zone_id: Seq<char>,
    manifest: Map<Seq<char>, u64>,
    local: Map<Seq<char>, u64>,
) -> Set<Seq<char>> {
    manifest.dom().filter(
        |k: Seq<char>| followed_key(mode, zone_id, k) && !(local.contains_key(k) && local[k] == manifest[k]),
    )
}

/// The zones that the manifest names.
pub open spec fn manifest_zones(manifest: Map<Seq<char>, u64>) -> Set<Seq<char>> {
    Set::new(|z: Seq<char>| exists|k: Seq<char>| #[trigger] manifest.contains_key(k) && manifest_zone(k) == Some(z))
}

/// A key whose version is recorded as the manifest's version is not
/// reported as changed again.
pub proof fn lemma_recorded_version_unchanged(
    mode: RouterMode,
    zone_id: Seq<char>,
    manifest: Map<Seq<char>, u64>,
    local: Map<Seq<char>, u64>,
    key: Seq<char>,
)
    requires
        manifest.contains_key(key),
    ensures
        !changed_keys(mode, zone_id, manifest, local.insert(key, manifest[key])).contains(key),
        forall|k: Seq<char>| k != key ==> (#[trigger] changed_keys(mode, zone_id, manifest, local.insert(key, manifest[key])).contains(k)
            <==> changed_keys(mode, zone_id, manifest, local).contains(k)),
{
}

/// What an edge router fetches for a zone.
#[derive(Clone, Copy, PartialEq, Eq, Debug, Structural)]
pub enum EdgeFetchKind {
    Routers,
    Segments,
}

/// One registry request of an edge synchronization.
pub struct EdgeFetch {
    pub zone: String,
    pub kind: EdgeFetchKind,
    /// Manifest key of the fetched resource.
    pub key: String,
}

pub open spec fn edge_fetch_key(zone: Seq<char>, kind: EdgeFetchKind) -> Seq<char> {
    match kind {
        EdgeFetchKind::Routers => routers_key(zone),
        EdgeFetchKind::Segments => segments_key(zone),
    }
}

/// Requests of an edge synchronization: zone by zone, the router list when
/// its key changed, then the segment list when its key changed.
pub open spec fn edge_plan(zones: Seq<Seq<char>>, changed: Set<Seq<char>>) -> Seq<(Seq<char>, EdgeFetchKind)>
    decreases zones.len(),
{
    if zones.len() == 0 {
        Seq::empty()
    } else {
        let z = zones.last();
        edge_plan(zones.drop_last(), changed) + (if changed.contains(routers_key(z)) {
            seq![(z, EdgeFetchKind::Routers)]
        } else {
            Seq::empty()
        }) + (if changed.contains(segments_key(z)) {
            seq![(z, EdgeFetchKind::Segments)]
        } else {
            Seq::empty()
        })
    }
}

/// The requests of an edge synchronization are exactly these: for each zone
/// of the list, its router list when the key `zones/<zone>/routers` changed,
/// and its segment list when the key `zones/<zone>/segments` changed, each
/// independently of the other.
pub proof fn lemma_edge_plan_members(
    zones: Seq<Seq<char>>,
    changed: Set<Seq<char>>,
    z: Seq<char>,
    kind: EdgeFetchKind,
)
    ensures
        edge_plan(zones, changed).contains((z, kind)) <==> zones.contains(z) && match kind {
            EdgeFetchKind::Routers => changed.contains("zones/"@ + z + "/routers"@),
            EdgeFetchKind::Segments => changed.contains("zones/"@ + z + "/segments"@),
        },
    decreases zones.len(),
{
    if zones.len() > 0 {
        let init = zones.drop_last();
        let l = zones.last();
        lemma_edge_plan_members(init, changed, z, kind);
        let head = edge_plan(init, changed);
        let ra: Seq<(Seq<char>, EdgeFetchKind)> = if changed.contains(routers_key(l)) {
            seq![(l, EdgeFetchKind::Routers)]
        } else {
            Seq::empty()
        };
        let sa: Seq<(Seq<char>, EdgeFetchKind)> = if changed.contains(segments_key(l)) {
            seq![(l, EdgeFetchKind::Segments)]
        } else {
            Seq::empty()
        };
        let whole = edge_plan(zones, changed);
        assert(whole == head + ra + sa);
        let x = (z, kind);
        if whole.contains(x) {
            let i = choose|i: int| 0 <= i < whole.len() && whole[i] == x;
            if i < head.len() {
                assert(head[i] == x);
                assert(head.contains(x));
                let j = choose|j: int| 0 <= j < init.len() && init[j] == z;
                assert(zones[j] == z);
            } else if i < head.len() + ra.len() {
                assert(ra[i - head.len()] == x);
                assert(zones[zones.len() - 1] == z);
            } else {
                assert(sa[i - head.len() - ra.len()] == x);
                assert(zones[zones.len() - 1] == z);
            }
        }
        let wanted = match kind {
            EdgeFetchKind::Routers => changed.contains("zones/"@ + z + "/routers"@),
            EdgeFetchKind::Segments => changed.contains("zones/"@ + z + "/segments"@),
        };
        if zones.contains(z) && wanted {
            let j = choose|j: int| 0 <= j < zones.len() && zones[j] == z;
            if j < init.len() {
                assert(init[j] == z);
                assert(head.contains(x));
                let i = choose|i: int| 0 <= i < head.len() && head[i] == x;
                assert(whole[i] == x);
            } else {
                assert(l == z);
                match kind {
                    EdgeFetchKind::Routers => {
                        assert(whole[head.len() as int] == x);
                    },
                    EdgeFetchKind::Segments => {
                        assert(whole[head.len() + ra.len() as int] == x);
                    },
                }
            }
        }
    }
}

pub open spec fn edge_fetch_view(f: EdgeFetch) -> (Seq<char>, EdgeFetchKind) {
    (f.zone@, f.kind)
}

/// Edge snapshot after synchronization: segments whose zone has no router
/// list are dropped.
pub open spec fn edge_finish_segments(s: EdgeState) -> Map<Seq<char>, Seq<char>> {
    keep_groups_spec(s.segments(), s.routers().dom())
}

/// Zone snapshot after synchronization: segments whose shard has no bridge
/// list are dropped.
pub open spec fn zone_finish_segments(s: ZoneState) -> Map<Seq<char>, Seq<char>> {
    keep_groups_spec(s.segments(), s.bridges().dom())
}

/// After `keep_groups_spec`, every segment's group is among the kept groups.
pub proof fn lemma_keep_groups_consistent(segments: Map<Seq<char>, Seq<char>>, valid: Set<Seq<char>>)
    ensures
        forall|s: Seq<char>| #[trigger] keep_groups_spec(segments, valid).contains_key(s) ==> valid.contains(keep_groups_spec(segments, valid)[s]),
        forall|s: Seq<char>| #[trigger] keep_groups_spec(segments, valid).contains_key(s) ==> segments.contains_key(s) && keep_groups_spec(segments, valid)[s] == segments[s],
{
}

/// Settings the registry client works with.
pub struct RzidEndpoint {
    pub base_url: String,
    pub mode: RouterMode,
    pub router_id: String,
    pub zone_id: String,
}

fn text_or_default(s: &Option<String>) -> (r: String)
    ensures
        r@ == text_or_empty(*s),
{
    match s {
        Some(v) => v.clone(),
        None => String::new(),
    }
}

impl RzidEndpoint {
    /// Registry settings from the configuration; zone mode needs a zone id and a router id.
    pub fn new(cfg: &Config) -> (r: Result<RzidEndpoint, RZError>)
        ensures
            cfg.mode == RouterMode::Zone && (cfg.zone_id is None || cfg.router_id is None) ==> (r matches Err(
                RZError::Config(m),
            ) && m@ == "zone mode requires zone_id and router_id"@),
            !(cfg.mode == RouterMode::Zone && (cfg.zone_id is None || cfg.router_id is None)) ==> (r matches Ok(e)
                && e.base_url@ == registry_base_url(cfg.rzid_addr@) && e.mode == cfg.mode && e.router_id@
                == text_or_empty(cfg.router_id) && e.zone_id@ == text_or_empty(cfg.zone_id)),
    {
        if cfg.mode == RouterMode::Zone {
            if cfg.zone_id.is_none() || cfg.router_id.is_none() {
                return Err(RZError::Config(String::from_str("zone mode requires zone_id and router_id")));
            }
        }
        let clean = trim_end_char(
            trim_start_matches(trim_start_matches(cfg.rzid_addr.as_str(), "http://"), "https://"),
            '/',
        );
        let base_url = concat3("http://", clean, "");
        proof {
            reveal_strlit("");
            assert(base_url@ =~= registry_base_url(cfg.rzid_addr@));
        }
        Ok(RzidEndpoint {
            base_url,
            mode: cfg.mode,
            router_id: text_or_default(&cfg.router_id),
            zone_id: text_or_default(&cfg.zone_id),
        })
    }

    /// Only zone routers register themselves.
    pub fn sends_heartbeat(&self) -> (b: bool)
        ensures
            b == (self.mode == RouterMode::Zone),
    {
        self.mode == RouterMode::Zone
    }

    /// Registration body of this router.
    pub fn register_request(&self) -> (r: RegisterRequest)
        ensures
            r.kind@ == "router"@,
            r.id@ == self.router_id@,
            r.zone@ == self.zone_id@,
            r.shard is None,
    {
        RegisterRequest {
            kind: String::from_str("router"),
            id: self.router_id.clone(),
            zone: self.zone_id.clone(),
            shard: None,
        }
    }

    pub fn register_url(&self) -> (u: String)
        ensures
            u@ == self.base_url@ + "/register"@,
    {
        let u = concat3(self.base_url.as_str(), "/register", "");
        proof {
            reveal_strlit("");
            assert(u@ =~= self.base_url@ + "/register"@);
        }
        u
    }

    pub fn versions_url(&self) -> (u: String)
        ensures
            u@ == self.base_url@ + "/versions"@,
    {
        let u = concat3(self.base_url.as_str(), "/versions", "");
        proof {
            reveal_strlit("");
            assert(u@ =~= self.base_url@ + "/versions"@);
        }
        u
    }

    pub fn codecs_url(&self) -> (u: String)
        ensures
            u@ == self.base_url@ + "/codecs"@,
    {
        let u = concat3(self.base_url.as_str(), "/codecs", "");
        proof {
            reveal_strlit("");
            assert(u@ =~= self.base_url@ + "/codecs"@);
        }
        u
    }

    fn resource_url(&self, collection: &str, id: &str, resource: &str) -> (u: String)
        ensures
            u@ == self.base_url@ + collection@ + id@ + resource@,
    {
        let head = concat3(self.base_url.as_str(), collection, id);
        let u = concat3(head.as_str(), resource, "");
        proof {
            reveal_strlit("");
            assert(u@ =~= self.base_url@ + collection@ + id@ + resource@);
        }
        u
    }

    pub fn zone_routers_url(&self, zone_id: &str) -> (u: String)
        ensures
            u@ == self.base_url@ + "/zones/"@ + zone_id@ + "/routers"@,
    {
        self.resource_url("/zones/", zone_id, "/routers")
    }

    pub fn zone_segments_url(&self, zone_id: &str) -> (u: String)
        ensures
            u@ == self.base_url@ + "/zones/"@ + zone_id@ + "/segments"@,
    {
        self.resource_url("/zones/", zone_id, "/segments")
    }

    pub fn zone_shards_url(&self, zone_id: &str) -> (u: String)
        ensures
            u@ == self.base_url@ + "/zones/"@ + zone_id@ + "/shards"@,
    {
        self.resource_url("/zones/", zone_id, "/shards")
    }

    pub fn shard_segments_url(&self, shard_id: &str) -> (u: String)
        ensures
            u@ == self.base_url@ + "/shards/"@ + shard_id@ + "/segments"@,
    {
        self.resource_url("/shards/", shard_id, "/segments")
    }

    fn is_followed(&self, key: &str) -> (b: bool)
        ensures
            b == followed_key(self.mode, self.zone_id@, key@),
    {
        match self.mode {
            RouterMode::Edge => starts_with(key, "zones/") && (ends_with(key, "/routers") || ends_with(key, "/segments")),
            RouterMode::Zone => {
                let own = concat3("zones/", self.zone_id.as_str(), "/shards");
                str_eq(key, own.as_str())
            },
        }
    }

    /// Manifest keys that this router follows and whose version differs from
    /// the locally recorded one, each once.
    pub fn detect_changes(&self, manifest: &VersionManifest, local: &StrMap<u64>) -> (r: Vec<String>)
        requires
            manifest.versions.wf(),
            local.wf(),
        ensures
            distinct_views(r@),
            str_set(r@) == changed_keys(self.mode, self.zone_id@, manifest.versions@, local@),
    {
        let keys = manifest.versions.keys();
        proof {
            manifest.versions.lemma_key_seq();
        }
        let ghost target = changed_keys(self.mode, self.zone_id@, manifest.versions@, local@);
        let mut r: Vec<String> = Vec::new();
        let mut i: usize = 0;
        while i < keys.len()
            invariant
                i <= keys@.len(),
                manifest.versions.wf(),
                local.wf(),
                strs_view(keys@) == manifest.versions.key_seq(),
                manifest.versions.key_seq().no_duplicates(),
                manifest.versions.key_seq().to_set() == manifest.versions@.dom(),
                target == changed_keys(self.mode, self.zone_id@, manifest.versions@, local@),
                distinct_views(r@),
                forall|k: Seq<char>| #[trigger] str_set(r@).contains(k) <==> (target.contains(k) && strs_view(keys@).take(i as int).contains(k)),
            decreases keys@.len() - i,
        {
            let key = keys[i].as_str();
            let ghost kv = keys@[i as int]@;
            assert(strs_view(keys@)[i as int] == kv);
            assert(manifest.versions@.contains_key(kv));
            let followed = self.is_followed(key);
            let mut changed = false;
            if followed {
                let v = manifest.versions.get(key).unwrap();
                changed = match local.get(key) {
                    Some(lv) => *lv != *v,
                    None => true,
                };
            }
            let ghost r0 = r@;
            if changed {
                proof {
                    assert forall|a: int| 0 <= a < r0.len() implies #[trigger] r0[a]@ != kv by {
                        assert(strs_view(r0)[a] == r0[a]@);
                        assert(str_set(r0).contains(r0[a]@));
                        if r0[a]@ == kv {
                            let j = choose|j: int| 0 <= j < i && strs_view(keys@).take(i as int)[j] == kv;
                            assert(strs_view(keys@)[j] == strs_view(keys@)[i as int]);
                        }
                    }
                }
                r.push(keys[i].clone());
            }
            proof {
                let grown = strs_view(keys@).take(i + 1);
                assert(grown =~= strs_view(keys@).take(i as int).push(kv));
                assert(changed == target.contains(kv));
                assert forall|k: Seq<char>| #[trigger] str_set(r@).contains(k) <==> (target.contains(k) && grown.contains(k)) by {
                    if str_set(r@).contains(k) {
                        let a = choose|a: int| 0 <= a < strs_view(r@).len() && strs_view(r@)[a] == k;
                        if a < r0.len() {
                            assert(strs_view(r0)[a] == k);
                            assert(str_set(r0).contains(k));
                            let j = choose|j: int| 0 <= j < i && strs_view(keys@).take(i as int)[j] == k;
                            assert(grown[j] == k);
                        } else {
                            assert(grown[i as int] == k);
                        }
                    }
                    if target.contains(k) && grown.contains(k) {
                        let j = choose|j: int| 0 <= j < i + 1 && grown[j] == k;
                        if j < i {
                            assert(strs_view(keys@).take(i as int)[j] == k);
                            assert(str_set(r0).contains(k));
                            let a = choose|a: int| 0 <= a < strs_view(r0).len() && strs_view(r0)[a] == k;
                            assert(strs_view(r@)[a] == k);
                        } else {
                            assert(strs_view(r@)[r0.len() as int] == k);
                        }
                    }
                }
            }
            i = i + 1;
        }
        proof {
            assert(strs_view(keys@).take(keys@.len() as int) =~= strs_view(keys@));
            assert forall|k: Seq<char>| #[trigger] str_set(r@).contains(k) <==> target.contains(k) by {
                if target.contains(k) {
                    assert(manifest.versions.key_seq().to_set().contains(k));
                }
            }
            assert(str_set(r@) =~= target);
        }
        r
    }
}

/// The zone named by one manifest key, if any.
fn zone_of_key(key: &str) -> (r: Option<&str>)
    ensures
        match manifest_zone(key@) {
            Some(z) => r matches Some(s) && s@ == z,
            None => r is None,
        },
{
    if !starts_with(key, "zones/") {
        return None;
    }
    let n = "zones/".unicode_len();
    let end = find_char_from(key, '/', n);
    proof {
        lemma_index_of_char_from(key@, '/', n as int);
    }
    Some(key.substring_char(n, end))
}

/// The zones named by the manifest, each once.
pub fn edge_valid_zones(manifest: &VersionManifest) -> (r: Vec<String>)
    requires
        manifest.versions.wf(),
    ensures
        distinct_views(r@),
        str_set(r@) == manifest_zones(manifest.versions@),
{
    let keys = manifest.versions.keys();
    proof {
        manifest.versions.lemma_key_seq();
    }
    let ghost target = manifest_zones(manifest.versions@);
    let mut r: Vec<String> = Vec::new();
    let mut i: usize = 0;
    while i < keys.len()
        invariant
            i <= keys@.len(),
            strs_view(keys@) == manifest.versions.key_seq(),
            manifest.versions.key_seq().to_set() == manifest.versions@.dom(),
            target == manifest_zones(manifest.versions@),
            distinct_views(r@),
            forall|z: Seq<char>| #[trigger] str_set(r@).contains(z) <==> exists|j: int|
                0 <= j < i && manifest_zone(#[trigger] strs_view(keys@)[j]) == Some(z),
        decreases keys@.len() - i,
    {
        let ghost kv = keys@[i as int]@;
        assert(strs_view(keys@)[i as int] == kv);
        let ghost r0 = r@;
        match zone_of_key(keys[i].as_str()) {
            Some(z) => {
                if !contains_str(&r, z) {
                    proof {
                        assert forall|a: int| 0 <= a < r0.len() implies #[trigger] r0[a]@ != z@ by {
                            assert(strs_view(r0)[a] == r0[a]@);
                        }
                    }
                    r.push(String::from_str(z));
                }
            },
            None => {},
        }
        proof {
            assert forall|z: Seq<char>| #[trigger] str_set(r@).contains(z) <==> exists|j: int|
                0 <= j < i + 1 && manifest_zone(#[trigger] strs_view(keys@)[j]) == Some(z) by {
                if str_set(r@).contains(z) {
                    let a = choose|a: int| 0 <= a < strs_view(r@).len() && strs_view(r@)[a] == z;
                    if a < r0.len() {
                        assert(strs_view(r0)[a] == z);
                        assert(str_set(r0).contains(z));
                    } else {
                        assert(manifest_zone(strs_view(keys@)[i as int]) == Some(z));
                    }
                }
                if exists|j: int| 0 <= j < i + 1 && manifest_zone(#[trigger] strs_view(keys@)[j]) == Some(z) {
                    let j = choose|j: int| 0 <= j < i + 1 && manifest_zone(#[trigger] strs_view(keys@)[j]) == Some(z);
                    if j < i {
                        assert(str_set(r0).contains(z));
                        let a = choose|a: int| 0 <= a < strs_view(r0).len() && strs_view(r0)[a] == z;
                        assert(strs_view(r@)[a] == z);
                    } else if str_set(r0).contains(z) {
                        let a = choose|a: int| 0 <= a < strs_view(r0).len() && strs_view(r0)[a] == z;
                        assert(strs_view(r@)[a] == z);
                    } else {
                        assert(strs_view(r@)[r0.len() as int] == z);
                    }
                }
            }
        }
        i = i + 1;
    }
    proof {
        assert forall|z: Seq<char>| #[trigger] str_set(r@).contains(z) <==> target.contains(z) by {
            if target.contains(z) {
                let k = choose|k: Seq<char>| #[trigger] manifest.versions@.contains_key(k) && manifest_zone(k) == Some(z);
                assert(manifest.versions.key_seq().to_set().contains(k));
                let j = choose|j: int| 0 <= j < manifest.versions.key_seq().len() && manifest.versions.key_seq()[j] == k;
                assert(strs_view(keys@)[j] == k);
            }
            if str_set(r@).contains(z) {
                let j = choose|j: int| 0 <= j < keys@.len() && manifest_zone(#[trigger] strs_view(keys@)[j]) == Some(z);
                assert(manifest.versions.key_seq().contains(strs_view(keys@)[j]));
                assert(manifest.versions@.contains_key(strs_view(keys@)[j]));
            }
        }
        assert(str_set(r@) =~= target);
    }
    r
}

fn key_for(collection: &str, id: &str, resource: &str) -> (k: String)
    ensures
        k@ == collection@ + id@ + resource@,
{
    concat3(collection, id, resource)
}

/// The registry requests of an edge synchronization (see `edge_plan`).
pub fn edge_fetch_plan(zones: &Vec<String>, changed: &Vec<String>) -> (plan: Vec<EdgeFetch>)
    ensures
        plan@.map_values(|f: EdgeFetch| edge_fetch_view(f)) == edge_plan(strs_view(zones@), str_set(changed@)),
        forall|i: int| 0 <= i < plan@.len() ==> #[trigger] plan@[i].key@ == edge_fetch_key(plan@[i].zone@, plan@[i].kind),
{
    let ghost ch = str_set(changed@);
    let mut plan: Vec<EdgeFetch> = Vec::new();
    let mut i: usize = 0;
    while i < zones.len()
        invariant
            i <= zones@.len(),
            ch == str_set(changed@),
            plan@.map_values(|f: EdgeFetch| edge_fetch_view(f)) == edge_plan(strs_view(zones@).take(i as int), ch),
            forall|j: int| 0 <= j < plan@.len() ==> #[trigger] plan@[j].key@ == edge_fetch_key(plan@[j].zone@, plan@[j].kind),
        decreases zones@.len() - i,
    {
        let zone = zones[i].as_str();
        let ghost z = zone@;
        let ghost p0 = plan@;
        let routers_k = key_for("zones/", zone, "/routers");
        let segments_k = key_for("zones/", zone, "/segments");
        if contains_str(changed, routers_k.as_str()) {
            plan.push(EdgeFetch { zone: String::from_str(zone), kind: EdgeFetchKind::Routers, key: routers_k });
        }
        let ghost p1 = plan@;
        if contains_str(changed, segments_k.as_str()) {
            plan.push(EdgeFetch { zone: String::from_str(zone), kind: EdgeFetchKind::Segments, key: segments_k });
        }
        proof {
            let zs = strs_view(zones@).take(i + 1);
            assert(zs.drop_last() =~= strs_view(zones@).take(i as int));
            assert(zs.last() == z);
            assert(plan@.map_values(|f: EdgeFetch| edge_fetch_view(f)) =~= edge_plan(zs, ch));
        }
        i = i + 1;
    }
    assert(strs_view(zones@).take(zones@.len() as int) =~= strs_view(zones@));
    plan
}

/// Installs a fetched list: a zone's routers, or a zone's authoritative segments.
pub fn apply_edge_fetch(state: &mut EdgeState, fetch: &EdgeFetch, list: Vec<String>)
    requires
        old(state).wf(),
    ensures
        final(state).wf(),
        fetch.kind == EdgeFetchKind::Routers ==> final(state).routers() == old(state).routers().insert(fetch.zone@, strs_view(list@))
            && final(state).segments() == old(state).segments(),
        fetch.kind == EdgeFetchKind::Segments ==> final(state).segments() == replace_group_spec(old(state).segments(), fetch.zone@, str_set(list@))
            && final(state).routers() == old(state).routers(),
{
    match fetch.kind {
        EdgeFetchKind::Routers => state.set_zone_routers(fetch.zone.as_str(), list),
        EdgeFetchKind::Segments => state.replace_zone_segments(fetch.zone.as_str(), list),
    }
}

/// Completes an edge synchronization: segments whose zone has no router
/// list are dropped; an empty state is an error.
pub fn finish_edge_sync(state: EdgeState) -> (r: Result<RoutingSnapshot, RZError>)
    requires
        state.wf(),
    ensures
        edge_finish_segments(state).is_empty() && state.routers().is_empty() ==> (r matches Err(RZError::NoRoute(m))
            && m@ == "empty edge state after sync"@),
        !(edge_finish_segments(state).is_empty() && state.routers().is_empty()) ==> (r matches Ok(RoutingSnapshot::Edge(s))
            && s.wf() && s.segments() == edge_finish_segments(state) && s.routers() == state.routers()),
{
    let mut state = state;
    let zones = state.zone_to_routers.keys();
    proof {
        state.zone_to_routers.lemma_key_seq();
        assert(str_set(zones@) =~= state.routers().dom());
    }
    keep_groups(&mut state.segment_to_zone, &zones);
    if state.is_empty() {
        Err(RZError::NoRoute(String::from_str("empty edge state after sync")))
    } else {
        Ok(RoutingSnapshot::Edge(state))
    }
}

/// Whether a zone router fetches its zone's shard topology: when its key
/// changed or no shard is known yet.
pub fn zone_shards_due(endpoint: &RzidEndpoint, changed: &Vec<String>, state: &ZoneState) -> (b: bool)
    requires
        state.wf(),
    ensures
        b == (str_set(changed@).contains(shards_key(endpoint.zone_id@)) || state.bridges().is_empty()),
{
    let key = key_for("zones/", endpoint.zone_id.as_str(), "/shards");
    let in_changed = contains_str(changed, key.as_str());
    let empty = state.shard_to_bridges.is_empty();
    assert(state.bridges().dom() =~= state.shard_to_bridges@.dom());
    in_changed || empty
}

/// Installs a zone's fetched shard topology: it replaces the bridge lists,
/// and segments of shards that disappeared are dropped.
pub fn install_zone_shards(state: &mut ZoneState, shards: StrMap<ShardBridges>)
    requires
        old(state).wf(),
        shards.wf(),
    ensures
        final(state).wf(),
        final(state).bridges() == shards@.map_values(|b: ShardBridges| strs_view(b.bridges@)),
        final(state).segments() == keep_groups_spec(old(state).segments(), shards@.dom()),
{
    let ghost target = shards@.map_values(|b: ShardBridges| strs_view(b.bridges@));
    proof {
        shards.lemma_key_seq();
    }
    let (ids, entries) = shards.into_entries();
    let mut lists: Vec<Vec<String>> = Vec::new();
    let mut rest = entries;
    let ghost ents = rest@;
    let mut taken: usize = 0;
    let total = rest.len();
    while rest.len() > 0
        invariant
            ents.len() == total,
            ents.len() == ids@.len(),
            taken + rest@.len() == ents.len(),
            lists@.len() == taken,
            rest@ == ents.skip(taken as int),
            forall|j: int| 0 <= j < taken ==> #[trigger] lists@[j] == ents[j].bridges,
        decreases rest@.len(),
    {
        let e = rest.remove(0);
        assert(e == ents[taken as int]);
        assert(rest@ =~= ents.skip(taken + 1));
        lists.push(e.bridges);
        taken = taken + 1;
    }
    let ghost id_view = strs_view(ids@);
    let m = StrMap::from_entries(ids, lists);
    proof {
        assert forall|k: Seq<char>| #[trigger] list_map(m@).contains_key(k) <==> target.contains_key(k) by {
            if target.contains_key(k) {
                assert(shards.key_seq().to_set().contains(k));
            }
        }
        assert forall|k: Seq<char>| #[trigger] list_map(m@).contains_key(k) implies list_map(m@)[k] == target[k] by {
            let j = choose|j: int| 0 <= j < id_view.len() && id_view[j] == k;
            assert(m@[id_view[j]] == lists@[j]);
        }
        assert(list_map(m@) =~= target);
    }
    state.shard_to_bridges = m;
    let valid = state.shard_to_bridges.keys();
    proof {
        state.shard_to_bridges.lemma_key_seq();
        assert(str_set(valid@) =~= shards@.dom());
    }
    state.retain_valid_shards(&valid);
}

/// Whether a shard's segment list is fetched: the manifest lists it with a
/// version other than the recorded one.
pub fn shard_segments_due(manifest: &VersionManifest, local: &StrMap<u64>, shard_id: &str) -> (b: bool)
    requires
        manifest.versions.wf(),
        local.wf(),
    ensures
        b == (manifest.versions@.contains_key(shard_segments_key(shard_id@)) && !(local@.contains_key(
            shard_segments_key(shard_id@),
        ) && local@[shard_segments_key(shard_id@)] == manifest.versions@[shard_segments_key(shard_id@)])),
{
    let key = key_for("shards/", shard_id, "/segments");
    match manifest.versions.get(key.as_str()) {
        None => false,
        Some(v) => match local.get(key.as_str()) {
            Some(lv) => *lv != *v,
            None => true,
        },
    }
}

/// Installs a shard's fetched segment list, unless the registry reports the
/// shard in another zone; returns whether it was installed.
pub fn apply_shard_segments(
    endpoint: &RzidEndpoint,
    state: &mut ZoneState,
    shard_id: &str,
    reply_zone: &str,
    segments: Vec<String>,
) -> (installed: bool)
    requires
        old(state).wf(),
    ensures
        final(state).wf(),
        installed == (reply_zone@ == endpoint.zone_id@),
        installed ==> final(state).segments() == replace_group_spec(old(state).segments(), shard_id@, str_set(segments@))
            && final(state).bridges() == old(state).bridges(),
        !installed ==> final(state).segments() == old(state).segments() && final(state).bridges() == old(state).bridges(),
{
    if !str_eq(reply_zone, endpoint.zone_id.as_str()) {
        return false;
    }
    state.replace_shard_segments(shard_id, segments);
    true
}

/// Completes a zone synchronization: segments whose shard has no bridge
/// list are dropped; an empty state is an error.
pub fn finish_zone_sync(state: ZoneState) -> (r: Result<RoutingSnapshot, RZError>)
    requires
        state.wf(),
    ensures
        zone_finish_segments(state).is_empty() && state.bridges().is_empty() ==> (r matches Err(RZError::NoRoute(m))
            && m@ == "empty zone state after sync"@),
        !(zone_finish_segments(state).is_empty() && state.bridges().is_empty()) ==> (r matches Ok(RoutingSnapshot::Zone(s))
            && s.wf() && s.segments() == zone_finish_segments(state) && s.bridges() == state.bridges()),
{
    let mut state = state;
    let shards = state.shard_to_bridges.keys();
    proof {
        state.shard_to_bridges.lemma_key_seq();
        assert(str_set(shards@) =~= state.bridges().dom());
    }
    state.retain_valid_shards(&shards);
    if state.is_empty() {
        Err(RZError::NoRoute(String::from_str("empty zone state after sync")))
    } else {
        Ok(RoutingSnapshot::Zone(state))
    }
}

} // verus!
