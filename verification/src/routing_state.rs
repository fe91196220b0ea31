//! Routing tables of the two router tiers.
//!
//! An edge router maps a segment to a zone and a zone to its routers; a
//! zone router maps a segment to a shard and a shard to its bridges. A
//! lookup follows both maps and yields the next hops.
use vstd::prelude::*;
use crate::strmap::{StrMap, strs_view, str_set, flatten_lists};

verus! {

/// A string-valued map seen through the characters of its values.
pub open spec fn text_map(m: Map<Seq<char>, String>) -> Map<Seq<char>, Seq<char>> {
    m.map_values(|v: String| v@)
}

/// A list-valued map seen through the characters of the strings in its lists.
pub open spec fn list_map(m: Map<Seq<char>, Vec<String>>) -> Map<Seq<char>, Seq<Seq<char>>> {
    m.map_values(|v: Vec<String>| strs_view(v@))
}

/// Next hops of `segment`: the list under the group that the segment belongs
/// to, or nothing when the segment or its group is unknown.
pub open spec fn lookup_spec(
    groups: Map<Seq<char>, Seq<char>>,
    hops: Map<Seq<char>, Seq<Seq<char>>>,
    segment: Seq<char>,
) -> Seq<Seq<char>> {
    if groups.contains_key(segment) && hops.contains_key(groups[segment]) {
        hops[groups[segment]]
    } else {
        Seq::empty()
    }
}

/// `segments` after making `list` the authoritative segment list of `group`:
/// the segments of other groups stay, the old segments of `group` go, and
/// every segment of `list` belongs to `group`.
pub open spec fn replace_group_spec(
    segments: Map<Seq<char>, Seq<char>>,
    group: Seq<char>,
    list: Set<Seq<char>>,
) -> Map<Seq<char>, Seq<char>> {
    segments.restrict(segments.dom().filter(|k: Seq<char>| segments[k] != group)).union_prefer_right(
        Map::new(|k: Seq<char>| list.contains(k), |k: Seq<char>| group),
    )
}

/// `segments` without the segments whose group is not in `valid`.
pub open spec fn keep_groups_spec(segments: Map<Seq<char>, Seq<char>>, valid: Set<Seq<char>>) -> Map<
    Seq<char>,
    Seq<char>,
> {
    segments.restrict(segments.dom().filter(|k: Seq<char>| valid.contains(segments[k])))
}

/// A segment assigned to a group whose hop list is set resolves to exactly that list.
pub proof fn lemma_lookup_after_assignment(
    groups: Map<Seq<char>, Seq<char>>,
    hops: Map<Seq<char>, Seq<Seq<char>>>,
    segment: Seq<char>,
    group: Seq<char>,
    list: Seq<Seq<char>>,
)
    ensures
        lookup_spec(groups.insert(segment, group), hops.insert(group, list), segment) == list,
{
}

/// A segment without a group resolves to no hop.
pub proof fn lemma_lookup_unknown_segment(
    groups: Map<Seq<char>, Seq<char>>,
    hops: Map<Seq<char>, Seq<Seq<char>>>,
    segment: Seq<char>,
)
    requires
        !groups.contains_key(segment),
    ensures
        lookup_spec(groups, hops, segment) == Seq::<Seq<char>>::empty(),
{
}

/// Replacing a group's segment list is authoritative: afterwards a segment
/// belongs to the group exactly when it is in the list, and a segment not in
/// the list keeps its old group unless that was the replaced one.
pub proof fn lemma_replace_group_authoritative(
    segments: Map<Seq<char>, Seq<char>>,
    group: Seq<char>,
    list: Set<Seq<char>>,
)
    ensures
        forall|k: Seq<char>| #[trigger] replace_group_spec(segments, group, list).contains_key(k)
            && replace_group_spec(segments, group, list)[k] == group <==> list.contains(k),
        forall|k: Seq<char>| !list.contains(k) ==> (#[trigger] replace_group_spec(segments, group, list).contains_key(k)
            <==> (segments.contains_key(k) && segments[k] != group)),
        forall|k: Seq<char>| !list.contains(k) && #[trigger] replace_group_spec(segments, group, list).contains_key(k)
            ==> replace_group_spec(segments, group, list)[k] == segments[k],
{
}

/// After keeping only valid groups, no segment refers to an invalid group.
pub proof fn lemma_keep_groups_valid(segments: Map<Seq<char>, Seq<char>>, valid: Set<Seq<char>>)
    ensures
        forall|k: Seq<char>| #[trigger] keep_groups_spec(segments, valid).contains_key(k) ==> valid.contains(
            keep_groups_spec(segments, valid)[k],
        ) && segments.contains_key(k) && keep_groups_spec(segments, valid)[k] == segments[k],
        forall|k: Seq<char>| segments.contains_key(k) && valid.contains(segments[k]) ==> #[trigger] keep_groups_spec(
            segments,
            valid,
        ).contains_key(k),
{
}

/// Makes `list` the segment list of `group` in `segments` (see `replace_group_spec`).
fn replace_group_segments(segments: &mut StrMap<String>, group: &str, list: Vec<String>)
    requires
        old(segments).wf(),
    ensures
        final(segments).wf(),
        text_map(final(segments)@) == replace_group_spec(text_map(old(segments)@), group@, str_set(list@)),
{
    let ghost base = text_map(old(segments)@);
    segments.remove_entries_valued(group);
    proof {
        let kept = crate::strmap::keys_valued_other_than(old(segments)@, group@);
        assert(kept =~= base.dom().filter(|k: Seq<char>| base[k] != group@));
        assert(text_map(segments@) =~= base.restrict(base.dom().filter(|k: Seq<char>| base[k] != group@)));
    }
    let ghost stripped = text_map(segments@);
    let mut i: usize = 0;
    while i < list.len()
        invariant
            segments.wf(),
            i <= list@.len(),
            text_map(segments@) == stripped.union_prefer_right(
                Map::new(|k: Seq<char>| strs_view(list@).take(i as int).contains(k), |k: Seq<char>| group@),
            ),
        decreases list@.len() - i,
    {
        let segment = list[i].clone();
        let ghost prev = text_map(segments@);
        segments.remove(segment.as_str());
        segments.insert(segment, String::from_str(group));
        proof {
            let grown = strs_view(list@).take(i + 1);
            assert(grown =~= strs_view(list@).take(i as int).push(list@[i as int]@));
            assert forall|k: Seq<char>| grown.contains(k) <==> (strs_view(list@).take(i as int).contains(k) || k == list@[i as int]@) by {
                if grown.contains(k) {
                    let j = choose|j: int| 0 <= j < grown.len() && grown[j] == k;
                    if j < i {
                        assert(strs_view(list@).take(i as int)[j] == k);
                    }
                }
                if strs_view(list@).take(i as int).contains(k) {
                    let j = choose|j: int| 0 <= j < i && strs_view(list@).take(i as int)[j] == k;
                    assert(grown[j] == k);
                }
                if k == list@[i as int]@ {
                    assert(grown[i as int] == k);
                }
            }
            assert(text_map(segments@) =~= prev.insert(list@[i as int]@, group@));
            assert(text_map(segments@) =~= stripped.union_prefer_right(
                Map::new(|k: Seq<char>| grown.contains(k), |k: Seq<char>| group@),
            ));
        }
        i = i + 1;
    }
    proof {
        assert(strs_view(list@).take(list@.len() as int) =~= strs_view(list@));
        assert forall|k: Seq<char>| strs_view(list@).contains(k) <==> str_set(list@).contains(k) by {}
        assert(text_map(segments@) =~= replace_group_spec(base, group@, str_set(list@)));
    }
}

/// Keeps the segments whose group is in `valid`.
pub(crate) fn keep_groups(segments: &mut StrMap<String>, valid: &Vec<String>)
    requires
        old(segments).wf(),
    ensures
        final(segments).wf(),
        text_map(final(segments)@) == keep_groups_spec(text_map(old(segments)@), str_set(valid@)),
{
    let ghost base = text_map(old(segments)@);
    segments.retain_values_in(valid);
    proof {
        let kept = crate::strmap::keys_valued_in(old(segments)@, str_set(valid@));
        assert(kept =~= base.dom().filter(|k: Seq<char>| str_set(valid@).contains(base[k])));
        assert(text_map(segments@) =~= keep_groups_spec(base, str_set(valid@)));
    }
}

/// Next hops of `segment` through the two maps.
fn lookup_in<'a>(groups: &StrMap<String>, hops: &'a StrMap<Vec<String>>, segment: &str) -> (r: &'a [String])
    requires
        groups.wf(),
        hops.wf(),
    ensures
        strs_view(r@) == lookup_spec(text_map(groups@), list_map(hops@), segment@),
{
    match groups.get(segment) {
        Some(group) => match hops.get(group.as_str()) {
            Some(list) => list.as_slice(),
            None => {
                assert(strs_view(Seq::<String>::empty()) =~= Seq::<Seq<char>>::empty());
                &[]
            },
        },
        None => {
            assert(strs_view(Seq::<String>::empty()) =~= Seq::<Seq<char>>::empty());
            &[]
        },
    }
}

/// Edge router state: segment → zone → router ids.
pub struct EdgeState {
    pub segment_to_zone: StrMap<String>,
    pub zone_to_routers: StrMap<Vec<String>>,
}

impl EdgeState {
    pub open spec fn wf(&self) -> bool {
        self.segment_to_zone.wf() && self.zone_to_routers.wf()
    }

    /// Zone of each segment.
    pub open spec fn segments(&self) -> Map<Seq<char>, Seq<char>> {
        text_map(self.segment_to_zone@)
    }

    /// Routers of each zone.
    pub open spec fn routers(&self) -> Map<Seq<char>, Seq<Seq<char>>> {
        list_map(self.zone_to_routers@)
    }

    pub fn new() -> (s: Self)
        ensures
            s.wf(),
            s.segments() == Map::<Seq<char>, Seq<char>>::empty(),
            s.routers() == Map::<Seq<char>, Seq<Seq<char>>>::empty(),
    {
        let s = EdgeState { segment_to_zone: StrMap::new(), zone_to_routers: StrMap::new() };
        assert(s.segments() =~= Map::<Seq<char>, Seq<char>>::empty());
        assert(s.routers() =~= Map::<Seq<char>, Seq<Seq<char>>>::empty());
        s
    }

    /// A copy of the state.
    pub fn duplicate(&self) -> (s: Self)
        requires
            self.wf(),
        ensures
            s.wf(),
            s.segments() == self.segments(),
            s.routers() == self.routers(),
    {
        let s = EdgeState { segment_to_zone: self.segment_to_zone.duplicate(), zone_to_routers: self.zone_to_routers.duplicate() };
        assert(s.segments() =~= self.segments());
        assert(s.routers() =~= self.routers());
        s
    }

    /// Sets the routers of a zone.
    pub fn set_zone_routers(&mut self, zone_id: &str, routers: Vec<String>)
        requires
            old(self).wf(),
        ensures
            final(self).wf(),
            final(self).routers() == old(self).routers().insert(zone_id@, strs_view(routers@)),
            final(self).segments() == old(self).segments(),
    {
        let ghost rv = routers;
        self.zone_to_routers.insert(String::from_str(zone_id), routers);
        assert(self.routers() =~= old(self).routers().insert(zone_id@, strs_view(rv@)));
    }

    /// Assigns a segment to a zone.
    pub fn set_segment_zone(&mut self, segment: String, zone_id: String)
        requires
            old(self).wf(),
        ensures
            final(self).wf(),
            final(self).segments() == old(self).segments().insert(segment@, zone_id@),
            final(self).routers() == old(self).routers(),
    {
        let ghost z = zone_id;
        let ghost s = segment;
        self.segment_to_zone.insert(segment, zone_id);
        assert(self.segments() =~= old(self).segments().insert(s@, z@));
    }

    /// Replaces the complete segment list of a zone. The list is
    /// authoritative: segments of the zone missing from it are removed, and
    /// segments in it that belonged to another zone move to this one.
    pub fn replace_zone_segments(&mut self, zone_id: &str, segments: Vec<String>)
        requires
            old(self).wf(),
        ensures
            final(self).wf(),
            final(self).segments() == replace_group_spec(old(self).segments(), zone_id@, str_set(segments@)),
            final(self).routers() == old(self).routers(),
    {
        replace_group_segments(&mut self.segment_to_zone, zone_id, segments);
    }

    /// Removes all state of zones that no longer exist.
    pub fn retain_valid_zones(&mut self, valid_zones: &Vec<String>)
        requires
            old(self).wf(),
        ensures
            final(self).wf(),
            final(self).routers() == old(self).routers().restrict(str_set(valid_zones@)),
            final(self).segments() == keep_groups_spec(old(self).segments(), str_set(valid_zones@)),
    {
        let ghost before = self.routers();
        self.zone_to_routers.retain_keys_in(valid_zones);
        assert(self.routers() =~= before.restrict(str_set(valid_zones@)));
        keep_groups(&mut self.segment_to_zone, valid_zones);
    }

    /// Hot path: segment → zone → routers.
    pub fn lookup(&self, segment: &str) -> (r: &[String])
        requires
            self.wf(),
        ensures
            strs_view(r@) == lookup_spec(self.segments(), self.routers(), segment@),
    {
        lookup_in(&self.segment_to_zone, &self.zone_to_routers, segment)
    }

    pub fn is_empty(&self) -> (b: bool)
        requires
            self.wf(),
        ensures
            b == (self.segments().is_empty() && self.routers().is_empty()),
    {
        let a = self.segment_to_zone.is_empty();
        let c = self.zone_to_routers.is_empty();
        proof {
            assert(self.segments().dom() =~= self.segment_to_zone@.dom());
            assert(self.routers().dom() =~= self.zone_to_routers@.dom());
        }
        a && c
    }
}

/// Zone router state: segment → shard → bridge ids.
pub struct ZoneState {
    pub segment_to_shard: StrMap<String>,
    pub shard_to_bridges: StrMap<Vec<String>>,
}

impl ZoneState {
    pub open spec fn wf(&self) -> bool {
        self.segment_to_shard.wf() && self.shard_to_bridges.wf()
    }

    /// Shard of each segment.
    pub open spec fn segments(&self) -> Map<Seq<char>, Seq<char>> {
        text_map(self.segment_to_shard@)
    }

    /// Bridges of each shard.
    pub open spec fn bridges(&self) -> Map<Seq<char>, Seq<Seq<char>>> {
        list_map(self.shard_to_bridges@)
    }

    pub fn new() -> (s: Self)
        ensures
            s.wf(),
            s.segments() == Map::<Seq<char>, Seq<char>>::empty(),
            s.bridges() == Map::<Seq<char>, Seq<Seq<char>>>::empty(),
    {
        let s = ZoneState { segment_to_shard: StrMap::new(), shard_to_bridges: StrMap::new() };
        assert(s.segments() =~= Map::<Seq<char>, Seq<char>>::empty());
        assert(s.bridges() =~= Map::<Seq<char>, Seq<Seq<char>>>::empty());
        s
    }

    /// A copy of the state.
    pub fn duplicate(&self) -> (s: Self)
        requires
            self.wf(),
        ensures
            s.wf(),
            s.segments() == self.segments(),
            s.bridges() == self.bridges(),
    {
        let s = ZoneState { segment_to_shard: self.segment_to_shard.duplicate(), shard_to_bridges: self.shard_to_bridges.duplicate() };
        assert(s.segments() =~= self.segments());
        assert(s.bridges() =~= self.bridges());
        s
    }

    /// Sets the bridges of a shard.
    pub fn set_shard_bridges(&mut self, shard_id: &str, bridges: Vec<String>)
        requires
            old(self).wf(),
        ensures
            final(self).wf(),
            final(self).bridges() == old(self).bridges().insert(shard_id@, strs_view(bridges@)),
            final(self).segments() == old(self).segments(),
    {
        let ghost bv = bridges;
        self.shard_to_bridges.insert(String::from_str(shard_id), bridges);
        assert(self.bridges() =~= old(self).bridges().insert(shard_id@, strs_view(bv@)));
    }

    /// Assigns a segment to a shard.
    pub fn set_segment_shard(&mut self, segment: String, shard_id: String)
        requires
            old(self).wf(),
        ensures
            final(self).wf(),
            final(self).segments() == old(self).segments().insert(segment@, shard_id@),
            final(self).bridges() == old(self).bridges(),
    {
        let ghost z = shard_id;
        let ghost s = segment;
        self.segment_to_shard.insert(segment, shard_id);
        assert(self.segments() =~= old(self).segments().insert(s@, z@));
    }

    /// Replaces the complete segment list of a shard. The list is
    /// authoritative: segments of the shard missing from it are removed, and
    /// segments in it that belonged to another shard move to this one.
    pub fn replace_shard_segments(&mut self, shard_id: &str, segments: Vec<String>)
        requires
            old(self).wf(),
        ensures
            final(self).wf(),
            final(self).segments() == replace_group_spec(old(self).segments(), shard_id@, str_set(segments@)),
            final(self).bridges() == old(self).bridges(),
    {
        replace_group_segments(&mut self.segment_to_shard, shard_id, segments);
    }

    /// Removes all segment mappings whose shard no longer exists.
    pub fn retain_valid_shards(&mut self, valid_shards: &Vec<String>)
        requires
            old(self).wf(),
        ensures
            final(self).wf(),
            final(self).segments() == keep_groups_spec(old(self).segments(), str_set(valid_shards@)),
            final(self).bridges() == old(self).bridges(),
    {
        keep_groups(&mut self.segment_to_shard, valid_shards);
    }

    /// Hot path: segment → shard → bridges.
    pub fn lookup(&self, segment: &str) -> (r: &[String])
        requires
            self.wf(),
        ensures
            strs_view(r@) == lookup_spec(self.segments(), self.bridges(), segment@),
    {
        lookup_in(&self.segment_to_shard, &self.shard_to_bridges, segment)
    }

    pub fn is_empty(&self) -> (b: bool)
        requires
            self.wf(),
        ensures
            b == (self.segments().is_empty() && self.bridges().is_empty()),
    {
        let a = self.segment_to_shard.is_empty();
        let c = self.shard_to_bridges.is_empty();
        proof {
            assert(self.segments().dom() =~= self.segment_to_shard@.dom());
            assert(self.bridges().dom() =~= self.shard_to_bridges@.dom());
        }
        a && c
    }
}

/// A hop id occurs in the flattened lists exactly when it occurs in the list
/// under one of the keys of `order`.
pub proof fn lemma_flatten_lists_contains(m: Map<Seq<char>, Vec<String>>, order: Seq<Seq<char>>, x: Seq<char>)
    ensures
        flatten_lists(m, order).contains(x) <==> exists|j: int| 0 <= j < order.len() && #[trigger] strs_view(m[order[j]]@).contains(x),
    decreases order.len(),
{
    if order.len() > 0 {
        let init = order.drop_last();
        let last = strs_view(m[order.last()]@);
        lemma_flatten_lists_contains(m, init, x);
        let f = flatten_lists(m, init) + last;
        if f.contains(x) {
            let i = choose|i: int| 0 <= i < f.len() && f[i] == x;
            if i < flatten_lists(m, init).len() {
                assert(flatten_lists(m, init)[i] == x);
                let j = choose|j: int| 0 <= j < init.len() && #[trigger] strs_view(m[init[j]]@).contains(x);
                assert(order[j] == init[j]);
            } else {
                assert(last[i - flatten_lists(m, init).len()] == x);
                assert(strs_view(m[order[order.len() - 1]]@).contains(x));
            }
        }
        if exists|j: int| 0 <= j < order.len() && #[trigger] strs_view(m[order[j]]@).contains(x) {
            let j = choose|j: int| 0 <= j < order.len() && #[trigger] strs_view(m[order[j]]@).contains(x);
            if j < init.len() {
                assert(init[j] == order[j]);
                assert(flatten_lists(m, init).contains(x));
                let i = choose|i: int| 0 <= i < flatten_lists(m, init).len() && flatten_lists(m, init)[i] == x;
                assert(f[i] == x);
            } else {
                let i = choose|i: int| 0 <= i < last.len() && last[i] == x;
                assert(f[flatten_lists(m, init).len() + i] == x);
            }
        }
    }
}

/// Routing snapshot: the state of an edge or of a zone router.
pub enum RoutingSnapshot {
    Edge(EdgeState),
    Zone(ZoneState),
}

impl RoutingSnapshot {
    pub open spec fn wf(&self) -> bool {
        match self {
            RoutingSnapshot::Edge(s) => s.wf(),
            RoutingSnapshot::Zone(s) => s.wf(),
        }
    }

    /// Group (zone or shard) of each segment.
    pub open spec fn groups(&self) -> Map<Seq<char>, Seq<char>> {
        match self {
            RoutingSnapshot::Edge(s) => s.segments(),
            RoutingSnapshot::Zone(s) => s.segments(),
        }
    }

    /// Next hops (routers or bridges) of each group.
    pub open spec fn hops(&self) -> Map<Seq<char>, Seq<Seq<char>>> {
        match self {
            RoutingSnapshot::Edge(s) => s.routers(),
            RoutingSnapshot::Zone(s) => s.bridges(),
        }
    }

    /// All hop ids, list by list in the order of the group entries.
    pub open spec fn all_hop_ids(&self) -> Seq<Seq<char>> {
        match self {
            RoutingSnapshot::Edge(s) => flatten_lists(s.zone_to_routers@, s.zone_to_routers.key_seq()),
            RoutingSnapshot::Zone(s) => flatten_lists(s.shard_to_bridges@, s.shard_to_bridges.key_seq()),
        }
    }

    /// Hot path: next hop ids of a segment.
    pub fn lookup(&self, segment: &str) -> (r: &[String])
        requires
            self.wf(),
        ensures
            strs_view(r@) == lookup_spec(self.groups(), self.hops(), segment@),
    {
        match self {
            RoutingSnapshot::Edge(state) => state.lookup(segment),
            RoutingSnapshot::Zone(state) => state.lookup(segment),
        }
    }

    pub fn is_edge(&self) -> (b: bool)
        ensures
            b == self is Edge,
    {
        match self {
            RoutingSnapshot::Edge(_) => true,
            RoutingSnapshot::Zone(_) => false,
        }
    }

    pub fn is_zone(&self) -> (b: bool)
        ensures
            b == self is Zone,
    {
        match self {
            RoutingSnapshot::Edge(_) => false,
            RoutingSnapshot::Zone(_) => true,
        }
    }

    /// All hop ids of the snapshot (for reconciling the hop registry).
    pub fn get_all_hop_ids(&self) -> (r: Vec<String>)
        requires
            self.wf(),
        ensures
            strs_view(r@) == self.all_hop_ids(),
    {
        match self {
            RoutingSnapshot::Edge(state) => state.zone_to_routers.flat_values(),
            RoutingSnapshot::Zone(state) => state.shard_to_bridges.flat_values(),
        }
    }

    /// Every hop id of the snapshot belongs to the hop list of some group,
    /// and every member of every hop list is among the hop ids.
    pub proof fn lemma_all_hop_ids(&self, x: Seq<char>)
        requires
            self.wf(),
        ensures
            self.all_hop_ids().contains(x) <==> exists|g: Seq<char>| #[trigger] self.hops().contains_key(g) && self.hops()[g].contains(x),
    {
        let (m, order) = match self {
            RoutingSnapshot::Edge(s) => (s.zone_to_routers@, s.zone_to_routers.key_seq()),
            RoutingSnapshot::Zone(s) => (s.shard_to_bridges@, s.shard_to_bridges.key_seq()),
        };
        match self {
            RoutingSnapshot::Edge(s) => s.zone_to_routers.lemma_key_seq(),
            RoutingSnapshot::Zone(s) => s.shard_to_bridges.lemma_key_seq(),
        }
        lemma_flatten_lists_contains(m, order, x);
        assert(self.hops() == list_map(m));
        if self.all_hop_ids().contains(x) {
            let j = choose|j: int| 0 <= j < order.len() && #[trigger] strs_view(m[order[j]]@).contains(x);
            assert(order.to_set().contains(order[j]));
            assert(self.hops().contains_key(order[j]));
        }
        if exists|g: Seq<char>| #[trigger] self.hops().contains_key(g) && self.hops()[g].contains(x) {
            let g = choose|g: Seq<char>| #[trigger] self.hops().contains_key(g) && self.hops()[g].contains(x);
            assert(order.to_set().contains(g));
            let j = choose|j: int| 0 <= j < order.len() && order[j] == g;
            assert(strs_view(m[order[j]]@).contains(x));
        }
    }
}

} // verus!
