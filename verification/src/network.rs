//! A value-level model of the road network, as far as the trip bookkeeping
//! core reads it: lanes with their source intersections, roads with their
//! endpoints and tags, intersections with their member roads, and the
//! precomputed route of each live vehicle. The network itself is built and
//! owned by a collaborator; this crate only queries it.

use vstd::prelude::*;

use crate::events::PathStep;
use crate::ids::{CarID, IntersectionID, LaneID, RoadID};
use crate::scenario::MapName;
use crate::strutil::str_eq;

verus! {

/// A lane, reduced to what the recorder reads: the intersection it leads
/// away from.
#[derive(Clone, Copy, Debug, PartialEq, Eq, Structural)]
pub struct Lane {
    pub id: LaneID,
    pub src_i: IntersectionID,
}

/// One `key = value` tag on a road.
#[derive(Clone, Debug, PartialEq, Eq)]
pub struct Tag {
    pub key: String,
    pub value: String,
}

/// A road, reduced to what filter detection reads.
#[derive(Clone, Debug, PartialEq, Eq)]
pub struct Road {
    pub id: RoadID,
    pub src_i: IntersectionID,
    pub dst_i: IntersectionID,
    /// Geometric length in whole centimeters.
    pub length_cm: u64,
    pub tags: Vec<Tag>,
    /// Whether cars may drive on this road at all.
    pub driveable: bool,
}

/// An intersection and the roads that meet there.
#[derive(Clone, Debug, PartialEq, Eq)]
pub struct Intersection {
    pub id: IntersectionID,
    pub roads: Vec<RoadID>,
}

/// The queryable network snapshot handed to the recorder and the filter
/// detector.
#[derive(Clone, Debug, PartialEq, Eq)]
pub struct RoadNetwork {
    pub name: MapName,
    pub lanes: Vec<Lane>,
    pub roads: Vec<Road>,
    pub intersections: Vec<Intersection>,
}

/// The precomputed route of one live vehicle.
#[derive(Clone, Debug, PartialEq, Eq)]
pub struct AgentPath {
    pub car: CarID,
    pub steps: Vec<PathStep>,
}

/// What the routing collaborator knows: the route of each live vehicle it
/// still tracks. Lookups are fallible on purpose; an event stream may
/// reference agents that already left the simulation.
#[derive(Clone, Debug, PartialEq, Eq)]
pub struct RoutingSnapshot {
    pub paths: Vec<AgentPath>,
}

/// The first lane in `lanes` with identifier `id`, if any.
pub open spec fn spec_get_lane(lanes: Seq<Lane>, id: LaneID) -> Option<Lane>
    decreases lanes.len(),
{
    if lanes.len() == 0 {
        None
    } else if lanes[0].id == id {
        Some(lanes[0])
    } else {
        spec_get_lane(lanes.drop_first(), id)
    }
}

/// The first road in `roads` with identifier `id`, if any.
pub open spec fn spec_get_road(roads: Seq<Road>, id: RoadID) -> Option<Road>
    decreases roads.len(),
{
    if roads.len() == 0 {
        None
    } else if roads[0].id == id {
        Some(roads[0])
    } else {
        spec_get_road(roads.drop_first(), id)
    }
}

/// The first intersection in `ints` with identifier `id`, if any.
pub open spec fn spec_get_intersection(ints: Seq<Intersection>, id: IntersectionID) -> Option<
    Intersection,
>
    decreases ints.len(),
{
    if ints.len() == 0 {
        None
    } else if ints[0].id == id {
        Some(ints[0])
    } else {
        spec_get_intersection(ints.drop_first(), id)
    }
}

/// The first route in `paths` for vehicle `car`, if any.
pub open spec fn spec_get_path(paths: Seq<AgentPath>, car: CarID) -> Option<Seq<PathStep>>
    decreases paths.len(),
{
    if paths.len() == 0 {
        None
    } else if paths[0].car == car {
        Some(paths[0].steps@)
    } else {
        spec_get_path(paths.drop_first(), car)
    }
}

/// The value of the first tag named `key`, if any.
pub open spec fn spec_tag_value(tags: Seq<Tag>, key: Seq<char>) -> Option<Seq<char>>
    decreases tags.len(),
{
    if tags.len() == 0 {
        None
    } else if tags[0].key@ == key {
        Some(tags[0].value@)
    } else {
        spec_tag_value(tags.drop_first(), key)
    }
}

impl RoadNetwork {
    pub fn get_lane(&self, id: LaneID) -> (r: Option<&Lane>)
        ensures
            match r {
                Some(lane) => spec_get_lane(self.lanes@, id) == Some(*lane),
                None => spec_get_lane(self.lanes@, id) is None,
            },
    {
        let n = self.lanes.len();
        let mut i: usize = 0;
        proof {
            assert(self.lanes@.skip(0) =~= self.lanes@);
        }
        while i < n
            invariant
                i <= n == self.lanes@.len(),
                spec_get_lane(self.lanes@, id) == spec_get_lane(self.lanes@.skip(i as int), id),
            decreases n - i,
        {
            proof {
                assert(self.lanes@.skip(i as int).drop_first() =~= self.lanes@.skip(i + 1));
            }
            if self.lanes[i].id.0 == id.0 {
                return Some(&self.lanes[i]);
            }
            i += 1;
        }
        proof {
            assert(self.lanes@.skip(n as int) =~= Seq::<Lane>::empty());
        }
        None
    }

    pub fn get_road(&self, id: RoadID) -> (r: Option<&Road>)
        ensures
            match r {
                Some(road) => spec_get_road(self.roads@, id) == Some(*road),
                None => spec_get_road(self.roads@, id) is None,
            },
    {
        let n = self.roads.len();
        let mut i: usize = 0;
        proof {
            assert(self.roads@.skip(0) =~= self.roads@);
        }
        while i < n
            invariant
                i <= n == self.roads@.len(),
                spec_get_road(self.roads@, id) == spec_get_road(self.roads@.skip(i as int), id),
            decreases n - i,
        {
            proof {
                assert(self.roads@.skip(i as int).drop_first() =~= self.roads@.skip(i + 1));
            }
            if self.roads[i].id.0 == id.0 {
                return Some(&self.roads[i]);
            }
            i += 1;
        }
        proof {
            assert(self.roads@.skip(n as int) =~= Seq::<Road>::empty());
        }
        None
    }

    pub fn get_intersection(&self, id: IntersectionID) -> (r: Option<&Intersection>)
        ensures
            match r {
                Some(inter) => spec_get_intersection(self.intersections@, id) == Some(*inter),
                None => spec_get_intersection(self.intersections@, id) is None,
            },
    {
        let n = self.intersections.len();
        let mut i: usize = 0;
        proof {
            assert(self.intersections@.skip(0) =~= self.intersections@);
        }
        while i < n
            invariant
                i <= n == self.intersections@.len(),
                spec_get_intersection(self.intersections@, id) == spec_get_intersection(
                    self.intersections@.skip(i as int),
                    id,
                ),
            decreases n - i,
        {
            proof {
                assert(self.intersections@.skip(i as int).drop_first() =~= self.intersections@.skip(
                    i + 1,
                ));
            }
            if self.intersections[i].id.0 == id.0 {
                return Some(&self.intersections[i]);
            }
            i += 1;
        }
        proof {
            assert(self.intersections@.skip(n as int) =~= Seq::<Intersection>::empty());
        }
        None
    }
}

impl RoutingSnapshot {
    pub fn get_path(&self, car: CarID) -> (r: Option<&Vec<PathStep>>)
        ensures
            match r {
                Some(steps) => spec_get_path(self.paths@, car) == Some(steps@),
                None => spec_get_path(self.paths@, car) is None,
            },
    {
        let n = self.paths.len();
        let mut i: usize = 0;
        proof {
            assert(self.paths@.skip(0) =~= self.paths@);
        }
        while i < n
            invariant
                i <= n == self.paths@.len(),
                spec_get_path(self.paths@, car) == spec_get_path(self.paths@.skip(i as int), car),
            decreases n - i,
        {
            proof {
                assert(self.paths@.skip(i as int).drop_first() =~= self.paths@.skip(i + 1));
            }
            if self.paths[i].car == car {
                return Some(&self.paths[i].steps);
            }
            i += 1;
        }
        proof {
            assert(self.paths@.skip(n as int) =~= Seq::<AgentPath>::empty());
        }
        None
    }
}

/// Looks up the value of the first tag named `key` among `tags`.
pub fn tag_value<'a>(tags: &'a Vec<Tag>, key: &str) -> (r: Option<&'a String>)
    ensures
        match r {
            Some(v) => spec_tag_value(tags@, key@) == Some(v@),
            None => spec_tag_value(tags@, key@) is None,
        },
{
    let n = tags.len();
    let mut i: usize = 0;
    proof {
        assert(tags@.skip(0) =~= tags@);
    }
    while i < n
        invariant
            i <= n == tags@.len(),
            spec_tag_value(tags@, key@) == spec_tag_value(tags@.skip(i as int), key@),
        decreases n - i,
    {
        proof {
            assert(tags@.skip(i as int).drop_first() =~= tags@.skip(i + 1));
        }
        if str_eq(tags[i].key.as_str(), key) {
            return Some(&tags[i].value);
        }
        i += 1;
    }
    proof {
        assert(tags@.skip(n as int) =~= Seq::<Tag>::empty());
    }
    None
}

/// Whether the first tag named `key` exists and has value `value`.
pub fn tag_is(tags: &Vec<Tag>, key: &str, value: &str) -> (r: bool)
    ensures
        r == (spec_tag_value(tags@, key@) == Some(value@)),
{
    match tag_value(tags, key) {
        Some(v) => str_eq(v.as_str(), value),
        None => false,
    }
}

/// Whether the road with this identifier exists and touches intersection
/// `x`.
pub open spec fn road_touches(map: RoadNetwork, rid: RoadID, x: IntersectionID) -> bool {
    match spec_get_road(map.roads@, rid) {
        Some(rd) => rd.src_i == x || rd.dst_i == x,
        None => false,
    }
}

/// Whether every member of one road list occurs in the other.
pub open spec fn road_set_contains_all(members: Seq<RoadID>, roads: Seq<RoadID>) -> bool {
    forall|j: int| 0 <= j < members.len() ==> roads.contains(#[trigger] members[j])
}

/// Whether intersection `x` exists and all roads meeting there are in the
/// given road set.
pub open spec fn closed_under(map: RoadNetwork, roads: Seq<RoadID>, x: IntersectionID) -> bool {
    match spec_get_intersection(map.intersections@, x) {
        Some(inter) => road_set_contains_all(inter.roads@, roads),
        None => false,
    }
}

/// Whether some road among the first `upto` of the set touches `x`.
pub open spec fn touched_by_prefix(
    map: RoadNetwork,
    roads: Seq<RoadID>,
    upto: int,
    x: IntersectionID,
) -> bool {
    exists|k: int| 0 <= k < upto && road_touches(map, #[trigger] roads[k], x)
}

/// Whether `x` belongs to the interior of the road set: some road of the
/// set touches it and every road meeting there is in the set.
pub open spec fn spec_interior_intersection(
    map: RoadNetwork,
    roads: Seq<RoadID>,
    x: IntersectionID,
) -> bool {
    touched_by_prefix(map, roads, roads.len() as int, x) && closed_under(map, roads, x)
}

/// Whether `p` occurs in a road list.
fn contains_road(roads: &Vec<RoadID>, p: RoadID) -> (r: bool)
    ensures
        r == roads@.contains(p),
{
    let n = roads.len();
    let mut i: usize = 0;
    while i < n
        invariant
            i <= n == roads@.len(),
            forall|j: int| 0 <= j < i ==> roads@[j] != p,
        decreases n - i,
    {
        if roads[i].0 == p.0 {
            return true;
        }
        i += 1;
    }
    false
}

/// Whether `p` occurs in an intersection list.
fn contains_inter(v: &Vec<IntersectionID>, p: IntersectionID) -> (r: bool)
    ensures
        r == v@.contains(p),
{
    let n = v.len();
    let mut i: usize = 0;
    while i < n
        invariant
            i <= n == v@.len(),
            forall|j: int| 0 <= j < i ==> v@[j] != p,
        decreases n - i,
    {
        if v[i].0 == p.0 {
            return true;
        }
        i += 1;
    }
    false
}

/// Whether every entry of `members` occurs in `roads`.
fn all_roads_in(members: &Vec<RoadID>, roads: &Vec<RoadID>) -> (r: bool)
    ensures
        r == road_set_contains_all(members@, roads@),
{
    let n = members.len();
    let mut i: usize = 0;
    while i < n
        invariant
            i <= n == members@.len(),
            forall|j: int| 0 <= j < i ==> roads@.contains(#[trigger] members@[j]),
        decreases n - i,
    {
        if !contains_road(roads, members[i]) {
            return false;
        }
        i += 1;
    }
    true
}

/// Considers one endpoint intersection of an included road: appends it
/// when it qualifies and is not already listed.
#[verifier::loop_isolation(false)]
fn consider_intersection(
    results: &mut Vec<IntersectionID>,
    map: &RoadNetwork,
    roads: &Vec<RoadID>,
    i: IntersectionID,
)
    requires
        touched_by_prefix(*map, roads@, roads@.len() as int, i),
        old(results)@.no_duplicates(),
        forall|x: IntersectionID|
            #[trigger] old(results)@.contains(x) ==> spec_interior_intersection(*map, roads@, x),
    ensures
        final(results)@.no_duplicates(),
        forall|x: IntersectionID|
            #[trigger] final(results)@.contains(x) ==> spec_interior_intersection(*map, roads@, x),
        forall|x: IntersectionID|
            #[trigger] old(results)@.contains(x) ==> final(results)@.contains(x),
        closed_under(*map, roads@, i) ==> final(results)@.contains(i),
{
    if contains_inter(results, i) {
        return;
    }
    if let Some(inter) = map.get_intersection(i) {
        if all_roads_in(&inter.roads, roads) {
            proof {
                assert(closed_under(*map, roads@, i));
            }
            let ghost before = results@;
            results.push(i);
            proof {
                assert(results@ == before.push(i));
                assert forall|x: IntersectionID| #[trigger] before.contains(x)
                    implies results@.contains(x) by {
                    let w = choose|w: int| 0 <= w < before.len() && before[w] == x;
                    assert(results@[w] == x);
                }
                assert(results@.contains(i)) by {
                    assert(results@[results@.len() - 1] == i);
                }
                assert(results@.no_duplicates()) by {
                    assert forall|a: int, b: int|
                        0 <= a < results@.len() && 0 <= b < results@.len() && a != b
                        implies results@[a] != results@[b] by {
                        if a < before.len() && b < before.len() {
                            assert(results@[a] == before[a]);
                            assert(results@[b] == before[b]);
                        } else if a < before.len() {
                            assert(results@[b] == i);
                            if results@[a] == i {
                                assert(before.contains(i)) by {
                                    assert(before[a] == i);
                                }
                            }
                        } else {
                            assert(results@[a] == i);
                            if results@[b] == i {
                                assert(before.contains(i)) by {
                                    assert(before[b] == i);
                                }
                            }
                        }
                    }
                }
                assert forall|x: IntersectionID| #[trigger] results@.contains(x)
                    implies spec_interior_intersection(*map, roads@, x) by {
                    if x != i {
                        let w = choose|w: int| 0 <= w < results@.len() && results@[w] == x;
                        assert(w < before.len());
                        assert(before.contains(x)) by {
                            assert(before[w] == x);
                        }
                    }
                }
            }
        }
    }
}

/// The intersections interior to a road set: those an included road
/// touches where every meeting road is included. Each appears once.
#[verifier::loop_isolation(false)]
pub fn intersections_from_roads(roads: &Vec<RoadID>, map: &RoadNetwork) -> (r: Vec<
    IntersectionID,
>)
    ensures
        r@.no_duplicates(),
        forall|x: IntersectionID|
            r@.contains(x) <==> spec_interior_intersection(*map, roads@, x),
{
    let mut results: Vec<IntersectionID> = Vec::new();
    let n = roads.len();
    let mut idx: usize = 0;
    while idx < n
        invariant
            idx <= n == roads@.len(),
            results@.no_duplicates(),
            forall|x: IntersectionID|
                #[trigger] results@.contains(x) ==> spec_interior_intersection(*map, roads@, x),
            forall|x: IntersectionID|
                #![trigger closed_under(*map, roads@, x)]
                touched_by_prefix(*map, roads@, idx as int, x) && closed_under(*map, roads@, x)
                    ==> results@.contains(x),
        decreases n - idx,
    {
        let ghost r0 = results@;
        if let Some(rd) = map.get_road(roads[idx]) {
            let src = rd.src_i;
            let dst = rd.dst_i;
            proof {
                assert(road_touches(*map, roads@[idx as int], src));
                assert(road_touches(*map, roads@[idx as int], dst));
                assert(touched_by_prefix(*map, roads@, roads@.len() as int, src));
                assert(touched_by_prefix(*map, roads@, roads@.len() as int, dst));
            }
            consider_intersection(&mut results, map, roads, src);
            consider_intersection(&mut results, map, roads, dst);
        }
        proof {
            assert forall|x: IntersectionID|
                touched_by_prefix(*map, roads@, idx + 1, x) && #[trigger] closed_under(
                    *map,
                    roads@,
                    x,
                ) implies results@.contains(x) by {
                let k = choose|k: int|
                    0 <= k < idx + 1 && road_touches(*map, #[trigger] roads@[k], x);
                if k < idx {
                    assert(touched_by_prefix(*map, roads@, idx as int, x)) by {
                        assert(road_touches(*map, roads@[k], x));
                    }
                    assert(r0.contains(x));
                } else {
                    assert(road_touches(*map, roads@[idx as int], x));
                    match spec_get_road(map.roads@, roads@[idx as int]) {
                        Some(rd2) => {
                            assert(rd2.src_i == x || rd2.dst_i == x);
                        },
                        None => {
                            assert(false);
                        },
                    }
                }
            }
        }
        idx += 1;
    }
    results
}

/// Whether at least one road meeting at this intersection is driveable.
pub open spec fn connects_driveable(map: RoadNetwork, i: IntersectionID) -> bool {
    match spec_get_intersection(map.intersections@, i) {
        Some(inter) => exists|j: int|
            0 <= j < inter.roads@.len() && (match spec_get_road(
                map.roads@,
                #[trigger] inter.roads@[j],
            ) {
                Some(rd) => rd.driveable,
                None => false,
            }),
        None => false,
    }
}

/// Whether a road is really a modal filter: tagged as a cycleway but not
/// one-way, short enough to drive over, and joining driveable roads at
/// both ends.
pub open spec fn spec_is_filter_road(map: RoadNetwork, rd: Road) -> bool {
    &&& spec_tag_value(rd.tags@, "highway"@) == Some("cycleway"@)
    &&& spec_tag_value(rd.tags@, "oneway"@) != Some("yes"@)
    &&& rd.length_cm <= 2000
    &&& connects_driveable(map, rd.src_i)
    &&& connects_driveable(map, rd.dst_i)
}

/// The identifiers of the filter roads, in map order.
pub open spec fn spec_detected_filters(map: RoadNetwork, upto: int) -> Seq<RoadID>
    decreases upto,
{
    if upto <= 0 {
        Seq::empty()
    } else {
        spec_detected_filters(map, upto - 1) + (if spec_is_filter_road(
            map,
            map.roads@[upto - 1],
        ) {
            seq![map.roads@[upto - 1].id]
        } else {
            Seq::empty()
        })
    }
}

/// Whether at least one road meeting at `i` is driveable.
fn connects_driveable_exec(map: &RoadNetwork, i: IntersectionID) -> (r: bool)
    ensures
        r == connects_driveable(*map, i),
{
    match map.get_intersection(i) {
        Some(inter) => {
            let n = inter.roads.len();
            let mut j: usize = 0;
            while j < n
                invariant
                    j <= n == inter.roads@.len(),
                    spec_get_intersection(map.intersections@, i) == Some(*inter),
                    forall|k: int|
                        0 <= k < j ==> !(match spec_get_road(
                            map.roads@,
                            #[trigger] inter.roads@[k],
                        ) {
                            Some(rd) => rd.driveable,
                            None => false,
                        }),
                decreases n - j,
            {
                if let Some(rd) = map.get_road(inter.roads[j]) {
                    if rd.driveable {
                        return true;
                    }
                }
                j += 1;
            }
            false
        },
        None => false,
    }
}

/// Detects roads modelled as cycleways that really are filtered regular
/// roads: short, not one-way, and connecting driveable roads at both
/// ends. Missing intersections or roads simply fail the test; one
/// inconsistent entry never aborts detection.
#[verifier::loop_isolation(false)]
pub fn detect_filters(map: &RoadNetwork) -> (r: Vec<RoadID>)
    ensures
        r@ == spec_detected_filters(*map, map.roads@.len() as int),
{
    let mut results: Vec<RoadID> = Vec::new();
    let n = map.roads.len();
    let mut i: usize = 0;
    proof {
        assert(results@ =~= spec_detected_filters(*map, 0));
    }
    while i < n
        invariant
            i <= n == map.roads@.len(),
            results@ == spec_detected_filters(*map, i as int),
        decreases n - i,
    {
        let rd = &map.roads[i];
        let keep = tag_is(&rd.tags, "highway", "cycleway") && !tag_is(&rd.tags, "oneway", "yes")
            && rd.length_cm <= 2000 && connects_driveable_exec(map, rd.src_i)
            && connects_driveable_exec(map, rd.dst_i);
        proof {
            assert(spec_tag_value(rd.tags@, "oneway"@) == Some("yes"@) ==> spec_tag_value(
                map.roads@[i as int].tags@,
                "oneway"@,
            ) == Some("yes"@));
        }
        if keep {
            results.push(rd.id);
            proof {
                assert(results@ =~= spec_detected_filters(*map, i + 1));
            }
        } else {
            proof {
                assert(!spec_is_filter_road(*map, map.roads@[i as int]));
                assert(results@ =~= spec_detected_filters(*map, i + 1));
            }
        }
        i += 1;
    }
    results
}

} // verus!
