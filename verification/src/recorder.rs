//! Records trips beginning and ending at a configured set of boundary
//! intersections. This captures and reproduces behavior in one chunk of the
//! map without simulating everything: the recorder watches the live event
//! stream, follows each qualifying vehicle's precomputed path to the first
//! boundary exit, and synthesizes a reduced scenario catalog.

use vstd::prelude::*;
use vstd::string::StringExecFns;

use crate::events::{Event, PathStep, Traversable};
use crate::ids::{AgentID, CarID, IntersectionID, LaneID, TripID, VehicleType};
use crate::network::{spec_get_lane, spec_get_path, RoadNetwork, RoutingSnapshot};
use crate::scenario::{
    IndividTrip, MapName, PersonSpec, Position, ScenarioCatalog, TripEndpoint, TripMode,
    TripPurpose,
};
use crate::time::Time;

verus! {

/// The mathematical state of a recorder: the fixed capture boundary, the
/// trips recorded so far in order, and the trip identifiers already seen.
pub struct RecorderView {
    pub capture: Seq<IntersectionID>,
    pub trips: Seq<IndividTrip>,
    pub seen: Seq<TripID>,
}

/// Records trips that pass through the capture region. Vehicle lengths and
/// spacing are not captured; a replay reuses the host simulator's own
/// randomization, an accepted fidelity trade-off.
#[derive(Clone, Debug)]
pub struct TrafficRecorder {
    capture_points: Vec<IntersectionID>,
    trips: Vec<IndividTrip>,
    seen_trips: Vec<TripID>,
}

impl View for TrafficRecorder {
    type V = RecorderView;

    closed spec fn view(&self) -> RecorderView {
        RecorderView {
            capture: self.capture_points@,
            trips: self.trips@,
            seen: self.seen_trips@,
        }
    }
}

/// The parent of the first `Turn` step whose parent intersection lies on
/// the capture boundary, if the path has one.
pub open spec fn first_border_exit(steps: Seq<PathStep>, capture: Seq<IntersectionID>) -> Option<
    IntersectionID,
>
    decreases steps.len(),
{
    if steps.len() == 0 {
        None
    } else {
        match steps[0] {
            PathStep::Turn(t) => {
                if capture.contains(t.parent) {
                    Some(t.parent)
                } else {
                    first_border_exit(steps.drop_first(), capture)
                }
            },
            PathStep::Lane(_) => first_border_exit(steps.drop_first(), capture),
        }
    }
}

/// Whether one path step is a turn through a capture-boundary intersection.
pub open spec fn is_border_turn(step: PathStep, capture: Seq<IntersectionID>) -> bool {
    match step {
        PathStep::Turn(t) => capture.contains(t.parent),
        PathStep::Lane(_) => false,
    }
}

/// The trip record synthesized for a capture: a sudden appearance at the
/// entry lane, a border exit at the first boundary intersection along the
/// path, and the mode inferred from the vehicle kind.
pub open spec fn recorded_trip(
    time: Time,
    entry: LaneID,
    exit: IntersectionID,
    vt: VehicleType,
) -> IndividTrip {
    IndividTrip {
        depart: time,
        purpose: TripPurpose::Shopping,
        origin: TripEndpoint::SuddenlyAppear(Position { lane: entry, dist_cm: 0 }),
        destination: TripEndpoint::Border(exit),
        mode: if vt == VehicleType::Bike {
            TripMode::Bike
        } else {
            TripMode::Drive
        },
    }
}

/// What one event makes the recorder capture, if anything: the trip
/// identifier marked as seen and the synthesized trip record. An event
/// qualifies exactly when a car enters a lane on behalf of an unseen trip,
/// the lane leads away from a boundary intersection, the routing
/// collaborator still tracks the car, and the car's path later turns
/// through a boundary intersection.
pub open spec fn spec_capture(
    v: RecorderView,
    time: Time,
    ev: Event,
    map: RoadNetwork,
    routing: RoutingSnapshot,
) -> Option<(TripID, IndividTrip)> {
    match ev {
        Event::AgentEntersTraversable(agent, trip_opt, on) => match (agent, trip_opt, on) {
            (AgentID::Car(car), Some(trip), Traversable::Lane(l)) => {
                if v.seen.contains(trip) {
                    None
                } else {
                    match spec_get_lane(map.lanes@, l) {
                        Some(lane) => {
                            if v.capture.contains(lane.src_i) {
                                match spec_get_path(routing.paths@, car) {
                                    Some(steps) => match first_border_exit(steps, v.capture) {
                                        Some(exit) => Some(
                                            (trip, recorded_trip(time, l, exit, car.vehicle_type)),
                                        ),
                                        None => None,
                                    },
                                    None => None,
                                }
                            } else {
                                None
                            }
                        },
                        None => None,
                    }
                }
            },
            _ => None,
        },
        _ => None,
    }
}

/// The recorder state after one event: either one trip is appended and its
/// identifier marked as seen, or nothing changes.
pub open spec fn spec_handle(
    v: RecorderView,
    time: Time,
    ev: Event,
    map: RoadNetwork,
    routing: RoutingSnapshot,
) -> RecorderView {
    match spec_capture(v, time, ev, map, routing) {
        Some((trip, it)) => RecorderView {
            capture: v.capture,
            trips: v.trips.push(it),
            seen: v.seen.push(trip),
        },
        None => v,
    }
}

impl TrafficRecorder {
    pub fn new(capture_points: Vec<IntersectionID>) -> (r: TrafficRecorder)
        ensures
            r@.capture == capture_points@,
            r@.trips == Seq::<IndividTrip>::empty(),
            r@.seen == Seq::<TripID>::empty(),
    {
        TrafficRecorder { capture_points, trips: Vec::new(), seen_trips: Vec::new() }
    }

    /// Consumes one event of the live stream, in order. Missing lane or
    /// path lookups make the event skip harmlessly; a recording session is
    /// never aborted over one inconsistent event.
    pub fn handle_event(
        &mut self,
        time: Time,
        ev: &Event,
        map: &RoadNetwork,
        routing: &RoutingSnapshot,
    )
        ensures
            final(self)@ == spec_handle(old(self)@, time, *ev, *map, *routing),
    {
        if let Event::AgentEntersTraversable(AgentID::Car(car), Some(trip), Traversable::Lane(l)) =
            ev {
                if self.contains_trip(*trip) {
                    return;
                }
                if let Some(lane) = map.get_lane(*l) {
                    if self.contains_point(lane.src_i) {
                        if let Some(steps) = routing.get_path(*car) {
                            // Where does the vehicle exit the region?
                            if let Some(exit) = first_exit(steps, &self.capture_points) {
                                self.trips.push(
                                    IndividTrip::new(
                                        time,
                                        TripPurpose::Shopping,
                                        TripEndpoint::SuddenlyAppear(Position::start(*l)),
                                        TripEndpoint::Border(exit),
                                        if car.vehicle_type == VehicleType::Bike {
                                            TripMode::Bike
                                        } else {
                                            TripMode::Drive
                                        },
                                    ),
                                );
                                self.seen_trips.push(*trip);
                            }
                        }
                    }
                }
        }
    }

    /// How many trips have been captured so far.
    pub fn num_recorded_trips(&self) -> (r: usize)
        ensures
            r == self@.trips.len(),
    {
        self.trips.len()
    }

    /// Drains the recorded trips into a new catalog with one person per
    /// trip, surrendering ownership of the capture. Writing the catalog
    /// anywhere is the caller's concern.
    pub fn save(self, map: &RoadNetwork) -> (r: ScenarioCatalog)
        ensures
            r@.scenario_name == "recorded"@,
            r@.city == map.name.city@,
            r@.map == map.name.map@,
            r@.people.len() == self@.trips.len(),
            forall|i: int|
                0 <= i < self@.trips.len() ==> {
                    &&& (#[trigger] r@.people[i]).orig_id is None
                    &&& r@.people[i].trips == seq![self@.trips[i]]
                },
    {
        let mut people: Vec<PersonSpec> = Vec::new();
        let n = self.trips.len();
        let mut i: usize = 0;
        while i < n
            invariant
                i <= n == self@.trips.len(),
                people@.len() == i,
                forall|j: int|
                    0 <= j < i ==> {
                        &&& (#[trigger] people@[j]).orig_id is None
                        &&& people@[j].trips@ == seq![self@.trips[j]]
                    },
            decreases n - i,
        {
            let mut trips: Vec<IndividTrip> = Vec::new();
            trips.push(self.trips[i]);
            proof {
                assert(trips@ =~= seq![self@.trips[i as int]]);
            }
            people.push(PersonSpec { orig_id: None, trips });
            i += 1;
        }
        let name = MapName { city: clone_string(&map.name.city), map: clone_string(&map.name.map) };
        ScenarioCatalog {
            scenario_name: String::from_str("recorded"),
            map_name: name,
            people,
        }
    }

    fn contains_trip(&self, t: TripID) -> (r: bool)
        ensures
            r == self@.seen.contains(t),
    {
        let n = self.seen_trips.len();
        let mut i: usize = 0;
        while i < n
            invariant
                i <= n == self.seen_trips@.len(),
                forall|j: int| 0 <= j < i ==> self.seen_trips@[j] != t,
            decreases n - i,
        {
            if self.seen_trips[i].0 == t.0 {
                return true;
            }
            i += 1;
        }
        false
    }

    fn contains_point(&self, p: IntersectionID) -> (r: bool)
        ensures
            r == self@.capture.contains(p),
    {
        contains_intersection(&self.capture_points, p)
    }
}

/// Whether `p` occurs in `points`.
fn contains_intersection(points: &Vec<IntersectionID>, p: IntersectionID) -> (r: bool)
    ensures
        r == points@.contains(p),
{
    let n = points.len();
    let mut i: usize = 0;
    while i < n
        invariant
            i <= n == points@.len(),
            forall|j: int| 0 <= j < i ==> points@[j] != p,
        decreases n - i,
    {
        if points[i].0 == p.0 {
            return true;
        }
        i += 1;
    }
    false
}

/// Walks a path and returns the parent of the first turn step through a
/// capture-boundary intersection.
fn first_exit(steps: &Vec<PathStep>, capture: &Vec<IntersectionID>) -> (r: Option<IntersectionID>)
    ensures
        r == first_border_exit(steps@, capture@),
{
    let n = steps.len();
    let mut i: usize = 0;
    proof {
        assert(steps@.skip(0) =~= steps@);
    }
    while i < n
        invariant
            i <= n == steps@.len(),
            first_border_exit(steps@, capture@) == first_border_exit(
                steps@.skip(i as int),
                capture@,
            ),
        decreases n - i,
    {
        proof {
            assert(steps@.skip(i as int).drop_first() =~= steps@.skip(i + 1));
        }
        if let PathStep::Turn(t) = steps[i] {
            if contains_intersection(capture, t.parent) {
                return Some(t.parent);
            }
        }
        i += 1;
    }
    proof {
        assert(steps@.skip(n as int) =~= Seq::<PathStep>::empty());
    }
    None
}

/// Copies a string.
fn clone_string(s: &String) -> (r: String)
    ensures
        r@ == s@,
{
    s.clone()
}

/// Feeding the same qualifying event twice records exactly one trip: after
/// the event is handled once, handling it again leaves the recorder
/// unchanged, because a captured trip identifier lands in the seen set.
pub proof fn lemma_recorder_dedup(
    v: RecorderView,
    time: Time,
    ev: Event,
    map: RoadNetwork,
    routing: RoutingSnapshot,
)
    ensures
        ({
            let v1 = spec_handle(v, time, ev, map, routing);
            let v2 = spec_handle(v1, time, ev, map, routing);
            &&& v2 == v1
            &&& v1.trips.len() <= v.trips.len() + 1
        }),
{
    let v1 = spec_handle(v, time, ev, map, routing);
    match spec_capture(v, time, ev, map, routing) {
        Some((trip, it)) => {
            assert(v1.seen.contains(trip)) by {
                assert(v1.seen[v.seen.len() as int] == trip);
            }
            assert(spec_capture(v1, time, ev, map, routing) is None);
        },
        None => {
        },
    }
}

/// The boundary condition of the recorder: for a car entering on behalf of
/// an unseen trip at a lane whose source is a boundary intersection, a trip
/// is recorded exactly when the car's path later turns through a boundary
/// intersection, and its destination is the first such intersection along
/// the path, not the last.
pub proof fn lemma_recorder_boundary(
    v: RecorderView,
    time: Time,
    car: CarID,
    trip: TripID,
    l: LaneID,
    map: RoadNetwork,
    routing: RoutingSnapshot,
)
    requires
        !v.seen.contains(trip),
        spec_get_lane(map.lanes@, l) is Some,
        v.capture.contains(spec_get_lane(map.lanes@, l)->Some_0.src_i),
        spec_get_path(routing.paths@, car) is Some,
    ensures
        ({
            let ev = Event::AgentEntersTraversable(
                AgentID::Car(car),
                Some(trip),
                Traversable::Lane(l),
            );
            let v1 = spec_handle(v, time, ev, map, routing);
            let steps = spec_get_path(routing.paths@, car)->Some_0;
            match first_border_exit(steps, v.capture) {
                None => {
                    // The path never re-touches the boundary: nothing is recorded.
                    &&& v1 == v
                    &&& forall|j: int|
                        0 <= j < steps.len() ==> !is_border_turn(#[trigger] steps[j], v.capture)
                },
                Some(exit) => {
                    // Exactly one trip is recorded, bound for the first
                    // boundary turn along the path.
                    &&& v1.trips == v.trips.push(recorded_trip(time, l, exit, car.vehicle_type))
                    &&& v1.seen == v.seen.push(trip)
                    &&& exists|k: int|
                        {
                            &&& 0 <= k < steps.len()
                            &&& #[trigger] steps[k] matches PathStep::Turn(t) && t.parent == exit
                            &&& v.capture.contains(exit)
                            &&& forall|j: int| 0 <= j < k ==> !is_border_turn(#[trigger] steps[j], v.capture)
                        }
                },
            }
        }),
{
    let steps = spec_get_path(routing.paths@, car)->Some_0;
    lemma_first_border_exit_position(steps, v.capture);
}

/// What `first_border_exit` means position by position: `None` exactly when
/// no step is a boundary turn, and `Some(exit)` exactly when some boundary
/// turn occurs and the first one has parent `exit`.
pub proof fn lemma_first_border_exit_position(steps: Seq<PathStep>, capture: Seq<IntersectionID>)
    ensures
        match first_border_exit(steps, capture) {
            None => forall|j: int|
                0 <= j < steps.len() ==> !is_border_turn(#[trigger] steps[j], capture),
            Some(exit) => exists|k: int|
                {
                    &&& 0 <= k < steps.len()
                    &&& #[trigger] steps[k] matches PathStep::Turn(t) && t.parent == exit
                    &&& capture.contains(exit)
                    &&& forall|j: int| 0 <= j < k ==> !is_border_turn(#[trigger] steps[j], capture)
                },
        },
    decreases steps.len(),
{
    if steps.len() == 0 {
    } else {
        match steps[0] {
            PathStep::Turn(t) => {
                if capture.contains(t.parent) {
                    assert(steps[0] matches PathStep::Turn(t0) && t0.parent == t.parent);
                } else {
                    lemma_first_border_exit_position(steps.drop_first(), capture);
                    lemma_first_border_exit_shift(steps, capture);
                }
            },
            PathStep::Lane(_) => {
                lemma_first_border_exit_position(steps.drop_first(), capture);
                lemma_first_border_exit_shift(steps, capture);
            },
        }
    }
}

/// Transfers the position facts across the one-step unfolding of
/// `first_border_exit`.
proof fn lemma_first_border_exit_shift(steps: Seq<PathStep>, capture: Seq<IntersectionID>)
    requires
        steps.len() > 0,
        !is_border_turn(steps[0], capture),
        match first_border_exit(steps.drop_first(), capture) {
            None => forall|j: int|
                0 <= j < steps.drop_first().len() ==> !is_border_turn(
                    #[trigger] steps.drop_first()[j],
                    capture,
                ),
            Some(exit) => exists|k: int|
                {
                    &&& 0 <= k < steps.drop_first().len()
                    &&& #[trigger] steps.drop_first()[k] matches PathStep::Turn(t) && t.parent
                        == exit
                    &&& capture.contains(exit)
                    &&& forall|j: int|
                        0 <= j < k ==> !is_border_turn(#[trigger] steps.drop_first()[j], capture)
                },
        },
    ensures
        match first_border_exit(steps, capture) {
            None => forall|j: int|
                0 <= j < steps.len() ==> !is_border_turn(#[trigger] steps[j], capture),
            Some(exit) => exists|k: int|
                {
                    &&& 0 <= k < steps.len()
                    &&& #[trigger] steps[k] matches PathStep::Turn(t) && t.parent == exit
                    &&& capture.contains(exit)
                    &&& forall|j: int| 0 <= j < k ==> !is_border_turn(#[trigger] steps[j], capture)
                },
        },
{
    let rest = steps.drop_first();
    assert(first_border_exit(steps, capture) == first_border_exit(rest, capture));
    match first_border_exit(rest, capture) {
        None => {
            assert forall|j: int| 0 <= j < steps.len() implies !is_border_turn(
                #[trigger] steps[j],
                capture,
            ) by {
                if j > 0 {
                    assert(steps[j] == rest[j - 1]);
                }
            }
        },
        Some(exit) => {
            let k = choose|k: int|
                {
                    &&& 0 <= k < rest.len()
                    &&& #[trigger] rest[k] matches PathStep::Turn(t) && t.parent == exit
                    &&& capture.contains(exit)
                    &&& forall|j: int| 0 <= j < k ==> !is_border_turn(#[trigger] rest[j], capture)
                };
            assert(steps[k + 1] == rest[k]);
            assert forall|j: int| 0 <= j < k + 1 implies !is_border_turn(
                #[trigger] steps[j],
                capture,
            ) by {
                if j > 0 {
                    assert(steps[j] == rest[j - 1]);
                }
            }
            assert({
                &&& 0 <= k + 1 < steps.len()
                &&& steps[k + 1] matches PathStep::Turn(t) && t.parent == exit
                &&& capture.contains(exit)
                &&& forall|j: int| 0 <= j < k + 1 ==> !is_border_turn(#[trigger] steps[j], capture)
            });
        },
    }
}

} // verus!
