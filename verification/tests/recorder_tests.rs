use tripflow::events::{Event, PathStep, Traversable};
use tripflow::ids::{AgentID, CarID, IntersectionID, LaneID, TripID, TurnID, VehicleType};
use tripflow::network::{AgentPath, Lane, RoadNetwork, RoutingSnapshot};
use tripflow::recorder::TrafficRecorder;
use tripflow::scenario::{MapName, TripEndpoint, TripMode};
use tripflow::time::Time;

fn map_with_lanes(lanes: Vec<Lane>) -> RoadNetwork {
    RoadNetwork {
        name: MapName { city: "seattle".to_string(), map: "montlake".to_string() },
        lanes,
        roads: vec![],
        intersections: vec![],
    }
}

fn turn(parent: u64) -> PathStep {
    PathStep::Turn(TurnID { parent: IntersectionID(parent), src: LaneID(0), dst: LaneID(0) })
}

fn enter_event(car: CarID, trip: u64, lane: u64) -> Event {
    Event::AgentEntersTraversable(
        AgentID::Car(car),
        Some(TripID(trip)),
        Traversable::Lane(LaneID(lane)),
    )
}

#[test]
fn duplicate_events_record_one_trip() {
    let car = CarID { id: 1, vehicle_type: VehicleType::Car };
    let map = map_with_lanes(vec![Lane { id: LaneID(5), src_i: IntersectionID(10) }]);
    let routing = RoutingSnapshot {
        paths: vec![AgentPath { car, steps: vec![PathStep::Lane(LaneID(5)), turn(20)] }],
    };
    let mut rec = TrafficRecorder::new(vec![IntersectionID(10), IntersectionID(20)]);
    let ev = enter_event(car, 77, 5);
    rec.handle_event(Time::seconds(30), &ev, &map, &routing);
    assert_eq!(rec.num_recorded_trips(), 1);
    rec.handle_event(Time::seconds(31), &ev, &map, &routing);
    assert_eq!(rec.num_recorded_trips(), 1);
}

#[test]
fn path_that_never_returns_to_boundary_records_nothing() {
    let car = CarID { id: 2, vehicle_type: VehicleType::Car };
    let map = map_with_lanes(vec![Lane { id: LaneID(5), src_i: IntersectionID(10) }]);
    let routing = RoutingSnapshot {
        paths: vec![AgentPath {
            car,
            steps: vec![PathStep::Lane(LaneID(5)), turn(99), PathStep::Lane(LaneID(6))],
        }],
    };
    let mut rec = TrafficRecorder::new(vec![IntersectionID(10), IntersectionID(20)]);
    rec.handle_event(Time::seconds(1), &enter_event(car, 1, 5), &map, &routing);
    assert_eq!(rec.num_recorded_trips(), 0);
}

#[test]
fn destination_is_the_first_boundary_along_the_path() {
    let car = CarID { id: 3, vehicle_type: VehicleType::Car };
    let map = map_with_lanes(vec![Lane { id: LaneID(5), src_i: IntersectionID(10) }]);
    let routing = RoutingSnapshot {
        paths: vec![AgentPath {
            car,
            // Crosses boundary 20 first, then boundary 30.
            steps: vec![turn(99), turn(20), turn(30)],
        }],
    };
    let capture = vec![IntersectionID(10), IntersectionID(20), IntersectionID(30)];
    let mut rec = TrafficRecorder::new(capture);
    rec.handle_event(Time::seconds(12), &enter_event(car, 4, 5), &map, &routing);
    assert_eq!(rec.num_recorded_trips(), 1);
    let catalog = rec.save(&map);
    assert_eq!(catalog.scenario_name, "recorded");
    assert_eq!(catalog.map_name.city, "seattle");
    assert_eq!(catalog.people.len(), 1);
    let t = &catalog.people[0].trips[0];
    assert_eq!(t.destination, TripEndpoint::Border(IntersectionID(20)));
    assert_eq!(t.depart, Time::seconds(12));
    assert_eq!(t.mode, TripMode::Drive);
}

#[test]
fn bikes_record_bike_trips() {
    let car = CarID { id: 4, vehicle_type: VehicleType::Bike };
    let map = map_with_lanes(vec![Lane { id: LaneID(5), src_i: IntersectionID(10) }]);
    let routing = RoutingSnapshot { paths: vec![AgentPath { car, steps: vec![turn(20)] }] };
    let mut rec = TrafficRecorder::new(vec![IntersectionID(10), IntersectionID(20)]);
    rec.handle_event(Time::seconds(2), &enter_event(car, 9, 5), &map, &routing);
    let catalog = rec.save(&map);
    assert_eq!(catalog.people[0].trips[0].mode, TripMode::Bike);
}

#[test]
fn entries_away_from_the_boundary_are_ignored() {
    let car = CarID { id: 5, vehicle_type: VehicleType::Car };
    // Lane 5 leads away from intersection 99, not a capture point.
    let map = map_with_lanes(vec![Lane { id: LaneID(5), src_i: IntersectionID(99) }]);
    let routing = RoutingSnapshot { paths: vec![AgentPath { car, steps: vec![turn(20)] }] };
    let mut rec = TrafficRecorder::new(vec![IntersectionID(10), IntersectionID(20)]);
    rec.handle_event(Time::seconds(2), &enter_event(car, 9, 5), &map, &routing);
    assert_eq!(rec.num_recorded_trips(), 0);
}

#[test]
fn events_without_a_path_are_skipped() {
    let car = CarID { id: 6, vehicle_type: VehicleType::Car };
    let map = map_with_lanes(vec![Lane { id: LaneID(5), src_i: IntersectionID(10) }]);
    // The routing collaborator no longer tracks this car.
    let routing = RoutingSnapshot { paths: vec![] };
    let mut rec = TrafficRecorder::new(vec![IntersectionID(10), IntersectionID(20)]);
    rec.handle_event(Time::seconds(2), &enter_event(car, 9, 5), &map, &routing);
    assert_eq!(rec.num_recorded_trips(), 0);
}

#[test]
fn pedestrians_and_other_events_are_ignored() {
    let map = map_with_lanes(vec![Lane { id: LaneID(5), src_i: IntersectionID(10) }]);
    let routing = RoutingSnapshot { paths: vec![] };
    let mut rec = TrafficRecorder::new(vec![IntersectionID(10)]);
    rec.handle_event(
        Time::seconds(2),
        &Event::AgentEntersTraversable(
            AgentID::Pedestrian(tripflow::ids::PedestrianID(1)),
            Some(TripID(1)),
            Traversable::Lane(LaneID(5)),
        ),
        &map,
        &routing,
    );
    rec.handle_event(Time::seconds(3), &Event::TripStarted(TripID(1)), &map, &routing);
    rec.handle_event(Time::seconds(4), &Event::TripFinished(TripID(1)), &map, &routing);
    rec.handle_event(Time::seconds(5), &Event::TripCancelled(TripID(1)), &map, &routing);
    assert_eq!(rec.num_recorded_trips(), 0);
}
