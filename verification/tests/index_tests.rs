use tripflow::index::CountTrips;
use tripflow::modifier::{adjusted_count, ModeSet};
use tripflow::scenario::{
    IndividTrip, MapName, PersonSpec, ScenarioCatalog, TripEndpoint, TripMode, TripPurpose,
};
use tripflow::ids::{BuildingID, IntersectionID};
use tripflow::time::Time;

fn trip(depart: u64, mode: TripMode) -> IndividTrip {
    IndividTrip::new(
        Time::seconds(depart),
        TripPurpose::Work,
        TripEndpoint::Bldg(BuildingID(1)),
        TripEndpoint::Border(IntersectionID(2)),
        mode,
    )
}

fn catalog(people: Vec<PersonSpec>) -> ScenarioCatalog {
    ScenarioCatalog {
        scenario_name: "weekday".to_string(),
        map_name: MapName { city: "seattle".to_string(), map: "montlake".to_string() },
        people,
    }
}

#[test]
fn count_includes_ties_at_both_boundaries() {
    let c = catalog(vec![PersonSpec {
        orig_id: None,
        trips: vec![trip(5, TripMode::Drive), trip(5, TripMode::Drive), trip(10, TripMode::Drive)],
    }]);
    let idx = CountTrips::new(&c);
    assert_eq!(idx.count(TripMode::Drive, Time::seconds(5), Time::seconds(5)), 2);
    assert_eq!(idx.count(TripMode::Drive, Time::seconds(5), Time::seconds(10)), 3);
    assert_eq!(idx.count(TripMode::Drive, Time::seconds(11), Time::seconds(20)), 0);
}

#[test]
fn count_separates_modes() {
    let c = catalog(vec![
        PersonSpec { orig_id: Some(7), trips: vec![trip(100, TripMode::Walk)] },
        PersonSpec {
            orig_id: None,
            trips: vec![trip(200, TripMode::Bike), trip(300, TripMode::Walk)],
        },
    ]);
    let idx = CountTrips::new(&c);
    assert_eq!(idx.count(TripMode::Walk, Time::seconds(0), Time::seconds(1000)), 2);
    assert_eq!(idx.count(TripMode::Bike, Time::seconds(0), Time::seconds(1000)), 1);
    assert_eq!(idx.count(TripMode::Transit, Time::seconds(0), Time::seconds(1000)), 0);
    assert_eq!(idx.count(TripMode::Walk, Time::seconds(150), Time::seconds(250)), 0);
}

#[test]
fn count_handles_unsorted_input_and_inverted_range() {
    let c = catalog(vec![PersonSpec {
        orig_id: None,
        trips: vec![trip(30, TripMode::Drive), trip(10, TripMode::Drive), trip(20, TripMode::Drive)],
    }]);
    let idx = CountTrips::new(&c);
    assert_eq!(idx.count(TripMode::Drive, Time::seconds(10), Time::seconds(20)), 2);
    assert_eq!(idx.count(TripMode::Drive, Time::seconds(20), Time::seconds(10)), 0);
}

#[test]
fn matching_trips_sum_over_selected_modes() {
    let c = catalog(vec![PersonSpec {
        orig_id: None,
        trips: vec![
            trip(10, TripMode::Drive),
            trip(20, TripMode::Drive),
            trip(30, TripMode::Walk),
            trip(40, TripMode::Bike),
            trip(900, TripMode::Drive),
        ],
    }]);
    let idx = CountTrips::new(&c);
    let drive_and_walk = ModeSet { walk: true, bike: false, transit: false, drive: true };
    assert_eq!(
        idx.count_matching_trips(drive_and_walk, Time::seconds(0), Time::seconds(100)),
        3
    );
    let none = ModeSet { walk: false, bike: false, transit: false, drive: false };
    assert_eq!(idx.count_matching_trips(none, Time::seconds(0), Time::seconds(100)), 0);
}

#[test]
fn adjusted_counts_round_down() {
    assert_eq!(adjusted_count(3, 50), 1);
    assert_eq!(adjusted_count(4, 50), 2);
    assert_eq!(adjusted_count(10, 100), 10);
    assert_eq!(adjusted_count(99, 1), 0);
    assert_eq!(adjusted_count(0, 100), 0);
}

#[test]
fn count_empty_catalog() {
    let c = catalog(vec![]);
    let idx = CountTrips::new(&c);
    assert_eq!(idx.count(TripMode::Drive, Time::seconds(0), Time::seconds(u64::MAX)), 0);
}
