use tripflow::ids::{BuildingID, IntersectionID};
use tripflow::scenario::{
    IndividTrip, MapName, PersonSpec, ScenarioCatalog, TripEndpoint, TripMode, TripPurpose,
};
use tripflow::series::{departure_series, first_departure};
use tripflow::time::{Duration, Time};

fn trip(depart: u64) -> IndividTrip {
    IndividTrip::new(
        Time::seconds(depart),
        TripPurpose::Work,
        TripEndpoint::Bldg(BuildingID(1)),
        TripEndpoint::Border(IntersectionID(2)),
        TripMode::Drive,
    )
}

fn catalog(people: Vec<PersonSpec>) -> ScenarioCatalog {
    ScenarioCatalog {
        scenario_name: "weekday".to_string(),
        map_name: MapName { city: "seattle".to_string(), map: "montlake".to_string() },
        people,
    }
}

#[test]
fn series_counts_departures_in_the_window() {
    // Departures at 0, 5, 10 and 20 minutes, window 15 minutes, spread
    // over two people and deliberately out of order.
    let c = catalog(vec![
        PersonSpec { orig_id: None, trips: vec![trip(20 * 60), trip(0)] },
        PersonSpec { orig_id: None, trips: vec![trip(10 * 60), trip(5 * 60)] },
    ]);
    let pts = departure_series(&c, Duration::minutes(15), Time::seconds(86400));
    assert_eq!(pts[0], (Time::seconds(0), 0));
    assert_eq!(pts[1], (Time::seconds(0), 1));
    assert_eq!(pts[2], (Time::seconds(5 * 60), 2));
    assert_eq!(pts[3], (Time::seconds(10 * 60), 3));
    assert_eq!(pts[4], (Time::seconds(20 * 60), 3));
    // The tail decays to zero by the end of the day.
    assert_eq!(pts.last().unwrap().0, Time::seconds(86400));
    assert_eq!(pts.last().unwrap().1, 0);
}

#[test]
fn series_of_an_empty_catalog() {
    let c = catalog(vec![]);
    let pts = departure_series(&c, Duration::minutes(15), Time::seconds(86400));
    assert_eq!(pts, vec![(Time::seconds(0), 0), (Time::seconds(86400), 0)]);
}

#[test]
fn first_departure_is_the_minimum() {
    let c = catalog(vec![
        PersonSpec { orig_id: None, trips: vec![trip(500), trip(90)] },
        PersonSpec { orig_id: None, trips: vec![trip(200)] },
    ]);
    assert_eq!(first_departure(&c), Some(Time::seconds(90)));
    assert_eq!(first_departure(&catalog(vec![])), None);
}
