use tripflow::codec::{decode_catalog, encode_catalog};
use tripflow::ids::{BuildingID, IntersectionID, LaneID};
use tripflow::scenario::{
    IndividTrip, MapName, PersonSpec, Position, ScenarioCatalog, TripEndpoint, TripMode,
    TripPurpose,
};
use tripflow::time::Time;

fn sample_catalog() -> ScenarioCatalog {
    ScenarioCatalog {
        scenario_name: "weekday".to_string(),
        map_name: MapName { city: "seattle".to_string(), map: "montlake".to_string() },
        people: vec![
            PersonSpec {
                orig_id: Some(42),
                trips: vec![
                    IndividTrip::new(
                        Time::seconds(7 * 3600),
                        TripPurpose::Work,
                        TripEndpoint::Bldg(BuildingID(3)),
                        TripEndpoint::Border(IntersectionID(9)),
                        TripMode::Drive,
                    ),
                    IndividTrip::new(
                        Time::seconds(17 * 3600),
                        TripPurpose::Home,
                        TripEndpoint::Border(IntersectionID(9)),
                        TripEndpoint::Bldg(BuildingID(3)),
                        TripMode::Transit,
                    ),
                ],
            },
            PersonSpec {
                orig_id: None,
                trips: vec![IndividTrip::new(
                    Time::seconds(12 * 3600),
                    TripPurpose::Shopping,
                    TripEndpoint::SuddenlyAppear(Position { lane: LaneID(4), dist_cm: 250 }),
                    TripEndpoint::Border(IntersectionID(2)),
                    TripMode::Bike,
                )],
            },
            PersonSpec { orig_id: None, trips: vec![] },
        ],
    }
}

#[test]
fn round_trip_preserves_everything() {
    let c = sample_catalog();
    let bytes = encode_catalog(&c);
    let back = decode_catalog(&bytes).unwrap();
    assert_eq!(back, c);
}

#[test]
fn round_trip_of_an_empty_catalog() {
    let c = ScenarioCatalog {
        scenario_name: String::new(),
        map_name: MapName { city: String::new(), map: String::new() },
        people: vec![],
    };
    let bytes = encode_catalog(&c);
    let back = decode_catalog(&bytes).unwrap();
    assert_eq!(back, c);
}

#[test]
fn truncated_bytes_fail_to_decode() {
    let c = sample_catalog();
    let mut bytes = encode_catalog(&c);
    bytes.pop();
    assert!(decode_catalog(&bytes).is_none());
}

#[test]
fn trailing_bytes_fail_to_decode() {
    let c = sample_catalog();
    let mut bytes = encode_catalog(&c);
    bytes.push(0);
    assert!(decode_catalog(&bytes).is_none());
}

#[test]
fn garbage_fails_to_decode() {
    let bytes = vec![255u8; 40];
    assert!(decode_catalog(&bytes).is_none());
}

#[test]
fn empty_input_fails_to_decode() {
    assert!(decode_catalog(&Vec::new()).is_none());
}
