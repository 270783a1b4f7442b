use tripflow::ids::{BuildingID, IntersectionID};
use tripflow::modifier::{apply, apply_one, new_change_mode, ModeSet, ModifierError,
    ScenarioModifier};
use tripflow::scenario::{
    IndividTrip, MapName, PersonSpec, ScenarioCatalog, TripEndpoint, TripMode, TripPurpose,
};
use tripflow::time::Time;

fn trip(depart: u64, mode: TripMode) -> IndividTrip {
    IndividTrip::new(
        Time::seconds(depart),
        TripPurpose::Shopping,
        TripEndpoint::Bldg(BuildingID(1)),
        TripEndpoint::Border(IntersectionID(2)),
        mode,
    )
}

fn catalog(people: Vec<PersonSpec>) -> ScenarioCatalog {
    ScenarioCatalog {
        scenario_name: "base".to_string(),
        map_name: MapName { city: "seattle".to_string(), map: "montlake".to_string() },
        people,
    }
}

fn person(trips: Vec<IndividTrip>) -> PersonSpec {
    PersonSpec { orig_id: None, trips }
}

fn all_modes() -> ModeSet {
    ModeSet { walk: true, bike: true, transit: true, drive: true }
}

fn drive_to_bike(t1: u64, t2: u64, pct: u64) -> ScenarioModifier {
    ScenarioModifier::ChangeMode {
        to_mode: Some(TripMode::Bike),
        pct_ppl: pct,
        depart_from: Time::seconds(t1),
        depart_to: Time::seconds(t2),
        from_modes: ModeSet { walk: false, bike: false, transit: false, drive: true },
    }
}

#[test]
fn change_mode_converts_matching_trips() {
    let base = catalog(vec![person(vec![trip(100, TripMode::Drive), trip(900, TripMode::Drive)])]);
    let out = apply(base, &vec![drive_to_bike(0, 500, 100)], &vec![]).unwrap();
    assert_eq!(out.people[0].trips[0].mode, TripMode::Bike);
    // Outside the departure filter: untouched.
    assert_eq!(out.people[0].trips[1].mode, TripMode::Drive);
}

#[test]
fn change_mode_with_none_cancels_trips() {
    let base = catalog(vec![person(vec![trip(100, TripMode::Drive), trip(900, TripMode::Walk)])]);
    let modifier = ScenarioModifier::ChangeMode {
        to_mode: None,
        pct_ppl: 100,
        depart_from: Time::seconds(0),
        depart_to: Time::seconds(500),
        from_modes: ModeSet { walk: false, bike: false, transit: false, drive: true },
    };
    let out = apply(base, &vec![modifier], &vec![]).unwrap();
    // The matching trip disappears; the person and the other trip stay.
    assert_eq!(out.people.len(), 1);
    assert_eq!(out.people[0].trips.len(), 1);
    assert_eq!(out.people[0].trips[0].mode, TripMode::Walk);
}

#[test]
fn change_mode_selects_the_first_share_of_matching_people() {
    let base = catalog(vec![
        person(vec![trip(10, TripMode::Drive)]),
        person(vec![trip(20, TripMode::Drive)]),
        person(vec![trip(30, TripMode::Drive)]),
        person(vec![trip(40, TripMode::Drive)]),
    ]);
    // 50% of 4 matching people: the first 2 convert.
    let out = apply(base, &vec![drive_to_bike(0, 100, 50)], &vec![]).unwrap();
    assert_eq!(out.people[0].trips[0].mode, TripMode::Bike);
    assert_eq!(out.people[1].trips[0].mode, TripMode::Bike);
    assert_eq!(out.people[2].trips[0].mode, TripMode::Drive);
    assert_eq!(out.people[3].trips[0].mode, TripMode::Drive);
}

#[test]
fn repeat_days_copies_trips_day_by_day() {
    let base = catalog(vec![person(vec![trip(10, TripMode::Walk), trip(20, TripMode::Drive)])]);
    let out = apply(base, &vec![ScenarioModifier::RepeatDays(2)], &vec![]).unwrap();
    let trips = &out.people[0].trips;
    assert_eq!(trips.len(), 4);
    assert_eq!(trips[0].depart, Time::seconds(10));
    assert_eq!(trips[1].depart, Time::seconds(20));
    assert_eq!(trips[2].depart, Time::seconds(10 + 86400));
    assert_eq!(trips[3].depart, Time::seconds(20 + 86400));
    assert_eq!(trips[2].mode, TripMode::Walk);
    assert_eq!(trips[3].mode, TripMode::Drive);
}

#[test]
fn repeat_days_past_the_clock_is_an_error() {
    let base = catalog(vec![person(vec![trip(u64::MAX - 10, TripMode::Walk)])]);
    let r = apply(base, &vec![ScenarioModifier::RepeatDays(2)], &vec![]);
    assert_eq!(r.unwrap_err(), ModifierError::DepartureOverflow);
}

#[test]
fn add_extra_trips_merges_people_in_order() {
    let base = catalog(vec![person(vec![trip(10, TripMode::Walk)])]);
    let mut extra = catalog(vec![
        PersonSpec { orig_id: Some(5), trips: vec![trip(99, TripMode::Bike)] },
    ]);
    extra.scenario_name = "other".to_string();
    let out = apply(
        base,
        &vec![ScenarioModifier::AddExtraTrips("other".to_string())],
        &vec![extra],
    )
    .unwrap();
    assert_eq!(out.people.len(), 2);
    assert_eq!(out.people[0].trips[0].mode, TripMode::Walk);
    assert_eq!(out.people[1].orig_id, Some(5));
    assert_eq!(out.people[1].trips[0].depart, Time::seconds(99));
}

#[test]
fn add_extra_trips_with_unknown_source_is_an_error() {
    let base = catalog(vec![]);
    let r = apply(
        base,
        &vec![ScenarioModifier::AddExtraTrips("missing".to_string())],
        &vec![],
    );
    assert_eq!(r.unwrap_err(), ModifierError::UnknownScenario);
}

#[test]
fn empty_mode_selection_is_an_error() {
    let base = catalog(vec![]);
    let modifier = ScenarioModifier::ChangeMode {
        to_mode: Some(TripMode::Bike),
        pct_ppl: 50,
        depart_from: Time::seconds(0),
        depart_to: Time::seconds(10),
        from_modes: ModeSet { walk: false, bike: false, transit: false, drive: false },
    };
    let r = apply_one(base, &modifier, &vec![]);
    assert_eq!(r.unwrap_err(), ModifierError::NoModesSelected);
}

#[test]
fn backwards_time_range_is_an_error() {
    let base = catalog(vec![]);
    let r = apply_one(base, &drive_to_bike(10, 10, 50), &vec![]);
    assert_eq!(r.unwrap_err(), ModifierError::BackwardsTimeRange);
}

#[test]
fn out_of_range_percentage_is_an_error() {
    let base = catalog(vec![]);
    let r = apply_one(base, &drive_to_bike(0, 10, 101), &vec![]);
    assert_eq!(r.unwrap_err(), ModifierError::InvalidPercentage);
}

#[test]
fn error_descriptions_are_readable() {
    assert_eq!(
        ModifierError::BackwardsTimeRange.describe(),
        "Your time range is backwards"
    );
}

#[test]
fn new_change_mode_removes_the_target_mode_and_validates() {
    let r = new_change_mode(
        all_modes(),
        Some(TripMode::Bike),
        50,
        Time::seconds(0),
        Time::seconds(100),
    )
    .unwrap();
    match r {
        ScenarioModifier::ChangeMode { from_modes, .. } => {
            assert!(!from_modes.bike);
            assert!(from_modes.drive && from_modes.walk && from_modes.transit);
        }
        _ => panic!("expected a mode change"),
    }
    let only_bike = ModeSet { walk: false, bike: true, transit: false, drive: false };
    let e = new_change_mode(
        only_bike,
        Some(TripMode::Bike),
        50,
        Time::seconds(0),
        Time::seconds(100),
    );
    assert_eq!(e.unwrap_err(), ModifierError::NoModesSelected);
}

#[test]
fn applying_the_same_pipeline_twice_gives_identical_catalogs() {
    let base = catalog(vec![
        person(vec![trip(10, TripMode::Drive), trip(50_000, TripMode::Walk)]),
        person(vec![trip(86_000, TripMode::Drive)]),
    ]);
    let mods = vec![ScenarioModifier::RepeatDays(2), drive_to_bike(0, 90_000, 50)];
    let once = apply(base.clone(), &mods, &vec![]).unwrap();
    let twice = apply(base, &mods, &vec![]).unwrap();
    assert_eq!(once, twice);
}

#[test]
fn modifier_order_can_change_the_result() {
    // One driver departing late in the day. Repeating days first doubles
    // the trip, and the mode filter's window then catches only the first
    // copy; converting first and repeating afterwards converts both.
    let base = catalog(vec![person(vec![trip(50_000, TripMode::Drive)])]);
    let repeat_then_change =
        vec![ScenarioModifier::RepeatDays(2), drive_to_bike(0, 86_400, 100)];
    let change_then_repeat =
        vec![drive_to_bike(0, 86_400, 100), ScenarioModifier::RepeatDays(2)];
    let a = apply(base.clone(), &repeat_then_change, &vec![]).unwrap();
    let b = apply(base, &change_then_repeat, &vec![]).unwrap();
    assert_ne!(a, b);
    assert_eq!(a.people[0].trips[1].mode, TripMode::Drive);
    assert_eq!(b.people[0].trips[1].mode, TripMode::Bike);
}
