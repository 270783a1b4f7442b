use tripflow::modifier::ModeSet;
use tripflow::scenario::TripMode;

#[test]
fn all_modes_in_a_fixed_order() {
    assert_eq!(
        TripMode::all(),
        vec![TripMode::Walk, TripMode::Bike, TripMode::Transit, TripMode::Drive]
    );
}

#[test]
fn modes_have_ongoing_verbs() {
    assert_eq!(TripMode::Walk.ongoing_verb(), "walking");
    assert_eq!(TripMode::Bike.ongoing_verb(), "biking");
    assert_eq!(TripMode::Transit.ongoing_verb(), "using transit");
    assert_eq!(TripMode::Drive.ongoing_verb(), "driving");
}

#[test]
fn mode_sets_build_up_and_down() {
    let s = ModeSet::empty();
    assert!(s.is_empty());
    let s = s.insert(TripMode::Drive).insert(TripMode::Bike);
    assert!(s.contains(TripMode::Drive));
    assert!(s.contains(TripMode::Bike));
    assert!(!s.contains(TripMode::Walk));
    let s = s.remove(TripMode::Drive);
    assert!(!s.contains(TripMode::Drive));
    assert!(s.contains(TripMode::Bike));
    assert!(!s.is_empty());
}
