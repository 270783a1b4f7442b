//! The scenario catalog: people and the trips they plan to take.

use vstd::prelude::*;

use crate::ids::{BuildingID, IntersectionID, LaneID};
use crate::time::Time;

verus! {

/// How a trip is taken.
#[derive(Clone, Copy, Debug, PartialEq, Eq, Structural)]
pub enum TripMode {
    Walk,
    Bike,
    Transit,
    Drive,
}

impl TripMode {
    /// Every mode, in a fixed order.
    pub fn all() -> (r: Vec<TripMode>)
        ensures
            r@ == seq![TripMode::Walk, TripMode::Bike, TripMode::Transit, TripMode::Drive],
    {
        let mut v: Vec<TripMode> = Vec::new();
        v.push(TripMode::Walk);
        v.push(TripMode::Bike);
        v.push(TripMode::Transit);
        v.push(TripMode::Drive);
        proof {
            assert(v@ =~= seq![
                TripMode::Walk,
                TripMode::Bike,
                TripMode::Transit,
                TripMode::Drive,
            ]);
        }
        v
    }
}

impl TripMode {
    /// The label a mode checkbox carries: the mode as an ongoing verb.
    pub fn ongoing_verb(self) -> (r: &'static str)
        ensures
            r@ == self.spec_ongoing_verb(),
    {
        match self {
            TripMode::Walk => "walking",
            TripMode::Bike => "biking",
            TripMode::Transit => "using transit",
            TripMode::Drive => "driving",
        }
    }

    pub open spec fn spec_ongoing_verb(self) -> Seq<char> {
        match self {
            TripMode::Walk => "walking"@,
            TripMode::Bike => "biking"@,
            TripMode::Transit => "using transit"@,
            TripMode::Drive => "driving"@,
        }
    }
}

/// Why a trip is taken.
#[derive(Clone, Copy, Debug, PartialEq, Eq, Structural)]
pub enum TripPurpose {
    Home,
    Work,
    School,
    Escort,
    PersonalBusiness,
    Shopping,
    Meal,
    Social,
    Recreation,
    Medical,
}

/// A point along a lane, with the distance from its start in centimeters.
#[derive(Clone, Copy, Debug, PartialEq, Eq, Structural)]
pub struct Position {
    pub lane: LaneID,
    pub dist_cm: u64,
}

impl Position {
    /// The very start of a lane.
    pub fn start(lane: LaneID) -> (p: Position)
        ensures
            p == (Position { lane, dist_cm: 0 }),
    {
        Position { lane, dist_cm: 0 }
    }
}

/// Where a trip begins or ends.
#[derive(Clone, Copy, Debug, PartialEq, Eq, Structural)]
pub enum TripEndpoint {
    /// A building on the map.
    Bldg(BuildingID),
    /// An intersection on the map boundary.
    Border(IntersectionID),
    /// An agent that materializes at an exact position on a lane.
    SuddenlyAppear(Position),
}

/// One planned trip.
#[derive(Clone, Copy, Debug, PartialEq, Eq, Structural)]
pub struct IndividTrip {
    pub depart: Time,
    pub purpose: TripPurpose,
    pub origin: TripEndpoint,
    pub destination: TripEndpoint,
    pub mode: TripMode,
}

impl IndividTrip {
    pub fn new(
        depart: Time,
        purpose: TripPurpose,
        origin: TripEndpoint,
        destination: TripEndpoint,
        mode: TripMode,
    ) -> (t: IndividTrip)
        ensures
            t == (IndividTrip { depart, purpose, origin, destination, mode }),
    {
        IndividTrip { depart, purpose, origin, destination, mode }
    }
}

/// A simulated person: an optional external identity and an ordered trip list.
#[derive(Clone, Debug, PartialEq, Eq)]
pub struct PersonSpec {
    pub orig_id: Option<u64>,
    pub trips: Vec<IndividTrip>,
}

/// Names one map: the city it belongs to and the map within the city.
#[derive(Clone, Debug, PartialEq, Eq)]
pub struct MapName {
    pub city: String,
    pub map: String,
}

/// A named, complete set of people and trips for one map. Modifications
/// never happen in place: each transformation yields a new catalog.
#[derive(Clone, Debug, PartialEq, Eq)]
pub struct ScenarioCatalog {
    pub scenario_name: String,
    pub map_name: MapName,
    pub people: Vec<PersonSpec>,
}

/// The mathematical content of a person: identity and trip sequence.
pub struct PersonView {
    pub orig_id: Option<u64>,
    pub trips: Seq<IndividTrip>,
}

/// The mathematical content of a catalog: its names and its people in order.
pub struct CatalogView {
    pub scenario_name: Seq<char>,
    pub city: Seq<char>,
    pub map: Seq<char>,
    pub people: Seq<PersonView>,
}

impl View for PersonSpec {
    type V = PersonView;

    open spec fn view(&self) -> PersonView {
        PersonView { orig_id: self.orig_id, trips: self.trips@ }
    }
}

impl View for ScenarioCatalog {
    type V = CatalogView;

    open spec fn view(&self) -> CatalogView {
        CatalogView {
            scenario_name: self.scenario_name@,
            city: self.map_name.city@,
            map: self.map_name.map@,
            people: self.people@.map_values(|p: PersonSpec| p@),
        }
    }
}

} // verus!
