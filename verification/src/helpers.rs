//! Small pieces of display logic around the core: object identifiers that
//! the pointer can select, color lookups, duration comparison text, map
//! display names, and amenity classification.

use vstd::prelude::*;
use vstd::string::StringExecFns;

use crate::ids::{AgentID, AgentType, AreaID, BuildingID, BusRouteID, BusStopID, CarID,
    IntersectionID, LaneID, ParkingLotID, PedestrianID, RoadID};
use crate::scenario::{MapName, TripMode};
use crate::strutil::{spec_digits, str_eq, u64_to_string};
use crate::text::{spec_text_fg_color, Color, TextSpan};
use crate::time::Duration;

verus! {

/// Anything on the map or in the simulation that can be selected.
#[derive(Clone, Debug, PartialEq, Eq)]
pub enum ID {
    Road(RoadID),
    Lane(LaneID),
    Intersection(IntersectionID),
    Building(BuildingID),
    ParkingLot(ParkingLotID),
    Car(CarID),
    Pedestrian(PedestrianID),
    PedCrowd(Vec<PedestrianID>),
    BusStop(BusStopID),
    Area(AreaID),
}

impl ID {
    /// The selectable object for a moving agent; a bus passenger selects
    /// the bus itself.
    pub fn from_agent(id: AgentID) -> (r: ID)
        ensures
            r == match id {
                AgentID::Car(c) => ID::Car(c),
                AgentID::Pedestrian(p) => ID::Pedestrian(p),
                AgentID::BusPassenger(_, bus) => ID::Car(bus),
            },
    {
        match id {
            AgentID::Car(c) => ID::Car(c),
            AgentID::Pedestrian(p) => ID::Pedestrian(p),
            AgentID::BusPassenger(_, bus) => ID::Car(bus),
        }
    }

    /// The single agent this selection refers to, if there is one. A
    /// pedestrian crowd maps to no single agent.
    pub fn agent_id(&self) -> (r: Option<AgentID>)
        ensures
            r == match *self {
                ID::Car(c) => Some(AgentID::Car(c)),
                ID::Pedestrian(p) => Some(AgentID::Pedestrian(p)),
                _ => None::<AgentID>,
            },
    {
        match self {
            ID::Car(c) => Some(AgentID::Car(*c)),
            ID::Pedestrian(p) => Some(AgentID::Pedestrian(*p)),
            _ => None,
        }
    }
}

/// The colors the display scheme assigns to kinds of traffic.
#[derive(Clone, Copy, Debug, PartialEq, Eq, Structural)]
pub struct ColorScheme {
    pub unzoomed_pedestrian: Color,
    pub unzoomed_bike: Color,
    pub unzoomed_bus: Color,
    pub unzoomed_car: Color,
    pub bus_trip: Color,
    pub bus_layer: Color,
    pub bike_trip: Color,
    pub parking_trip: Color,
}

/// The scheme color for a trip mode.
pub fn color_for_mode(cs: &ColorScheme, m: TripMode) -> (r: Color)
    ensures
        r == match m {
            TripMode::Walk => cs.unzoomed_pedestrian,
            TripMode::Bike => cs.unzoomed_bike,
            TripMode::Transit => cs.unzoomed_bus,
            TripMode::Drive => cs.unzoomed_car,
        },
{
    match m {
        TripMode::Walk => cs.unzoomed_pedestrian,
        TripMode::Bike => cs.unzoomed_bike,
        TripMode::Transit => cs.unzoomed_bus,
        TripMode::Drive => cs.unzoomed_car,
    }
}

/// The scheme color for an agent kind.
pub fn color_for_agent_type(cs: &ColorScheme, a: AgentType) -> (r: Color)
    ensures
        r == match a {
            AgentType::Pedestrian => cs.unzoomed_pedestrian,
            AgentType::Bike => cs.unzoomed_bike,
            AgentType::Bus => cs.unzoomed_bus,
            AgentType::Train => cs.unzoomed_bus,
            AgentType::TransitRider => cs.bus_trip,
            AgentType::Car => cs.unzoomed_car,
        },
{
    match a {
        AgentType::Pedestrian => cs.unzoomed_pedestrian,
        AgentType::Bike => cs.unzoomed_bike,
        AgentType::Bus | AgentType::Train => cs.unzoomed_bus,
        AgentType::TransitRider => cs.bus_trip,
        AgentType::Car => cs.unzoomed_car,
    }
}

/// What phase of its trip an agent is in.
#[derive(Clone, Copy, Debug, PartialEq, Eq, Structural)]
pub enum TripPhaseType {
    Driving,
    Walking,
    Biking,
    Parking,
    WaitingForBus(BusRouteID, BusStopID),
    RidingBus(BusRouteID, BusStopID, CarID),
    Cancelled,
    Finished,
    DelayedStart,
    Remote,
}

/// The scheme color for a trip phase. Cancelled and finished phases are
/// never drawn, so they are excluded up front.
pub fn color_for_trip_phase(cs: &ColorScheme, tpt: TripPhaseType) -> (r: Color)
    requires
        tpt != TripPhaseType::Cancelled,
        tpt != TripPhaseType::Finished,
    ensures
        r == match tpt {
            TripPhaseType::Driving => cs.unzoomed_car,
            TripPhaseType::Walking => cs.unzoomed_pedestrian,
            TripPhaseType::Biking => cs.bike_trip,
            TripPhaseType::Parking => cs.parking_trip,
            TripPhaseType::WaitingForBus(_, _) => cs.bus_layer,
            TripPhaseType::RidingBus(_, _, _) => cs.bus_trip,
            TripPhaseType::DelayedStart => (Color { r: 255, g: 255, b: 0, a: 255 }),
            TripPhaseType::Remote => (Color { r: 255, g: 192, b: 203, a: 255 }),
            _ => cs.unzoomed_car,
        },
{
    match tpt {
        TripPhaseType::Driving => cs.unzoomed_car,
        TripPhaseType::Walking => cs.unzoomed_pedestrian,
        TripPhaseType::Biking => cs.bike_trip,
        TripPhaseType::Parking => cs.parking_trip,
        TripPhaseType::WaitingForBus(_, _) => cs.bus_layer,
        TripPhaseType::RidingBus(_, _, _) => cs.bus_trip,
        TripPhaseType::Cancelled | TripPhaseType::Finished => Color::yellow(),
        TripPhaseType::DelayedStart => Color::yellow(),
        TripPhaseType::Remote => Color::pink(),
    }
}

/// A duration written as whole seconds, for display.
pub open spec fn spec_duration_text(d: Duration) -> Seq<char> {
    spec_digits(d.seconds as nat) + "s"@
}

/// Writes a duration as whole seconds.
pub fn duration_to_string(d: Duration) -> (r: String)
    ensures
        r@ == spec_duration_text(d),
{
    let s = u64_to_string(d.seconds);
    s.concat("s")
}

/// Compares two durations for display, shorter being better: "same" when
/// equal, otherwise the difference in green with " faster" or in red with
/// " slower".
pub fn cmp_duration_shorter(after: Duration, before: Duration) -> (r: Vec<TextSpan>)
    ensures
        after == before ==> {
            &&& r@.len() == 1
            &&& r@[0].text@ == "same"@
            &&& r@[0].fg_color == spec_text_fg_color()
            &&& r@[0].highlight_color is None
        },
        after.seconds < before.seconds ==> {
            &&& r@.len() == 2
            &&& r@[0].text@ == spec_duration_text(
                Duration { seconds: (before.seconds - after.seconds) as u64 },
            )
            &&& r@[0].fg_color == (Color { r: 0, g: 255, b: 0, a: 255 })
            &&& r@[1].text@ == " faster"@
            &&& r@[1].fg_color == spec_text_fg_color()
        },
        after.seconds > before.seconds ==> {
            &&& r@.len() == 2
            &&& r@[0].text@ == spec_duration_text(
                Duration { seconds: (after.seconds - before.seconds) as u64 },
            )
            &&& r@[0].fg_color == (Color { r: 255, g: 0, b: 0, a: 255 })
            &&& r@[1].text@ == " slower"@
            &&& r@[1].fg_color == spec_text_fg_color()
        },
{
    let mut r: Vec<TextSpan> = Vec::new();
    if after.seconds == before.seconds {
        r.push(TextSpan::default_style(String::from_str("same")));
    } else if after.seconds < before.seconds {
        let diff = Duration { seconds: before.seconds - after.seconds };
        r.push(
            TextSpan {
                text: duration_to_string(diff),
                fg_color: Color::green(),
                highlight_color: None,
            },
        );
        r.push(TextSpan::default_style(String::from_str(" faster")));
    } else {
        let diff = Duration { seconds: after.seconds - before.seconds };
        r.push(
            TextSpan {
                text: duration_to_string(diff),
                fg_color: Color::red(),
                highlight_color: None,
            },
        );
        r.push(TextSpan::default_style(String::from_str(" slower")));
    }
    r
}

/// The friendly display name of a map, where one is known.
pub open spec fn spec_nice_map_name(city: Seq<char>, map: Seq<char>) -> Seq<char> {
    if city == "seattle"@ {
        if map == "ballard"@ {
            "Ballard"@
        } else if map == "downtown"@ {
            "Downtown Seattle"@
        } else if map == "huge_seattle"@ {
            "Seattle (entire area)"@
        } else if map == "lakeslice"@ {
            "Lake Washington corridor"@
        } else if map == "montlake"@ {
            "Montlake and Eastlake"@
        } else if map == "south_seattle"@ {
            "South Seattle"@
        } else if map == "udistrict"@ {
            "University District"@
        } else if map == "west_seattle"@ {
            "West Seattle"@
        } else {
            map
        }
    } else if city == "berlin"@ && map == "center"@ {
        "Berlin (city center)"@
    } else if city == "krakow"@ && map == "center"@ {
        "Kraków (city center)"@
    } else if city == "leeds"@ && map == "center"@ {
        "Leeds (city center)"@
    } else if city == "london"@ && map == "southbank"@ {
        "London (Southbank)"@
    } else if city == "tel_aviv"@ && map == "center"@ {
        "Tel Aviv (city center)"@
    } else if city == "xian"@ && map == "center"@ {
        "Xi'an (city center)"@
    } else {
        map
    }
}

/// The friendly display name of a map, where one is known; otherwise the
/// raw map name.
pub fn nice_map_name<'a>(name: &'a MapName) -> (r: &'a str)
    ensures
        r@ == spec_nice_map_name(name.city@, name.map@),
{
    if str_eq(name.city.as_str(), "seattle") {
        if str_eq(name.map.as_str(), "ballard") {
            "Ballard"
        } else if str_eq(name.map.as_str(), "downtown") {
            "Downtown Seattle"
        } else if str_eq(name.map.as_str(), "huge_seattle") {
            "Seattle (entire area)"
        } else if str_eq(name.map.as_str(), "lakeslice") {
            "Lake Washington corridor"
        } else if str_eq(name.map.as_str(), "montlake") {
            "Montlake and Eastlake"
        } else if str_eq(name.map.as_str(), "south_seattle") {
            "South Seattle"
        } else if str_eq(name.map.as_str(), "udistrict") {
            "University District"
        } else if str_eq(name.map.as_str(), "west_seattle") {
            "West Seattle"
        } else {
            name.map.as_str()
        }
    } else if str_eq(name.city.as_str(), "berlin") && str_eq(name.map.as_str(), "center") {
        "Berlin (city center)"
    } else if str_eq(name.city.as_str(), "krakow") && str_eq(name.map.as_str(), "center") {
        "Kraków (city center)"
    } else if str_eq(name.city.as_str(), "leeds") && str_eq(name.map.as_str(), "center") {
        "Leeds (city center)"
    } else if str_eq(name.city.as_str(), "london") && str_eq(name.map.as_str(), "southbank") {
        "London (Southbank)"
    } else if str_eq(name.city.as_str(), "tel_aviv") && str_eq(name.map.as_str(), "center") {
        "Tel Aviv (city center)"
    } else if str_eq(name.city.as_str(), "xian") && str_eq(name.map.as_str(), "center") {
        "Xi'an (city center)"
    } else {
        name.map.as_str()
    }
}

/// The category an amenity tag falls under, if it is classified.
pub open spec fn spec_amenity_type(a: Seq<char>) -> Option<Seq<char>> {
    if a == "supermarket"@ || a == "convenience"@ {
        Some("groceries"@)
    } else if a == "restaurant"@ || a == "cafe"@ || a == "fast_food"@ || a == "food_court"@ || a
        == "ice_cream"@ || a == "pastry"@ || a == "deli"@ || a == "greengrocer"@ || a == "bakery"@
        || a == "butcher"@ || a == "confectionery"@ || a == "beverages"@ || a == "alcohol"@ {
        Some("food"@)
    } else if a == "pub"@ || a == "bar"@ || a == "nightclub"@ || a == "lounge"@ {
        Some("bar"@)
    } else if a == "doctors"@ || a == "dentist"@ || a == "clinic"@ || a == "hospital"@ || a
        == "pharmacy"@ || a == "chiropractor"@ || a == "optician"@ {
        Some("medical"@)
    } else if a == "place_of_worship"@ {
        Some("church / temple"@)
    } else if a == "college"@ || a == "school"@ || a == "university"@ {
        Some("education"@)
    } else if a == "bank"@ || a == "post_office"@ {
        Some("bank / post office"@)
    } else if a == "theatre"@ || a == "arts_centre"@ || a == "library"@ || a == "cinema"@ || a
        == "art_gallery"@ || a == "museum"@ {
        Some("culture"@)
    } else if a == "childcare"@ || a == "kindergarten"@ {
        Some("childcare"@)
    } else if a == "second_hand"@ || a == "clothes"@ || a == "furniture"@ || a == "shoes"@ || a
        == "department_store"@ || a == "car"@ || a == "kiosk"@ || a == "hardware"@ || a
        == "mobile_phone"@ || a == "florist"@ || a == "electronics"@ || a == "car_parts"@ || a
        == "doityourself"@ || a == "jewelry"@ || a == "variety_store"@ || a == "gift"@ || a
        == "bicycle"@ || a == "books"@ || a == "sports"@ || a == "travel_agency"@ || a
        == "stationery"@ || a == "pet"@ || a == "computer"@ || a == "tyres"@ || a == "newsagent"@ {
        Some("shopping"@)
    } else {
        None
    }
}

/// Classifies an amenity tag into a coarse category, where one applies.
#[verifier::rlimit(100)]
pub fn amenity_type(a: &str) -> (r: Option<&'static str>)
    ensures
        match r {
            Some(s) => spec_amenity_type(a@) == Some(s@),
            None => spec_amenity_type(a@) is None,
        },
{
    if str_eq(a, "supermarket") || str_eq(a, "convenience") {
        Some("groceries")
    } else if str_eq(a, "restaurant") || str_eq(a, "cafe") || str_eq(a, "fast_food") || str_eq(
        a,
        "food_court",
    ) || str_eq(a, "ice_cream") || str_eq(a, "pastry") || str_eq(a, "deli") || str_eq(
        a,
        "greengrocer",
    ) || str_eq(a, "bakery") || str_eq(a, "butcher") || str_eq(a, "confectionery") || str_eq(
        a,
        "beverages",
    ) || str_eq(a, "alcohol") {
        Some("food")
    } else if str_eq(a, "pub") || str_eq(a, "bar") || str_eq(a, "nightclub") || str_eq(
        a,
        "lounge",
    ) {
        Some("bar")
    } else if str_eq(a, "doctors") || str_eq(a, "dentist") || str_eq(a, "clinic") || str_eq(
        a,
        "hospital",
    ) || str_eq(a, "pharmacy") || str_eq(a, "chiropractor") || str_eq(a, "optician") {
        Some("medical")
    } else if str_eq(a, "place_of_worship") {
        Some("church / temple")
    } else if str_eq(a, "college") || str_eq(a, "school") || str_eq(a, "university") {
        Some("education")
    } else if str_eq(a, "bank") || str_eq(a, "post_office") {
        Some("bank / post office")
    } else if str_eq(a, "theatre") || str_eq(a, "arts_centre") || str_eq(a, "library") || str_eq(
        a,
        "cinema",
    ) || str_eq(a, "art_gallery") || str_eq(a, "museum") {
        Some("culture")
    } else if str_eq(a, "childcare") || str_eq(a, "kindergarten") {
        Some("childcare")
    } else if str_eq(a, "second_hand") || str_eq(a, "clothes") || str_eq(a, "furniture") || str_eq(
        a,
        "shoes",
    ) || str_eq(a, "department_store") || str_eq(a, "car") || str_eq(a, "kiosk") || str_eq(
        a,
        "hardware",
    ) || str_eq(a, "mobile_phone") || str_eq(a, "florist") || str_eq(a, "electronics") || str_eq(
        a,
        "car_parts",
    ) || str_eq(a, "doityourself") || str_eq(a, "jewelry") || str_eq(a, "variety_store") || str_eq(
        a,
        "gift",
    ) || str_eq(a, "bicycle") || str_eq(a, "books") || str_eq(a, "sports") || str_eq(
        a,
        "travel_agency",
    ) || str_eq(a, "stationery") || str_eq(a, "pet") || str_eq(a, "computer") || str_eq(
        a,
        "tyres",
    ) || str_eq(a, "newsagent") {
        Some("shopping")
    } else {
        None
    }
}

} // verus!
