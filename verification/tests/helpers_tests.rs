use tripflow::helpers::{
    amenity_type, cmp_duration_shorter, color_for_agent_type, color_for_mode,
    color_for_trip_phase, duration_to_string, nice_map_name, ColorScheme, TripPhaseType, ID,
};
use tripflow::ids::{AgentID, AgentType, CarID, PedestrianID, VehicleType};
use tripflow::scenario::{MapName, TripMode};
use tripflow::strutil::u64_to_string;
use tripflow::text::Color;
use tripflow::time::Duration;

fn scheme() -> ColorScheme {
    ColorScheme {
        unzoomed_pedestrian: Color::rgba(1, 0, 0, 255),
        unzoomed_bike: Color::rgba(2, 0, 0, 255),
        unzoomed_bus: Color::rgba(3, 0, 0, 255),
        unzoomed_car: Color::rgba(4, 0, 0, 255),
        bus_trip: Color::rgba(5, 0, 0, 255),
        bus_layer: Color::rgba(6, 0, 0, 255),
        bike_trip: Color::rgba(7, 0, 0, 255),
        parking_trip: Color::rgba(8, 0, 0, 255),
    }
}

#[test]
fn amenities_classify() {
    assert_eq!(amenity_type("supermarket"), Some("groceries"));
    assert_eq!(amenity_type("bakery"), Some("food"));
    assert_eq!(amenity_type("nightclub"), Some("bar"));
    assert_eq!(amenity_type("chiropractor"), Some("medical"));
    assert_eq!(amenity_type("place_of_worship"), Some("church / temple"));
    assert_eq!(amenity_type("university"), Some("education"));
    assert_eq!(amenity_type("post_office"), Some("bank / post office"));
    assert_eq!(amenity_type("art_gallery"), Some("culture"));
    assert_eq!(amenity_type("kindergarten"), Some("childcare"));
    assert_eq!(amenity_type("newsagent"), Some("shopping"));
    assert_eq!(amenity_type("launderette"), None);
    assert_eq!(amenity_type(""), None);
}

#[test]
fn map_names_are_prettified() {
    let montlake = MapName { city: "seattle".to_string(), map: "montlake".to_string() };
    assert_eq!(nice_map_name(&montlake), "Montlake and Eastlake");
    let berlin = MapName { city: "berlin".to_string(), map: "center".to_string() };
    assert_eq!(nice_map_name(&berlin), "Berlin (city center)");
    let krakow = MapName { city: "krakow".to_string(), map: "center".to_string() };
    assert_eq!(nice_map_name(&krakow), "Krak\u{f3}w (city center)");
    let xian = MapName { city: "xian".to_string(), map: "center".to_string() };
    assert_eq!(nice_map_name(&xian), "Xi'an (city center)");
    let other = MapName { city: "nowhere".to_string(), map: "gridtown".to_string() };
    assert_eq!(nice_map_name(&other), "gridtown");
}

#[test]
fn duration_comparison_text() {
    let same = cmp_duration_shorter(Duration::seconds(30), Duration::seconds(30));
    assert_eq!(same.len(), 1);
    assert_eq!(same[0].text, "same");

    let faster = cmp_duration_shorter(Duration::seconds(30), Duration::seconds(50));
    assert_eq!(faster.len(), 2);
    assert_eq!(faster[0].text, "20s");
    assert_eq!(faster[0].fg_color, Color::green());
    assert_eq!(faster[1].text, " faster");

    let slower = cmp_duration_shorter(Duration::seconds(90), Duration::seconds(50));
    assert_eq!(slower[0].text, "40s");
    assert_eq!(slower[0].fg_color, Color::red());
    assert_eq!(slower[1].text, " slower");
}

#[test]
fn decimal_formatting() {
    assert_eq!(u64_to_string(0), "0");
    assert_eq!(u64_to_string(7), "7");
    assert_eq!(u64_to_string(1234567890), "1234567890");
    assert_eq!(u64_to_string(u64::MAX), "18446744073709551615");
    assert_eq!(duration_to_string(Duration::seconds(95)), "95s");
}

#[test]
fn agent_selection_round_trip() {
    let car = CarID { id: 9, vehicle_type: VehicleType::Car };
    let bus = CarID { id: 10, vehicle_type: VehicleType::Bus };
    assert_eq!(ID::from_agent(AgentID::Car(car)), ID::Car(car));
    assert_eq!(
        ID::from_agent(AgentID::Pedestrian(PedestrianID(3))),
        ID::Pedestrian(PedestrianID(3))
    );
    assert_eq!(ID::from_agent(AgentID::BusPassenger(PedestrianID(3), bus)), ID::Car(bus));
    assert_eq!(ID::Car(car).agent_id(), Some(AgentID::Car(car)));
    assert_eq!(
        ID::PedCrowd(vec![PedestrianID(1), PedestrianID(2)]).agent_id(),
        None
    );
}

#[test]
fn colors_follow_the_scheme() {
    let cs = scheme();
    assert_eq!(color_for_mode(&cs, TripMode::Walk), cs.unzoomed_pedestrian);
    assert_eq!(color_for_mode(&cs, TripMode::Drive), cs.unzoomed_car);
    assert_eq!(color_for_agent_type(&cs, AgentType::Train), cs.unzoomed_bus);
    assert_eq!(color_for_agent_type(&cs, AgentType::TransitRider), cs.bus_trip);
    assert_eq!(color_for_trip_phase(&cs, TripPhaseType::Parking), cs.parking_trip);
    assert_eq!(
        color_for_trip_phase(&cs, TripPhaseType::DelayedStart),
        Color::yellow()
    );
    assert_eq!(color_for_trip_phase(&cs, TripPhaseType::Remote), Color::pink());
}
