//! Identifiers for network objects and moving agents.

use vstd::prelude::*;

verus! {

#[derive(Clone, Copy, Debug, PartialEq, Eq, Structural)]
pub struct RoadID(pub u64);

#[derive(Clone, Copy, Debug, PartialEq, Eq, Structural)]
pub struct LaneID(pub u64);

#[derive(Clone, Copy, Debug, PartialEq, Eq, Structural)]
pub struct IntersectionID(pub u64);

#[derive(Clone, Copy, Debug, PartialEq, Eq, Structural)]
pub struct BuildingID(pub u64);

#[derive(Clone, Copy, Debug, PartialEq, Eq, Structural)]
pub struct ParkingLotID(pub u64);

#[derive(Clone, Copy, Debug, PartialEq, Eq, Structural)]
pub struct BusStopID(pub u64);

#[derive(Clone, Copy, Debug, PartialEq, Eq, Structural)]
pub struct AreaID(pub u64);

#[derive(Clone, Copy, Debug, PartialEq, Eq, Structural)]
pub struct BusRouteID(pub u64);

#[derive(Clone, Copy, Debug, PartialEq, Eq, Structural)]
pub struct PedestrianID(pub u64);

/// A turn connects two lanes through its parent intersection.
#[derive(Clone, Copy, Debug, PartialEq, Eq, Structural)]
pub struct TurnID {
    pub parent: IntersectionID,
    pub src: LaneID,
    pub dst: LaneID,
}

/// The kind of vehicle a car identifier refers to.
#[derive(Clone, Copy, Debug, PartialEq, Eq, Structural)]
pub enum VehicleType {
    Car,
    Bike,
    Bus,
    Train,
}

/// Identifies one vehicle, together with its kind.
#[derive(Clone, Copy, Debug, PartialEq, Eq, Structural)]
pub struct CarID {
    pub id: u64,
    pub vehicle_type: VehicleType,
}

/// A logical trip undertaken by one person; unique per simulation run.
#[derive(Clone, Copy, Debug, PartialEq, Eq, Structural)]
pub struct TripID(pub u64);

/// Any moving entity: exactly one variant is active per live agent.
#[derive(Clone, Copy, Debug, PartialEq, Eq, Structural)]
pub enum AgentID {
    Car(CarID),
    Pedestrian(PedestrianID),
    /// A rider, and the bus they are on.
    BusPassenger(PedestrianID, CarID),
}

/// A coarse classification of agents, used for display styling.
#[derive(Clone, Copy, Debug, PartialEq, Eq, Structural)]
pub enum AgentType {
    Car,
    Bike,
    Bus,
    Train,
    Pedestrian,
    TransitRider,
}

} // verus!
