//! The typed stream of occurrences the motion simulator reports.

use vstd::prelude::*;

use crate::ids::{AgentID, LaneID, TripID, TurnID};

verus! {

/// A place an agent currently occupies.
#[derive(Clone, Copy, Debug, PartialEq, Eq, Structural)]
pub enum Traversable {
    Lane(LaneID),
    Turn(TurnID),
}

/// One segment of a precomputed route.
#[derive(Clone, Copy, Debug, PartialEq, Eq, Structural)]
pub enum PathStep {
    Lane(LaneID),
    Turn(TurnID),
}

/// A discrete occurrence reported by the motion simulator. The stream is
/// emitted in non-decreasing timestamp order; the timestamp itself is
/// passed alongside each event. The enum is closed: adding a kind forces
/// every exhaustive consumer match to be revisited.
#[derive(Clone, Copy, Debug, PartialEq, Eq, Structural)]
pub enum Event {
    /// An agent begins occupying a lane or turn, optionally on behalf of a
    /// known trip.
    AgentEntersTraversable(AgentID, Option<TripID>, Traversable),
    TripStarted(TripID),
    TripFinished(TripID),
    TripCancelled(TripID),
}

} // verus!
