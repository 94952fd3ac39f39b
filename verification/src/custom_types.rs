use vstd::prelude::*;

verus! {

/// Identifies a passenger.
pub type HumanID = u32;

/// Identifies a station.
pub type StationID = u32;

/// Identifies a metro line.
pub type LineID = u32;

/// Identifies a running train.
pub type TrainID = u32;

/// Identifies one trip of a passenger.
pub type TripID = u32;

/// A point of simulated time (in minutes of the day).
pub type Time = u32;

/// A distance on the map and along the tracks.
pub type Distance = u32;

/// A passenger waiting at a station or riding a train:
/// (passenger, station where the passenger boards, station where the
/// passenger leaves, line taken, time since waiting, trip).
pub type Passenger = (HumanID, StationID, StationID, LineID, Time, TripID);

} // verus!
