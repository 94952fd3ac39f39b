use vstd::prelude::*;
use crate::custom_types::{HumanID, LineID, StationID, Time, TrainID};

verus! {

/// A passenger of the simulation, with the trips it plans to make.
pub struct Human {
    id: HumanID,
    /// The planned trip, leg by leg.
    pub plan: Vec<TripUnit>,
}

impl Human {
    /// The passenger's identifier.
    pub closed spec fn human_id(&self) -> HumanID {
        self.id
    }

    /// The planned legs.
    pub closed spec fn planned(&self) -> Seq<TripUnit> {
        self.plan@
    }

    /// Passenger `id`, with nothing planned yet.
    pub fn new(id: HumanID) -> (h: Human)
        ensures
            h.human_id() == id,
            h.planned() == Seq::<TripUnit>::empty(),
    {
        Human { id, plan: Vec::new() }
    }

    /// Passenger `id` with the plan `plan`.
    pub(crate) fn with_plan(id: HumanID, plan: Vec<TripUnit>) -> (h: Human)
        ensures
            h.human_id() == id,
            h.planned() == plan@,
    {
        let mut h = Human::new(id);
        h.plan = plan;
        h
    }
}

/// One leg of a trip: ride line `line` from station `on` to station `off`.
#[derive(Clone, Copy, Debug, PartialEq, Eq, Structural)]
pub struct TripUnit {
    pub line: LineID,
    pub on: StationID,
    pub off: StationID,
    pub start_time: Time,
    pub end_time: Time,
}

impl TripUnit {
    /// The leg on `line` from `on` to `off`, from `start` until `end`.
    pub fn new(line: LineID, on: StationID, off: StationID, start: Time, end: Time) -> (t: TripUnit)
        ensures
            t == (TripUnit { line, on, off, start_time: start, end_time: end }),
    {
        TripUnit { line, on, off, start_time: start, end_time: end }
    }
}

/// Where a passenger is in its trip.
#[derive(Clone, Copy, Debug, PartialEq, Eq, Structural)]
pub enum HumanState {
    /// Going through the entrance of a station.
    EnteringStation { hid: HumanID, sid: StationID, lid: LineID, since: Time },
    /// Waiting on a platform for a train of a line.
    QueueingForTrain { hid: HumanID, sid: StationID, lid: LineID, since: Time },
    /// On board a train, to get off at station `to_sid`.
    OnTrain { hid: HumanID, lid: LineID, tid: TrainID, to_sid: StationID, since: Time },
    /// Done with the trip.
    Finished { hid: HumanID, since: Time },
}

} // verus!
