use vstd::prelude::*;
use std::collections::HashMap;
use crate::custom_types::{HumanID, TripID};
use crate::cypher::{human_log_link, human_log_link_query, human_node, human_node_query, trip_log, trip_log_query};
use crate::human::{Human, TripUnit};

verus! {

broadcast use vstd::std_specs::hash::group_hash_axioms;

/// The registry of passengers and of the trips each has made.
pub struct HumanManager {
    /// The passengers, by identifier.
    pub humans: HashMap<HumanID, Human>,
    trip_logs: HashMap<HumanID, Vec<TripID>>,
    next_human: HumanID,
    next_trip: TripID,
}

impl HumanManager {
    /// The registered passengers.
    pub closed spec fn people(&self) -> Map<HumanID, Human> {
        self.humans@
    }

    /// The trips of each passenger, oldest first.
    pub closed spec fn trips_of(&self, hid: HumanID) -> Seq<TripID> {
        if self.trip_logs@.contains_key(hid) { self.trip_logs@[hid]@ } else { Seq::empty() }
    }

    /// The passengers that have a trip log.
    pub closed spec fn logged(&self) -> Set<HumanID> {
        self.trip_logs@.dom()
    }

    /// The identifier the next passenger gets.
    pub closed spec fn next_human_id(&self) -> HumanID {
        self.next_human
    }

    /// The identifier the next trip gets.
    pub closed spec fn next_trip_id(&self) -> TripID {
        self.next_trip
    }

    /// Every registered passenger and every trip log belongs to an identifier
    /// handed out before, and each passenger is stored under its own identifier.
    pub closed spec fn wf(&self) -> bool {
        &&& forall|h: HumanID| #[trigger] self.humans@.contains_key(h) ==> h < self.next_human && self.humans@[h].human_id() == h
        &&& forall|h: HumanID| #[trigger] self.trip_logs@.contains_key(h) ==> h < self.next_human
        &&& forall|h: HumanID, i: int| #[trigger] self.trip_logs@.contains_key(h) && 0 <= i < self.trip_logs@[h]@.len()
            ==> #[trigger] self.trip_logs@[h]@[i] < self.next_trip
    }

    /// In a well-formed registry the next passenger identifier is fresh: no
    /// passenger and no trip log has it yet.  Every registered passenger is
    /// stored under its own identifier, which was handed out before.
    pub proof fn lemma_next_human_is_fresh(&self)
        requires
            self.wf(),
        ensures
            !self.people().contains_key(self.next_human_id()),
            !self.logged().contains(self.next_human_id()),
            self.trips_of(self.next_human_id()) == Seq::<TripID>::empty(),
            forall|h: HumanID| #[trigger] self.people().contains_key(h) ==> h < self.next_human_id() && self.people()[h].human_id() == h,
            forall|h: HumanID| #[trigger] self.logged().contains(h) ==> h < self.next_human_id(),
    {
    }

    /// An empty registry.
    pub fn new() -> (m: HumanManager)
        ensures
            m.wf(),
            m.people() == Map::<HumanID, Human>::empty(),
            m.logged() == Set::<HumanID>::empty(),
            forall|h: HumanID| #[trigger] m.trips_of(h) == Seq::<TripID>::empty(),
            m.next_human_id() == 0,
            m.next_trip_id() == 0,
    {
        HumanManager {
            humans: HashMap::new(),
            trip_logs: HashMap::new(),
            next_human: 0,
            next_trip: 0,
        }
    }

    /// Registers a new passenger with the trip `plan` and opens a trip for it.
    /// Returns the passenger's identifier, the statements that record the
    /// passenger, its trip log and the link between them, and the trip's
    /// identifier.
    pub fn register_human(&mut self, plan: Vec<TripUnit>) -> (r: (HumanID, (String, String, String), TripID))
        requires
            old(self).wf(),
            old(self).next_human_id() < u32::MAX,
            old(self).next_trip_id() < u32::MAX,
        ensures
            final(self).wf(),
            r.0 == old(self).next_human_id(),
            r.2 == old(self).next_trip_id(),
            !old(self).people().contains_key(r.0),
            final(self).next_human_id() == old(self).next_human_id() + 1,
            final(self).next_trip_id() == old(self).next_trip_id() + 1,
            final(self).people().dom() == old(self).people().dom().insert(r.0),
            final(self).people()[r.0].human_id() == r.0,
            final(self).people()[r.0].planned() == plan@,
            forall|h: HumanID| h != r.0 ==> #[trigger] final(self).people().contains_key(h) ==> final(self).people()[h] == old(self).people()[h],
            final(self).logged() == old(self).logged().insert(r.0),
            final(self).trips_of(r.0) == seq![r.2],
            final(self).people().len() == old(self).people().len() + 1,
            forall|h: HumanID| h != r.0 ==> #[trigger] final(self).trips_of(h) == old(self).trips_of(h),
            r.1.0@ == human_node_query(r.0),
            r.1.1@ == trip_log_query(r.0, r.2),
            r.1.2@ == human_log_link_query(r.0),
    {
        let hid = self.next_human;
        let trid = self.next_trip;
        let hu = Human::with_plan(hid, plan);
        self.humans.insert(hid, hu);

        let mut log: Vec<TripID> = match self.trip_logs.remove(&hid) {
            Some(trips) => trips,
            None => Vec::new(),
        };
        log.push(trid);
        self.trip_logs.insert(hid, log);

        self.next_human = self.next_human + 1;
        self.next_trip = self.next_trip + 1;

        let qs = human_node(hid);
        let qst = trip_log(hid, trid);
        let qstt = human_log_link(hid);
        proof {
            assert(!old(self).trip_logs@.contains_key(hid));
            assert(self.trip_logs@[hid]@ =~= seq![trid]);
            assert(old(self).humans@.dom().finite());
            assert(!old(self).humans@.contains_key(hid));
            assert forall|h: HumanID, i: int| #[trigger] self.trip_logs@.contains_key(h) && 0 <= i < self.trip_logs@[h]@.len()
                implies #[trigger] self.trip_logs@[h]@[i] < self.next_trip by {
                if h != hid {
                    assert(old(self).trip_logs@.contains_key(h));
                } else if i < self.trip_logs@[h]@.len() - 1 {
                    assert(old(self).trip_logs@.contains_key(h));
                    assert(self.trip_logs@[h]@[i] == old(self).trip_logs@[h]@[i]);
                }
            }
        }
        (hid, (qs, qst, qstt), trid)
    }
}

} // verus!
