use vstd::prelude::*;
use std::collections::HashMap;
use std::marker::PhantomData;
use crate::custom_types::{Distance, HumanID, LineID, Passenger, StationID, Time, TrainID, TripID};
use crate::cypher::{
    next_station, next_station_query, station_node, station_node_query, station_table,
    station_table_link, station_table_link_query, station_table_query,
};
use crate::draw::draw_in_range;
use crate::human::TripUnit;
use crate::schedule::Event;
use crate::train::{
    lemma_arrival_conserves, lemma_departure_conserves, alighting, examined, negation, rides, rotate, board_event, boarders, left_waiting, staying, unboard_event, LineTimeTable, Station,
    StationTimeTable, Train,
};

verus! {

broadcast use vstd::std_specs::hash::group_hash_axioms;

/// How many waiting passengers a departing train looks at.
pub const BOARDING_CAPACITY: usize = 50;

/// The earliest start time of a drawn trip (6:00).
pub const FIRST_TRIP_START: u32 = 360;

/// The end of the start times of drawn trips (23:00).
pub const LAST_TRIP_START: u32 = 1380;

/// The lines, stations and trains of the simulation.
pub struct TrainManagerView {
    pub lines: Map<LineID, LineTimeTable>,
    pub stations: Map<StationID, Station>,
    pub trains: Map<TrainID, Train>,
    /// Station identifiers by name.
    pub station_names: Map<String, StationID>,
    /// The lines that serve each station.
    pub station_lines: Map<StationID, Vec<LineID>>,
    pub next_line: LineID,
    pub next_station: StationID,
    pub next_train: TrainID,
}

/// The registry, and owner, of all trains, stations and lines.
pub struct TrainManager<'a> {
    line_tables: HashMap<LineID, LineTimeTable>,
    stations: HashMap<StationID, Station>,
    station_id_map: HashMap<String, StationID>,
    station_on_lines: HashMap<StationID, Vec<LineID>>,
    trains: HashMap<TrainID, Train>,
    next_line: LineID,
    next_station: StationID,
    next_train: TrainID,
    phantom: PhantomData<&'a u32>,
}

impl<'a> View for TrainManager<'a> {
    type V = TrainManagerView;

    closed spec fn view(&self) -> TrainManagerView {
        TrainManagerView {
            lines: self.line_tables@,
            stations: self.stations@,
            trains: self.trains@,
            station_names: self.station_id_map@,
            station_lines: self.station_on_lines@,
            next_line: self.next_line,
            next_station: self.next_station,
            next_train: self.next_train,
        }
    }
}

impl TrainManagerView {
    /// Lines `0..next_line`, stations `0..next_station` and trains
    /// `0..next_train` are registered, each under its own identifier, and
    /// every line is well formed.
    pub open spec fn wf(self) -> bool {
        &&& forall|l: LineID| #[trigger] self.lines.contains_key(l) <==> l < self.next_line
        &&& forall|l: LineID| #[trigger] self.lines.contains_key(l) ==> self.lines[l].wf() && self.lines[l].line_id() == l
        &&& forall|s: StationID| #[trigger] self.stations.contains_key(s) <==> s < self.next_station
        &&& forall|s: StationID| #[trigger] self.stations.contains_key(s) ==> self.stations[s].station_id() == s
        &&& forall|t: TrainID| #[trigger] self.trains.contains_key(t) <==> t < self.next_train
        &&& forall|t: TrainID| #[trigger] self.trains.contains_key(t) ==> self.trains[t].train_id() == t
    }

    /// The manager can handle `event` without failing: the line, station
    /// time table, station and train that the event needs exist.
    pub open spec fn can_handle(self, event: Event) -> bool {
        match event {
            Event::TrainArrival { lid, sid, tid } => {
                &&& self.lines.contains_key(lid)
                &&& self.lines[lid].tables().contains_key(sid)
                &&& self.trains.contains_key(tid)
            },
            Event::TrainDeparture { lid, sid, tid } => {
                &&& self.lines.contains_key(lid)
                &&& self.lines[lid].tables().contains_key(sid)
                &&& self.lines[lid].tables()[sid].station_next is Some ==> {
                    &&& self.lines[lid].tables()[sid].distance_next is Some
                    &&& self.stations.contains_key(sid)
                    &&& self.trains.contains_key(tid)
                    &&& self.trains[tid].train_speed() != 0
                }
            },
            _ => true,
        }
    }
}

impl TrainManagerView {
    /// Putting a well-formed line with the same identifier in place of line
    /// `lid` keeps the manager well formed.
    pub proof fn lemma_replace_line(self, lid: LineID, l: LineTimeTable)
        requires
            self.wf(),
            self.lines.contains_key(lid),
            l.wf(),
            l.line_id() == lid,
        ensures
            (TrainManagerView { lines: self.lines.insert(lid, l), ..self }).wf(),
    {
        let m = self.lines.insert(lid, l);
        assert forall|k: LineID| #[trigger] m.contains_key(k) <==> k < self.next_line by {
            if k != lid {
                assert(m.contains_key(k) == self.lines.contains_key(k));
            }
        }
        assert forall|k: LineID| #[trigger] m.contains_key(k) implies m[k].wf() && m[k].line_id() == k by {
            if k != lid {
                assert(self.lines.contains_key(k));
            }
        }
    }

    /// Putting a station with the same identifier in place of station `sid`
    /// keeps the manager well formed.
    pub proof fn lemma_replace_station(self, sid: StationID, st: Station)
        requires
            self.wf(),
            self.stations.contains_key(sid),
            st.station_id() == sid,
        ensures
            (TrainManagerView { stations: self.stations.insert(sid, st), ..self }).wf(),
    {
        let m = self.stations.insert(sid, st);
        assert forall|k: StationID| #[trigger] m.contains_key(k) <==> k < self.next_station by {
            if k != sid {
                assert(m.contains_key(k) == self.stations.contains_key(k));
            }
        }
        assert forall|k: StationID| #[trigger] m.contains_key(k) implies m[k].station_id() == k by {
            if k != sid {
                assert(self.stations.contains_key(k));
            }
        }
    }

    /// Putting a train with the same identifier in place of train `tid`
    /// keeps the manager well formed.
    pub proof fn lemma_replace_train(self, tid: TrainID, t: Train)
        requires
            self.wf(),
            self.trains.contains_key(tid),
            t.train_id() == tid,
        ensures
            (TrainManagerView { trains: self.trains.insert(tid, t), ..self }).wf(),
    {
        let m = self.trains.insert(tid, t);
        assert forall|k: TrainID| #[trigger] m.contains_key(k) <==> k < self.next_train by {
            if k != tid {
                assert(m.contains_key(k) == self.trains.contains_key(k));
            }
        }
        assert forall|k: TrainID| #[trigger] m.contains_key(k) implies m[k].train_id() == k by {
            if k != tid {
                assert(self.trains.contains_key(k));
            }
        }
    }
}

/// The trip leg that the draws `sw`, `ew`, `st` give on line `lid`: from the
/// first station reaching weight `sw` to the first reaching `ew`, starting at
/// `st` and taking two minutes per station passed.
pub open spec fn drawn_leg(line: LineTimeTable, lid: LineID, sw: u32, ew: u32, st: Time) -> TripUnit {
    let s = line.station_for_weight(sw);
    let e = line.station_for_weight(ew);
    TripUnit { line: lid, on: s.1, off: e.1, start_time: st, end_time: (st + 2 * (e.0 - s.0)) as u32 }
}

/// Every line of `v` can host a drawn trip: its total weight leaves room for
/// the draws, and it is short enough for the trip's end time.
pub open spec fn trips_drawable(v: TrainManagerView) -> bool {
    &&& v.next_line > 0
    &&& forall|l: LineID| #[trigger] v.lines.contains_key(l) ==> {
        &&& v.lines[l].total() >= 4
        &&& LAST_TRIP_START + 2 * v.lines[l].line_stations().len() <= u32::MAX
    }
}

/// Adding the entry `next` to a map holding exactly the keys `0..next` gives
/// one holding exactly the keys `0..=next`.
pub proof fn lemma_dense_insert<V>(m: Map<u32, V>, next: u32, v: V)
    requires
        forall|k: u32| #[trigger] m.contains_key(k) <==> k < next,
        next < u32::MAX,
    ensures
        forall|k: u32| #[trigger] m.insert(next, v).contains_key(k) <==> k < next + 1,
        forall|k: u32| k != next ==> #[trigger] m.insert(next, v).contains_key(k) ==> m.insert(next, v)[k] == m[k],
{
    assert forall|k: u32| #[trigger] m.insert(next, v).contains_key(k) <==> k < next + 1 by {
        if k != next {
            assert(m.insert(next, v).contains_key(k) == m.contains_key(k));
        }
    }
}

/// What handling `event` does: the manager goes from `pre` to `post` and
/// returns the delay `delay` after which `next` follows, with the events
/// `human` of the passengers concerned.
///
/// A train arriving at a station lets off the passengers bound for it and
/// departs after the station's stop time.  A train departing from a station
/// with a next station takes on the waiting passengers of its line (see
/// `boarders` and `left_waiting`) and arrives at the next station after the
/// distance divided by its speed.  Nothing else happens for any other event.
pub open spec fn handled(
    pre: TrainManagerView,
    event: Event,
    delay: Time,
    next: Option<Event>,
    human: Seq<Event>,
    post: TrainManagerView,
) -> bool {
    match event {
        Event::TrainArrival { lid, sid, tid } => {
            &&& delay == pre.lines[lid].tables()[sid].stop_time
            &&& next == Some(Event::TrainDeparture { lid, sid, tid })
            &&& human == alighting(pre.trains[tid].passengers(), sid).map_values(|p: Passenger| unboard_event(p, tid))
            &&& post == (TrainManagerView { trains: post.trains, ..pre })
            &&& post.trains.dom() == pre.trains.dom()
            &&& post.trains[tid].same_apart_from_passengers(&pre.trains[tid])
            &&& post.trains[tid].passengers() == staying(pre.trains[tid].passengers(), sid)
            &&& forall|t: TrainID| t != tid && #[trigger] pre.trains.contains_key(t) ==> post.trains[t] == pre.trains[t]
        },
        Event::TrainDeparture { lid, sid, tid } => match pre.lines[lid].tables()[sid].station_next {
            None => delay == 0 && next is None && human == Seq::<Event>::empty() && post == pre,
            Some(st) => {
                let waiting = pre.stations[sid].waiting();
                let cap = BOARDING_CAPACITY as nat;
                &&& delay == pre.lines[lid].tables()[sid].distance_next.unwrap() / pre.trains[tid].train_speed()
                &&& next == Some(Event::TrainArrival { lid, sid: st, tid })
                &&& human == boarders(waiting, lid, cap).map_values(|p: Passenger| board_event(p, tid))
                &&& post == (TrainManagerView { trains: post.trains, stations: post.stations, ..pre })
                &&& post.trains.dom() == pre.trains.dom()
                &&& post.trains[tid].same_apart_from_passengers(&pre.trains[tid])
                &&& post.trains[tid].passengers() == pre.trains[tid].passengers() + boarders(waiting, lid, cap)
                &&& forall|t: TrainID| t != tid && #[trigger] pre.trains.contains_key(t) ==> post.trains[t] == pre.trains[t]
                &&& post.stations.dom() == pre.stations.dom()
                &&& post.stations[sid].same_apart_from_waiting(&pre.stations[sid])
                &&& post.stations[sid].waiting() == left_waiting(waiting, lid, cap)
                &&& forall|s: StationID| s != sid && #[trigger] pre.stations.contains_key(s) ==> post.stations[s] == pre.stations[s]
            },
        },
        _ => delay == 0 && next is None && human == Seq::<Event>::empty() && post == pre,
    }
}

/// Handling an event neither loses nor makes up passengers: at an arrival the
/// train's passengers afterwards, together with those who got off (one
/// event each), are those on board before; at a departure the station's
/// queue and the train's passengers afterwards are together those waiting
/// and on board before, and each boarder produced one event.
pub proof fn lemma_handling_keeps_passengers(
    pre: TrainManagerView,
    event: Event,
    delay: Time,
    next: Option<Event>,
    human: Seq<Event>,
    post: TrainManagerView,
)
    requires
        pre.can_handle(event),
        handled(pre, event, delay, next, human, post),
    ensures
        match event {
            Event::TrainArrival { lid, sid, tid } => {
                &&& post.trains[tid].passengers().to_multiset().add(alighting(pre.trains[tid].passengers(), sid).to_multiset())
                    == pre.trains[tid].passengers().to_multiset()
                &&& human.len() == alighting(pre.trains[tid].passengers(), sid).len()
            },
            Event::TrainDeparture { lid, sid, tid } => pre.lines[lid].tables()[sid].station_next is Some ==> {
                &&& post.stations[sid].waiting().to_multiset().add(post.trains[tid].passengers().to_multiset())
                    == pre.stations[sid].waiting().to_multiset().add(pre.trains[tid].passengers().to_multiset())
                &&& human.len() + pre.trains[tid].passengers().len() == post.trains[tid].passengers().len()
            },
            _ => post == pre,
        },
{
    broadcast use vstd::seq_lib::group_to_multiset_ensures;
    match event {
        Event::TrainArrival { lid, sid, tid } => {
            lemma_arrival_conserves(pre.trains[tid].passengers(), sid);
        },
        Event::TrainDeparture { lid, sid, tid } => {
            if pre.lines[lid].tables()[sid].station_next is Some {
                let w = pre.stations[sid].waiting();
                let b = boarders(w, lid, BOARDING_CAPACITY as nat);
                lemma_departure_conserves(w, lid, BOARDING_CAPACITY as nat);
                vstd::seq_lib::lemma_multiset_commutative(pre.trains[tid].passengers(), b);
                assert(post.stations[sid].waiting().to_multiset().add(post.trains[tid].passengers().to_multiset())
                    =~= pre.stations[sid].waiting().to_multiset().add(pre.trains[tid].passengers().to_multiset()));
            }
        },
        _ => {},
    }
}

/// What an arrival at `sid` does to the train's passengers: those who stay
/// on are the ones not bound for `sid`, sorted one by one in boarding order
/// (see `lemma_unloading_keeps_order`), and none of them is bound for `sid`;
/// every other passenger gets off, with one event naming `sid` and the train,
/// in boarding order; the train departs again from `sid` after the stop time.
pub proof fn lemma_arrival_unloading(
    pre: TrainManagerView,
    lid: LineID,
    sid: StationID,
    tid: TrainID,
    delay: Time,
    next: Option<Event>,
    human: Seq<Event>,
    post: TrainManagerView,
)
    requires
        pre.can_handle(Event::TrainArrival { lid, sid, tid }),
        handled(pre, Event::TrainArrival { lid, sid, tid }, delay, next, human, post),
    ensures
        ({
            let before = pre.trains[tid].passengers();
            let off = alighting(before, sid);
            let q = post.trains[tid].passengers();
            &&& q == staying(before, sid)
            &&& q.len() + human.len() == before.len()
            &&& forall|i: int| 0 <= i < q.len() ==> (#[trigger] q[i]).2 != sid
            &&& human.len() == off.len()
            &&& forall|i: int| 0 <= i < human.len() ==> {
                &&& (#[trigger] off[i]).2 == sid
                &&& human[i] == Event::HumanUnboardTrain { hid: off[i].0, lid: off[i].3, sid, tid, trid: off[i].5 }
            }
            &&& next == Some(Event::TrainDeparture { lid, sid, tid })
            &&& delay == pre.lines[lid].tables()[sid].stop_time
        }),
{
    broadcast use vstd::seq_lib::group_to_multiset_ensures;
    let before = pre.trains[tid].passengers();
    lemma_arrival_conserves(before, sid);
    assert(staying(before, sid).to_multiset().add(alighting(before, sid).to_multiset()).len() == before.len());
}

/// A departure from a station that has no next station (the end of the line)
/// changes nothing: no passenger boards or leaves a queue, no event follows,
/// and the delay is zero.
pub proof fn lemma_departure_from_end_of_line(
    pre: TrainManagerView,
    lid: LineID,
    sid: StationID,
    tid: TrainID,
    delay: Time,
    next: Option<Event>,
    human: Seq<Event>,
    post: TrainManagerView,
)
    requires
        pre.can_handle(Event::TrainDeparture { lid, sid, tid }),
        handled(pre, Event::TrainDeparture { lid, sid, tid }, delay, next, human, post),
        pre.lines[lid].tables()[sid].station_next is None,
    ensures
        post == pre,
        human.len() == 0,
        next is None,
        delay == 0,
        pre.stations.contains_key(sid) ==> post.stations[sid].waiting() == pre.stations[sid].waiting(),
        pre.trains.contains_key(tid) ==> post.trains[tid].passengers() == pre.trains[tid].passengers(),
{
}

/// What a departure to a next station does to the passengers, in terms of
/// the queue `w` at the station before and the train's passengers.  Each
/// passenger who leaves the queue boards, with one event naming the train's
/// line, in boarding order, behind those already on board.  When no more than
/// 50 wait, every waiting passenger of the train's line boards: nobody left
/// waiting is of the line.  When more wait, only the first 50 are looked at:
/// the others are still waiting, at the front of the queue and in their
/// order.
pub proof fn lemma_departure_boarding(
    pre: TrainManagerView,
    lid: LineID,
    sid: StationID,
    tid: TrainID,
    delay: Time,
    next: Option<Event>,
    human: Seq<Event>,
    post: TrainManagerView,
)
    requires
        pre.can_handle(Event::TrainDeparture { lid, sid, tid }),
        handled(pre, Event::TrainDeparture { lid, sid, tid }, delay, next, human, post),
        pre.lines[lid].tables()[sid].station_next is Some,
    ensures
        ({
            let w = pre.stations[sid].waiting();
            let left = post.stations[sid].waiting();
            let before = pre.trains[tid].passengers();
            let q = post.trains[tid].passengers();
            &&& human.len() + left.len() == w.len()
            &&& q.len() == before.len() + human.len()
            &&& q.take(before.len() as int) == before
            &&& forall|i: int| 0 <= i < human.len() ==> {
                &&& (#[trigger] q[before.len() + i]).3 == lid
                &&& human[i] == Event::HumanBoardTrain {
                    hid: q[before.len() + i].0,
                    lid,
                    sid: q[before.len() + i].1,
                    tid,
                    trid: q[before.len() + i].5,
                }
            }
            &&& w.len() <= 50 ==> forall|i: int| 0 <= i < left.len() ==> (#[trigger] left[i]).3 != lid
            &&& w.len() > 50 ==> left.take(w.len() - 50) == w.skip(50)
        }),
{
    broadcast use vstd::seq_lib::group_filter_ensures;
    broadcast use vstd::seq_lib::group_to_multiset_ensures;
    let w = pre.stations[sid].waiting();
    let left = post.stations[sid].waiting();
    let before = pre.trains[tid].passengers();
    let q = post.trains[tid].passengers();
    let cap = BOARDING_CAPACITY as nat;
    let b = boarders(w, lid, cap);
    lemma_departure_conserves(w, lid, cap);
    assert(left.to_multiset().add(b.to_multiset()).len() == w.len());
    assert(q == before + b);
    assert(q.take(before.len() as int) =~= before);
    assert forall|i: int| 0 <= i < human.len() implies {
        &&& (#[trigger] q[before.len() + i]).3 == lid
        &&& human[i] == Event::HumanBoardTrain {
            hid: q[before.len() + i].0,
            lid,
            sid: q[before.len() + i].1,
            tid,
            trid: q[before.len() + i].5,
        }
    } by {
        assert(q[before.len() + i] == b[i]);
        assert(b[i].3 == lid);
    }
    let n = examined(w, cap) as int;
    let rest = w.skip(n) + w.take(n).filter(negation(rides(lid)));
    if w.len() <= 50 {
        assert(w.skip(n) =~= Seq::<Passenger>::empty());
        assert forall|j: int| 0 <= j < rest.len() implies (#[trigger] rest[j]).3 != lid by {
            assert(rest[j] == w.take(n).filter(negation(rides(lid)))[j]);
            assert(negation(rides(lid))(w.take(n).filter(negation(rides(lid)))[j]));
        }
        assert forall|i: int| 0 <= i < left.len() implies (#[trigger] left[i]).3 != lid by {
            if rest.len() > 0 {
                let k = ((cap - w.len()) as nat % rest.len()) as int;
                assert(left == rotate(rest, k));
                if i < rest.len() - k {
                    assert(left[i] == rest[k + i]);
                } else {
                    assert(left[i] == rest[i - (rest.len() - k)]);
                }
            }
        }
    } else {
        assert(left == rest);
        assert(left.take(w.len() - 50) =~= w.skip(50));
    }
}

impl<'a> TrainManager<'a> {
    /// A manager with nothing registered.
    pub fn new() -> (m: TrainManager<'a>)
        ensures
            m@.wf(),
            m@.lines == Map::<LineID, LineTimeTable>::empty(),
            m@.stations == Map::<StationID, Station>::empty(),
            m@.trains == Map::<TrainID, Train>::empty(),
            m@.station_names == Map::<String, StationID>::empty(),
            m@.station_lines == Map::<StationID, Vec<LineID>>::empty(),
            m@.next_line == 0,
            m@.next_station == 0,
            m@.next_train == 0,
    {
        TrainManager {
            line_tables: HashMap::new(),
            stations: HashMap::new(),
            station_id_map: HashMap::new(),
            station_on_lines: HashMap::new(),
            trains: HashMap::new(),
            next_line: 0,
            next_station: 0,
            next_train: 0,
            phantom: PhantomData,
        }
    }

    /// Registers a station named `name` at (`corx`, `cory`) under the next
    /// station identifier.  Returns the identifier and the statement that
    /// records the station.
    pub fn register_station(&mut self, name: String, corx: Distance, cory: Distance) -> (r: (StationID, String))
        requires
            old(self)@.wf(),
            old(self)@.next_station < u32::MAX,
        ensures
            final(self)@.wf(),
            r.0 == old(self)@.next_station,
            !old(self)@.stations.contains_key(r.0),
            r.1@ == station_node_query(r.0, name@, corx, cory),
            final(self)@.stations.dom() == old(self)@.stations.dom().insert(r.0),
            final(self)@.stations[r.0].station_id() == r.0,
            final(self)@.stations[r.0].station_name() == name@,
            final(self)@.stations[r.0].coordinates() == (corx, cory),
            final(self)@.stations[r.0].waiting() == Seq::<Passenger>::empty(),
            final(self)@ == (TrainManagerView {
                stations: final(self)@.stations,
                next_station: (old(self)@.next_station + 1) as StationID,
                ..old(self)@
            }),
            forall|s: StationID| s != r.0 ==> #[trigger] final(self)@.stations.contains_key(s) ==> final(self)@.stations[s] == old(self)@.stations[s],
    {
        let id = self.next_station;
        let qs = station_node(id, name.as_str(), corx, cory);
        let st = Station::new(id, name, corx, cory);
        self.stations.insert(id, st);
        self.next_station = self.next_station + 1;
        proof {
            lemma_dense_insert(old(self)@.stations, id, st);
        }
        (id, qs)
    }

    /// Registers a line named `name` whose trains run at `speed`, under the
    /// next line identifier, which it returns.
    pub fn register_linetable(&mut self, name: String, speed: u32) -> (lid: LineID)
        requires
            old(self)@.wf(),
            old(self)@.next_line < u32::MAX,
        ensures
            final(self)@.wf(),
            lid == old(self)@.next_line,
            !old(self)@.lines.contains_key(lid),
            final(self)@.lines.dom() == old(self)@.lines.dom().insert(lid),
            final(self)@.lines[lid].line_id() == lid,
            final(self)@.lines[lid].line_name() == name@,
            final(self)@.lines[lid].line_speed() == speed,
            final(self)@.lines[lid].total() == 0,
            final(self)@.lines[lid].line_stations() == Seq::<StationID>::empty(),
            final(self)@.lines[lid].train_times() == Seq::<Time>::empty(),
            final(self)@.lines[lid].tables() == Map::<StationID, StationTimeTable>::empty(),
            final(self)@ == (TrainManagerView {
                lines: final(self)@.lines,
                next_line: (old(self)@.next_line + 1) as LineID,
                ..old(self)@
            }),
            forall|l: LineID| l != lid ==> #[trigger] final(self)@.lines.contains_key(l) ==> final(self)@.lines[l] == old(self)@.lines[l],
    {
        let lid = self.next_line;
        let lt = LineTimeTable::new(lid, name, speed);
        self.line_tables.insert(lid, lt);
        self.next_line = self.next_line + 1;
        proof {
            lemma_dense_insert(old(self)@.lines, lid, lt);
        }
        lid
    }

    /// Adds the start time `time` of a new train to line `lid`.  Returns
    /// whether the line exists; when it does not, nothing changes.
    pub fn add_new_traintime_toline(&mut self, lid: LineID, time: Time) -> (found: bool)
        requires
            old(self)@.wf(),
        ensures
            final(self)@.wf(),
            found == old(self)@.lines.contains_key(lid),
            !found ==> final(self)@ == old(self)@,
            found ==> final(self)@ == (TrainManagerView { lines: final(self)@.lines, ..old(self)@ }),
            found ==> final(self)@.lines.dom() == old(self)@.lines.dom(),
            found ==> final(self)@.lines[lid].train_times() == old(self)@.lines[lid].train_times().push(time),
            found ==> final(self)@.lines[lid].line_stations() == old(self)@.lines[lid].line_stations(),
            found ==> final(self)@.lines[lid].total() == old(self)@.lines[lid].total(),
            found ==> final(self)@.lines[lid].acc_weights() == old(self)@.lines[lid].acc_weights(),
            found ==> final(self)@.lines[lid].tables() == old(self)@.lines[lid].tables(),
            found ==> final(self)@.lines[lid].line_id() == old(self)@.lines[lid].line_id(),
            found ==> final(self)@.lines[lid].line_name() == old(self)@.lines[lid].line_name(),
            found ==> final(self)@.lines[lid].line_speed() == old(self)@.lines[lid].line_speed(),
            forall|l: LineID| l != lid ==> #[trigger] final(self)@.lines.contains_key(l) ==> final(self)@.lines[l] == old(self)@.lines[l],
    {
        match self.line_tables.remove(&lid) {
            Some(mut ltb) => {
                ltb.add_new_traintime(time);
                self.line_tables.insert(lid, ltb);
                proof {
                    assert(old(self)@.lines.contains_key(lid));
                    assert(self.line_tables@ =~= old(self).line_tables@.insert(lid, ltb));
                    old(self)@.lemma_replace_line(lid, ltb);
                    assert(self@ == (TrainManagerView { lines: old(self)@.lines.insert(lid, ltb), ..old(self)@ }));
                }
                true
            },
            None => {
                proof {
                    assert(self.line_tables@ =~= old(self).line_tables@);
                }
                false
            },
        }
    }

    /// Adds the station of `stt` to the end of line `lid`.  When the line
    /// exists, returns the statements that record the station's time table,
    /// link the station to it and, if a next station is set, link the two
    /// stations; when it does not, returns no statement and nothing changes.
    pub fn add_station_toline(&mut self, lid: LineID, stt: StationTimeTable) -> (qs: Vec<String>)
        requires
            old(self)@.wf(),
            old(self)@.lines.contains_key(lid) ==> old(self)@.lines[lid].total() + stt.weight <= u32::MAX,
            old(self)@.lines.contains_key(lid) && stt.station_next is Some ==> stt.distance_next is Some,
        ensures
            final(self)@.wf(),
            !old(self)@.lines.contains_key(lid) ==> qs@.len() == 0 && final(self)@ == old(self)@,
            old(self)@.lines.contains_key(lid) ==> {
                &&& qs@.len() == if stt.station_next is Some { 3int } else { 2int }
                &&& qs@[0]@ == station_table_query(stt.id, lid, stt.stop_time)
                &&& qs@[1]@ == station_table_link_query(stt.id, lid)
                &&& stt.station_next matches Some(n) ==> qs@[2]@ == next_station_query(stt.id, n, stt.distance_next.unwrap())
                &&& final(self)@ == (TrainManagerView { lines: final(self)@.lines, ..old(self)@ })
                &&& final(self)@.lines.dom() == old(self)@.lines.dom()
                &&& final(self)@.lines[lid].line_stations() == old(self)@.lines[lid].line_stations().push(stt.id)
                &&& final(self)@.lines[lid].total() == old(self)@.lines[lid].total() + stt.weight
                &&& final(self)@.lines[lid].acc_weights() == old(self)@.lines[lid].acc_weights().push(final(self)@.lines[lid].total())
                &&& final(self)@.lines[lid].tables() == old(self)@.lines[lid].tables().insert(stt.id, stt)
                &&& final(self)@.lines[lid].train_times() == old(self)@.lines[lid].train_times()
                &&& final(self)@.lines[lid].line_id() == old(self)@.lines[lid].line_id()
                &&& final(self)@.lines[lid].line_name() == old(self)@.lines[lid].line_name()
                &&& final(self)@.lines[lid].line_speed() == old(self)@.lines[lid].line_speed()
            },
            forall|l: LineID| l != lid ==> #[trigger] final(self)@.lines.contains_key(l) ==> final(self)@.lines[l] == old(self)@.lines[l],
    {
        match self.line_tables.remove(&lid) {
            Some(mut ltb) => {
                let mut qss: Vec<String> = Vec::new();
                qss.push(station_table(stt.id, lid, stt.stop_time));
                qss.push(station_table_link(stt.id, lid));
                match stt.station_next {
                    Some(n) => {
                        let d = stt.distance_next.unwrap();
                        qss.push(next_station(stt.id, n, d));
                    },
                    None => {},
                }
                ltb.add_station(stt);
                self.line_tables.insert(lid, ltb);
                proof {
                    assert(old(self)@.lines.contains_key(lid));
                    assert(self.line_tables@ =~= old(self).line_tables@.insert(lid, ltb));
                    old(self)@.lemma_replace_line(lid, ltb);
                    assert(self@ == (TrainManagerView { lines: old(self)@.lines.insert(lid, ltb), ..old(self)@ }));
                }
                qss
            },
            None => {
                proof {
                    assert(self.line_tables@ =~= old(self).line_tables@);
                }
                Vec::new()
            },
        }
    }

    /// Registers, under the next train identifier, a train of line `lid`
    /// standing at station `sid` since `time`, running at the line's speed.
    pub fn register_train(&mut self, lid: LineID, sid: StationID, time: Time) -> (tid: TrainID)
        requires
            old(self)@.wf(),
            old(self)@.lines.contains_key(lid),
            old(self)@.next_train < u32::MAX,
        ensures
            final(self)@.wf(),
            tid == old(self)@.next_train,
            !old(self)@.trains.contains_key(tid),
            final(self)@.trains.dom() == old(self)@.trains.dom().insert(tid),
            final(self)@.trains[tid].train_id() == tid,
            final(self)@.trains[tid].line_id() == lid,
            final(self)@.trains[tid].train_speed() == old(self)@.lines[lid].line_speed(),
            final(self)@.trains[tid].is_stopped_at(sid, time),
            final(self)@.trains[tid].passengers() == Seq::<Passenger>::empty(),
            final(self)@ == (TrainManagerView {
                trains: final(self)@.trains,
                next_train: (old(self)@.next_train + 1) as TrainID,
                ..old(self)@
            }),
            forall|t: TrainID| t != tid ==> #[trigger] final(self)@.trains.contains_key(t) ==> final(self)@.trains[t] == old(self)@.trains[t],
    {
        let sp = self.line_tables.get(&lid).unwrap().get_speed();
        let tid = self.next_train;
        let tr = Train::new(tid, lid, sp, sid, time);
        self.trains.insert(tid, tr);
        self.next_train = self.next_train + 1;
        proof {
            lemma_dense_insert(old(self)@.trains, tid, tr);
        }
        tid
    }

    /// Passes `event` to train `tid`, if it exists.  A train's state does not
    /// depend on events yet, so nothing changes.
    pub fn train_update(&mut self, event: Event, tid: TrainID)
        ensures
            final(self)@ == old(self)@,
    {
        match self.trains.remove(&tid) {
            Some(mut the_train) => {
                the_train.update_state(event);
                self.trains.insert(tid, the_train);
                proof {
                    assert(self.trains@ =~= old(self).trains@);
                }
            },
            None => {
                proof {
                    assert(self.trains@ =~= old(self).trains@);
                }
            },
        }
    }

    /// The station before `sid` on line `lid`; `None` for the first station.
    pub fn find_last_station(&self, lid: LineID, sid: StationID) -> (p: Option<StationID>)
        requires
            self@.lines.contains_key(lid),
            self@.lines[lid].line_stations().contains(sid),
        ensures
            sid == self@.lines[lid].line_stations()[0] ==> p is None,
            sid != self@.lines[lid].line_stations()[0] ==> exists|i: int|
                #![trigger self@.lines[lid].line_stations()[i]]
                {
                    &&& 0 < i < self@.lines[lid].line_stations().len()
                    &&& self@.lines[lid].line_stations()[i] == sid
                    &&& forall|j: int| 0 <= j < i ==> self@.lines[lid].line_stations()[j] != sid
                    &&& p == Some(self@.lines[lid].line_stations()[i - 1])
                },
    {
        self.line_tables.get(&lid).unwrap().get_last_station(sid)
    }

    /// Puts passenger `hid`, on trip `trid`, at the back of the queue of
    /// station `sid`, waiting since `since` for line `lid` to go to `dsid`.
    pub fn putWaitingHuman(&mut self, hid: HumanID, sid: StationID, dsid: StationID, lid: LineID, since: Time, trid: TripID)
        requires
            old(self)@.wf(),
            old(self)@.stations.contains_key(sid),
        ensures
            final(self)@.wf(),
            final(self)@ == (TrainManagerView { stations: final(self)@.stations, ..old(self)@ }),
            final(self)@.stations.dom() == old(self)@.stations.dom(),
            final(self)@.stations[sid].same_apart_from_waiting(&old(self)@.stations[sid]),
            final(self)@.stations[sid].waiting() == old(self)@.stations[sid].waiting().push((hid, sid, dsid, lid, since, trid)),
            forall|s: StationID| s != sid ==> #[trigger] final(self)@.stations.contains_key(s) ==> final(self)@.stations[s] == old(self)@.stations[s],
    {
        let mut st = self.stations.remove(&sid).unwrap();
        st.join_queue((hid, sid, dsid, lid, since, trid));
        self.stations.insert(sid, st);
        proof {
            assert(self.stations@ =~= old(self).stations@.insert(sid, st));
            old(self)@.lemma_replace_station(sid, st);
            assert(self@ == (TrainManagerView { stations: old(self)@.stations.insert(sid, st), ..old(self)@ }));
            assert(self.stations@.dom() =~= old(self).stations@.dom());
        }
    }

    /// Handles `event` at `cur_time` (see `handled`).  Returns the delay after
    /// which the train's next event follows, that event if any, and the
    /// events of the passengers who got off or on.
    pub fn handle_event(&mut self, event: Event, cur_time: Time) -> (r: (Time, Option<Event>, Vec<Event>))
        requires
            old(self)@.wf(),
            old(self)@.can_handle(event),
        ensures
            final(self)@.wf(),
            handled(old(self)@, event, r.0, r.1, r.2@, final(self)@),
    {
        let mut human_events: Vec<Event> = Vec::new();
        match event {
            Event::TrainArrival { lid, sid, tid } => {
                let change_time = self.line_tables.get(&lid).unwrap().get_stop_time(sid);
                let mut the_train = self.trains.remove(&tid).unwrap();
                human_events = the_train.unload_at(sid, tid);
                self.trains.insert(tid, the_train);
                proof {
                    assert(self.trains@ =~= old(self).trains@.insert(tid, the_train));
                    old(self)@.lemma_replace_train(tid, the_train);
                    assert(self@ == (TrainManagerView { trains: old(self)@.trains.insert(tid, the_train), ..old(self)@ }));
                    assert(self.trains@.dom() =~= old(self).trains@.dom());
                }
                (change_time, Some(Event::TrainDeparture { lid, sid, tid }), human_events)
            },
            Event::TrainDeparture { lid, sid, tid } => {
                self.train_update(event, tid);
                let next_st = self.line_tables.get(&lid).unwrap().get_next_station(sid);
                match next_st {
                    Some(st) => {
                        let dis = self.line_tables.get(&lid).unwrap().get_dis_next(sid).unwrap();
                        let mut the_station = self.stations.remove(&sid).unwrap();
                        let mut the_train = self.trains.remove(&tid).unwrap();
                        human_events = the_train.board_from(&mut the_station, lid, tid, BOARDING_CAPACITY);
                        let speed = the_train.get_speed();
                        self.stations.insert(sid, the_station);
                        self.trains.insert(tid, the_train);
                        proof {
                            assert(self.trains@ =~= old(self).trains@.insert(tid, the_train));
                            assert(self.stations@ =~= old(self).stations@.insert(sid, the_station));
                            let mid = TrainManagerView { stations: old(self)@.stations.insert(sid, the_station), ..old(self)@ };
                            old(self)@.lemma_replace_station(sid, the_station);
                            mid.lemma_replace_train(tid, the_train);
                            assert(self@ == (TrainManagerView { trains: old(self)@.trains.insert(tid, the_train), ..mid }));
                            assert(self.trains@.dom() =~= old(self).trains@.dom());
                            assert(self.stations@.dom() =~= old(self).stations@.dom());
                        }
                        (dis / speed, Some(Event::TrainArrival { lid, sid: st, tid }), human_events)
                    },
                    None => (0, None, human_events),
                }
            },
            _ => (0, None, human_events),
        }
    }

    /// The one-leg trip that the draws `sw`, `ew` (station weights) and `st`
    /// (start time) give on line `lid`; see `drawn_leg`.
    pub fn trip_from_draws(&self, lid: LineID, sw: u32, ew: u32, st: Time) -> (trip: Vec<TripUnit>)
        requires
            self@.wf(),
            self@.lines.contains_key(lid),
            sw <= ew <= self@.lines[lid].total(),
            st + 2 * (self@.lines[lid].station_for_weight(ew).0 - self@.lines[lid].station_for_weight(sw).0) <= u32::MAX,
        ensures
            trip@ == seq![drawn_leg(self@.lines[lid], lid, sw, ew, st)],
    {
        let line = self.line_tables.get(&lid).unwrap();
        proof {
            self@.lines[lid].lemma_acc_weights();
        }
        let start_station = line.find_station_weight(sw);
        let end_station = line.find_station_weight(ew);
        proof {
            let l = self@.lines[lid];
            if l.line_stations().len() > 0 {
                l.lemma_station_for_weight_monotone(sw, ew);
            } else {
                l.lemma_acc_weights();
            }
        }
        let passed = end_station.0 - start_station.0;
        let end_time = st + 2 * (passed as u32);
        let mut trip: Vec<TripUnit> = Vec::new();
        trip.push(TripUnit::new(lid, start_station.1, end_station.1, st, end_time));
        proof {
            assert(trip@ =~= seq![drawn_leg(self@.lines[lid], lid, sw, ew, st)]);
        }
        trip
    }

    /// A random one-leg trip: a random line, a start and an end station drawn
    /// by weight (the end at least three weight units further), and a start
    /// time between 6:00 and 23:00.
    #[allow(non_snake_case)]
    pub fn randomTrip(&self) -> (trip: Vec<TripUnit>)
        requires
            self@.wf(),
            trips_drawable(self@),
        ensures
            exists|lid: LineID, sw: u32, ew: u32, st: Time|
                #![trigger drawn_leg(self@.lines[lid], lid, sw, ew, st)]
                {
                    &&& lid < self@.next_line
                    &&& sw + 3 <= ew < self@.lines[lid].total()
                    &&& FIRST_TRIP_START <= st < LAST_TRIP_START
                    &&& trip@ == seq![drawn_leg(self@.lines[lid], lid, sw, ew, st)]
                },
    {
        let num_lines = self.next_line;
        let line_start = draw_in_range(0, num_lines);
        proof {
            assert(self@.lines.contains_key(line_start));
        }
        let stations_weights = self.line_tables.get(&line_start).unwrap().get_total_weight();
        let start_weight = draw_in_range(0, stations_weights - 3);
        let end_weight = draw_in_range(start_weight + 3, stations_weights);
        let start_time = draw_in_range(FIRST_TRIP_START, LAST_TRIP_START);
        proof {
            let l = self@.lines[line_start];
            l.lemma_acc_weights();
            l.lemma_station_for_weight_monotone(start_weight, end_weight);
        }
        self.trip_from_draws(line_start, start_weight, end_weight, start_time)
    }
}

} // verus!
