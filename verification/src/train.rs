use vstd::prelude::*;
use vstd::multiset::Multiset;
use std::collections::HashMap;
use std::collections::VecDeque;
use crate::custom_types::{Distance, LineID, Passenger, StationID, Time, TrainID};
use crate::schedule::Event;

verus! {

broadcast use vstd::std_specs::hash::group_hash_axioms;

/// Passenger `p` gets off at station `sid`.
pub open spec fn leaves_at(sid: StationID) -> spec_fn(Passenger) -> bool {
    |p: Passenger| p.2 == sid
}

/// Passenger `p` waits for a train of line `lid`.
pub open spec fn rides(lid: LineID) -> spec_fn(Passenger) -> bool {
    |p: Passenger| p.3 == lid
}

/// The passengers for which `pred` does not hold.
pub open spec fn negation(pred: spec_fn(Passenger) -> bool) -> spec_fn(Passenger) -> bool {
    |p: Passenger| !pred(p)
}

/// The event of passenger `p` getting off train `tid` at its destination.
pub open spec fn unboard_event(p: Passenger, tid: TrainID) -> Event {
    Event::HumanUnboardTrain { hid: p.0, lid: p.3, sid: p.2, tid, trid: p.5 }
}

/// The event of passenger `p` getting on train `tid` where it waits.
pub open spec fn board_event(p: Passenger, tid: TrainID) -> Event {
    Event::HumanBoardTrain { hid: p.0, lid: p.3, sid: p.1, tid, trid: p.5 }
}

/// The passengers of `on_board` that get off at `sid`, in order.
pub open spec fn alighting(on_board: Seq<Passenger>, sid: StationID) -> Seq<Passenger> {
    on_board.filter(leaves_at(sid))
}

/// The passengers of `on_board` that stay on at `sid`, in order.
pub open spec fn staying(on_board: Seq<Passenger>, sid: StationID) -> Seq<Passenger> {
    on_board.filter(negation(leaves_at(sid)))
}

/// `s` turned left by `k` places: its first `k` items move to the end.
pub open spec fn rotate(s: Seq<Passenger>, k: int) -> Seq<Passenger> {
    s.skip(k) + s.take(k)
}

/// How many waiting passengers a departing train looks at: at most `cap`.
pub open spec fn examined(waiting: Seq<Passenger>, cap: nat) -> nat {
    if waiting.len() < cap { waiting.len() } else { cap }
}

/// The passengers of `waiting` that board a train of line `lid` looking at
/// no more than `cap` of them, in order.
pub open spec fn boarders(waiting: Seq<Passenger>, lid: LineID, cap: nat) -> Seq<Passenger> {
    waiting.take(examined(waiting, cap) as int).filter(rides(lid))
}

/// The queue a departing train of line `lid` leaves at the station.  The
/// train looks at the first `cap` waiting passengers (all of them when
/// fewer wait) and takes those of its line; the others go to the back in
/// their order.  With looks to spare, it keeps cycling the queue: each spare
/// look moves the front passenger to the back.
pub open spec fn left_waiting(waiting: Seq<Passenger>, lid: LineID, cap: nat) -> Seq<Passenger> {
    let n = examined(waiting, cap);
    let rest = waiting.skip(n as int) + waiting.take(n as int).filter(negation(rides(lid)));
    if waiting.len() <= cap && rest.len() > 0 {
        rotate(rest, ((cap - waiting.len()) as nat % rest.len()) as int)
    } else {
        rest
    }
}

/// Filtering the first `i + 1` items adds item `i` when it passes.
pub proof fn lemma_filter_take_step(s: Seq<Passenger>, pred: spec_fn(Passenger) -> bool, i: int)
    requires
        0 <= i < s.len(),
    ensures
        s.take(i + 1).filter(pred) == if pred(s[i]) {
            s.take(i).filter(pred).push(s[i])
        } else {
            s.take(i).filter(pred)
        },
{
    reveal_with_fuel(Seq::filter, 1);
    assert(s.take(i + 1).drop_last() =~= s.take(i));
}

/// Splitting a sequence by a predicate loses and gains nothing.
pub proof fn lemma_filter_split(s: Seq<Passenger>, pred: spec_fn(Passenger) -> bool)
    ensures
        s.filter(pred).to_multiset().add(s.filter(negation(pred)).to_multiset()) == s.to_multiset(),
    decreases s.len(),
{
    broadcast use vstd::seq_lib::group_to_multiset_ensures;
    reveal_with_fuel(Seq::filter, 1);
    if s.len() == 0 {
        assert(s.filter(pred).to_multiset() =~= Multiset::empty());
        assert(s.filter(negation(pred)).to_multiset() =~= Multiset::empty());
        assert(s.to_multiset() =~= Multiset::empty());
    } else {
        lemma_filter_split(s.drop_last(), pred);
        assert(s =~= s.drop_last().push(s.last()));
        assert(s.filter(pred).to_multiset().add(s.filter(negation(pred)).to_multiset())
            =~= s.drop_last().to_multiset().insert(s.last()));
    }
}

/// A train running on a line, with the passengers on board.
pub struct Train {
    id: TrainID,
    line: LineID,
    /// The train runs at this constant speed once it starts.
    pub speed: u32,
    state: TrainState,
    /// The passengers on board, in boarding order.
    pub passengers_queue: VecDeque<Passenger>,
}

/// Where a train is.
enum TrainState {
    /// Stopped at a station since a point of time.
    StopInStation { sid: StationID, since: Time },
    /// Running on the track after a station.
    RunOnTrail { sid: StationID, since: Time },
    /// Departed from the last station of its line.
    Finished { since: Time },
}

impl Train {
    /// The train's identifier.
    pub closed spec fn train_id(&self) -> TrainID {
        self.id
    }

    /// The line the train runs on.
    pub closed spec fn line_id(&self) -> LineID {
        self.line
    }

    /// The train's speed.
    pub closed spec fn train_speed(&self) -> u32 {
        self.speed
    }

    /// The passengers on board, in boarding order.
    pub closed spec fn passengers(&self) -> Seq<Passenger> {
        self.passengers_queue@
    }

    /// The train stands at station `sid` since time `since`.
    pub closed spec fn is_stopped_at(&self, sid: StationID, since: Time) -> bool {
        self.state == TrainState::StopInStation { sid, since }
    }

    /// A train `id` of line `line`, standing at station `sid` since `time`,
    /// with no passenger on board.
    pub fn new(id: TrainID, line: LineID, speed: u32, sid: StationID, time: Time) -> (t: Train)
        ensures
            t.train_id() == id,
            t.line_id() == line,
            t.train_speed() == speed,
            t.is_stopped_at(sid, time),
            t.passengers() == Seq::<Passenger>::empty(),
    {
        Train {
            id,
            line,
            speed,
            state: TrainState::StopInStation { sid: sid, since: time },
            passengers_queue: VecDeque::new(),
        }
    }

    /// `other` is this train apart from the passengers on board.
    pub open spec fn same_apart_from_passengers(&self, other: &Train) -> bool {
        &&& self.train_id() == other.train_id()
        &&& self.line_id() == other.line_id()
        &&& self.train_speed() == other.train_speed()
        &&& self.same_position(other)
    }

    /// `other` is where this train is.
    pub closed spec fn same_position(&self, other: &Train) -> bool {
        self.state == other.state
    }

    /// The train's speed.
    pub fn get_speed(&self) -> (s: u32)
        ensures
            s == self.train_speed(),
    {
        self.speed
    }

    /// Lets off, as train `tid`, the passengers whose destination is `sid`;
    /// the others stay on in their order.  Returns the events of those who
    /// got off, in order.
    pub fn unload_at(&mut self, sid: StationID, tid: TrainID) -> (events: Vec<Event>)
        ensures
            final(self).same_apart_from_passengers(old(self)),
            final(self).passengers() == staying(old(self).passengers(), sid),
            events@ == alighting(old(self).passengers(), sid).map_values(|p: Passenger| unboard_event(p, tid)),
    {
        let ghost q0 = self.passengers_queue@;
        let n = self.passengers_queue.len();
        let mut events: Vec<Event> = Vec::new();
        let mut i: usize = 0;
        while i < n
            invariant
                n == q0.len(),
                i <= n,
                self.same_apart_from_passengers(old(self)),
                q0 == old(self).passengers_queue@,
                self.passengers_queue@ == q0.skip(i as int) + q0.take(i as int).filter(negation(leaves_at(sid))),
                events@ == q0.take(i as int).filter(leaves_at(sid)).map_values(|p: Passenger| unboard_event(p, tid)),
            decreases n - i,
        {
            proof {
                lemma_filter_take_step(q0, leaves_at(sid), i as int);
                lemma_filter_take_step(q0, negation(leaves_at(sid)), i as int);
                assert(q0.skip(i as int)[0] == q0[i as int]);
            }
            let p = self.passengers_queue.pop_front().unwrap();
            if p.2 == sid {
                events.push(Event::HumanUnboardTrain { hid: p.0, lid: p.3, sid: p.2, tid, trid: p.5 });
            } else {
                self.passengers_queue.push_back(p);
            }
            proof {
                assert(q0.skip(i as int).subrange(1, q0.skip(i as int).len() as int) =~= q0.skip(i + 1));
                assert(self.passengers_queue@ =~= q0.skip(i + 1) + q0.take(i + 1).filter(negation(leaves_at(sid))));
                assert(events@ =~= q0.take(i + 1).filter(leaves_at(sid)).map_values(|p: Passenger| unboard_event(p, tid)));
            }
            i = i + 1;
        }
        proof {
            assert(q0.take(n as int) =~= q0);
            assert(q0.skip(n as int) =~= Seq::<Passenger>::empty());
            assert(self.passengers_queue@ =~= q0.filter(negation(leaves_at(sid))));
        }
        events
    }

    /// Takes on, as train `tid` of line `lid`, the passengers waiting at
    /// `station` for line `lid` among the first `cap` in the queue; see
    /// `left_waiting` for the queue it leaves.  Returns the events of those
    /// who got on, in order.
    pub fn board_from(&mut self, station: &mut Station, lid: LineID, tid: TrainID, cap: usize) -> (events: Vec<Event>)
        ensures
            final(self).same_apart_from_passengers(old(self)),
            final(station).same_apart_from_waiting(old(station)),
            final(self).passengers() == old(self).passengers() + boarders(old(station).waiting(), lid, cap as nat),
            final(station).waiting() == left_waiting(old(station).waiting(), lid, cap as nat),
            events@ == boarders(old(station).waiting(), lid, cap as nat).map_values(|p: Passenger| board_event(p, tid)),
    {
        let ghost w0 = station.wait_queue@;
        let ghost t0 = self.passengers_queue@;
        let len = station.wait_queue.len();
        let n: usize = if len < cap { len } else { cap };
        let mut events: Vec<Event> = Vec::new();
        let mut i: usize = 0;
        while i < n
            invariant
                n == examined(w0, cap as nat),
                len == w0.len(),
                i <= n,
                self.same_apart_from_passengers(old(self)),
                station.same_apart_from_waiting(old(station)),
                w0 == old(station).wait_queue@,
                t0 == old(self).passengers_queue@,
                station.wait_queue@ == w0.skip(i as int) + w0.take(i as int).filter(negation(rides(lid))),
                self.passengers_queue@ == t0 + w0.take(i as int).filter(rides(lid)),
                events@ == w0.take(i as int).filter(rides(lid)).map_values(|p: Passenger| board_event(p, tid)),
            decreases n - i,
        {
            proof {
                lemma_filter_take_step(w0, rides(lid), i as int);
                lemma_filter_take_step(w0, negation(rides(lid)), i as int);
                assert(w0.skip(i as int)[0] == w0[i as int]);
            }
            let p = station.wait_queue.pop_front().unwrap();
            if p.3 == lid {
                self.passengers_queue.push_back(p);
                events.push(Event::HumanBoardTrain { hid: p.0, lid: p.3, sid: p.1, tid, trid: p.5 });
            } else {
                station.wait_queue.push_back(p);
            }
            proof {
                assert(w0.skip(i as int).subrange(1, w0.skip(i as int).len() as int) =~= w0.skip(i + 1));
                assert(station.wait_queue@ =~= w0.skip(i + 1) + w0.take(i + 1).filter(negation(rides(lid))));
                assert(self.passengers_queue@ =~= t0 + w0.take(i + 1).filter(rides(lid)));
                assert(events@ =~= w0.take(i + 1).filter(rides(lid)).map_values(|p: Passenger| board_event(p, tid)));
            }
            i = i + 1;
        }
        let ghost rest = station.wait_queue@;
        let r = station.wait_queue.len();
        if len <= cap && r > 0 {
            let spare = cap - len;
            let mut j: usize = 0;
            let mut k: usize = 0;
            while j < spare
                invariant
                    r == rest.len(),
                    r > 0,
                    j <= spare,
                    k < r,
                    k as int == (j as int) % (r as int),
                    station.same_apart_from_waiting(old(station)),
                    station.wait_queue@ == rotate(rest, k as int),
                decreases spare - j,
            {
                let p = station.wait_queue.pop_front().unwrap();
                station.wait_queue.push_back(p);
                proof {
                    assert(p == rest[k as int]);
                    let k1: int = if k + 1 < r { k + 1 } else { 0 };
                    assert(station.wait_queue@ =~= rotate(rest, k1)) by {
                        if k + 1 == r {
                            assert(rest.skip(r as int) =~= Seq::<Passenger>::empty());
                            assert(rest.take(r as int) =~= rest);
                        }
                    }
                    assert(k1 == (j as int + 1) % (r as int)) by (nonlinear_arith)
                        requires
                            k as int == (j as int) % (r as int),
                            r > 0,
                            j >= 0,
                            k1 == if k + 1 < r { k + 1 } else { 0 },
                            k < r;
                }
                k = if k + 1 < r { k + 1 } else { 0 };
                j = j + 1;
            }
        }
        proof {
            assert(w0.take(n as int).len() == n);
        }
        events
    }

    /// Takes note of an event concerning the train; the train's state does not
    /// depend on events yet, so nothing changes.
    pub fn update_state(&mut self, event: Event)
        ensures
            *final(self) == *old(self),
    {
    }
}

/// A station, with the passengers waiting on its platforms.
pub struct Station {
    id: StationID,
    name: String,
    corx: Distance,
    cory: Distance,
    /// The waiting passengers, in order of arrival.
    pub wait_queue: VecDeque<Passenger>,
}

impl Station {
    /// The station's identifier.
    pub closed spec fn station_id(&self) -> StationID {
        self.id
    }

    /// The station's name.
    pub closed spec fn station_name(&self) -> Seq<char> {
        self.name@
    }

    /// The passengers waiting at the station, in order of arrival.
    pub closed spec fn waiting(&self) -> Seq<Passenger> {
        self.wait_queue@
    }

    /// `other` is this station apart from the passengers waiting.
    pub open spec fn same_apart_from_waiting(&self, other: &Station) -> bool {
        &&& self.station_id() == other.station_id()
        &&& self.station_name() == other.station_name()
        &&& self.coordinates() == other.coordinates()
    }

    /// Puts passenger `p` at the back of the queue.
    pub fn join_queue(&mut self, p: Passenger)
        ensures
            final(self).same_apart_from_waiting(old(self)),
            final(self).waiting() == old(self).waiting().push(p),
    {
        self.wait_queue.push_back(p);
    }

    /// The station's coordinates on the map.
    pub closed spec fn coordinates(&self) -> (Distance, Distance) {
        (self.corx, self.cory)
    }

    /// A station `id` named `name` at (`corx`, `cory`), with nobody waiting.
    pub fn new(id: StationID, name: String, corx: Distance, cory: Distance) -> (s: Station)
        ensures
            s.station_id() == id,
            s.station_name() == name@,
            s.coordinates() == (corx, cory),
            s.waiting() == Seq::<Passenger>::empty(),
    {
        Station { id, name, corx, cory, wait_queue: VecDeque::new() }
    }
}

/// The time table of one station on a line: how long trains stop there, how
/// much the station weighs when trips are drawn, and which station follows.
pub struct StationTimeTable {
    pub id: StationID,
    pub stop_time: Time,
    pub weight: u32,
    pub distance_next: Option<Distance>,
    pub station_next: Option<StationID>,
}

impl StationTimeTable {
    /// The time table of station `id`.
    pub fn new(
        id: StationID,
        stop_time: Time,
        weight: u32,
        dn: Option<Distance>,
        sn: Option<StationID>,
    ) -> (t: StationTimeTable)
        ensures
            t.id == id,
            t.stop_time == stop_time,
            t.weight == weight,
            t.distance_next == dn,
            t.station_next == sn,
    {
        StationTimeTable { weight, id, stop_time, distance_next: dn, station_next: sn }
    }
}

/// A line: its stations in order, their time tables, the times at which new
/// trains start, and the running sums of the station weights.
pub struct LineTimeTable {
    id: LineID,
    name: String,
    /// The sum of the weights of all stations on the line.
    pub total_weight: u32,
    speed: u32,
    /// The stations of the line, in order.
    pub stations: Vec<StationID>,
    new_train_times: Vec<Time>,
    station_acc_weights: Vec<u32>,
    station_tables: HashMap<StationID, StationTimeTable>,
}

/// Index `i` is the first whose running weight sum reaches `w`.
pub open spec fn reaches_first(acc: Seq<u32>, w: u32, i: int) -> bool {
    &&& 0 <= i < acc.len()
    &&& acc[i] >= w
    &&& forall|j: int| 0 <= j < i ==> acc[j] < w
}

/// Some running weight sum reaches `w`.
pub open spec fn weight_reached(acc: Seq<u32>, w: u32) -> bool {
    exists|i: int| 0 <= i < acc.len() && acc[i] >= w
}

/// At most one index is the first to reach `w`.
pub proof fn lemma_reaches_first_unique(acc: Seq<u32>, w: u32, i: int, j: int)
    requires
        reaches_first(acc, w, i),
        reaches_first(acc, w, j),
    ensures
        i == j,
{
}

/// When a sum at or before `k` reaches `w`, a first one does.
pub proof fn lemma_reaches_first_exists(acc: Seq<u32>, w: u32, k: int)
    requires
        0 <= k < acc.len(),
        acc[k] >= w,
    ensures
        exists|i: int| reaches_first(acc, w, i) && i <= k,
    decreases k,
{
    if exists|j: int| 0 <= j < k && acc[j] >= w {
        let j = choose|j: int| 0 <= j < k && acc[j] >= w;
        lemma_reaches_first_exists(acc, w, j);
    } else {
        assert(reaches_first(acc, w, k));
    }
}

/// A change that one call of a mutating method makes to a line.
pub enum LineChange {
    /// `add_station` with this station time table.
    AddStation(StationTimeTable),
    /// `add_new_traintime` with this start time.
    AddTrainTime(Time),
}

/// `post` is `pre` after the change `c`.
pub open spec fn line_changed(pre: LineTimeTable, post: LineTimeTable, c: LineChange) -> bool {
    &&& post.line_id() == pre.line_id()
    &&& post.line_name() == pre.line_name()
    &&& post.line_speed() == pre.line_speed()
    &&& match c {
        LineChange::AddStation(stt) => {
            &&& post.line_stations() == pre.line_stations().push(stt.id)
            &&& post.total() == pre.total() + stt.weight
            &&& post.acc_weights() == pre.acc_weights().push(post.total())
            &&& post.tables() == pre.tables().insert(stt.id, stt)
            &&& post.train_times() == pre.train_times()
        },
        LineChange::AddTrainTime(t) => {
            &&& post.train_times() == pre.train_times().push(t)
            &&& post.line_stations() == pre.line_stations()
            &&& post.total() == pre.total()
            &&& post.acc_weights() == pre.acc_weights()
            &&& post.tables() == pre.tables()
        },
    }
}

/// `states` are the successive values of a line under the `changes`, one
/// change between each two values.
pub open spec fn line_history(states: Seq<LineTimeTable>, changes: Seq<LineChange>) -> bool {
    &&& states.len() == changes.len() + 1
    &&& forall|i: int| 0 <= i < changes.len() ==> line_changed(#[trigger] states[i], states[i + 1], changes[i])
}

/// A history cut after its first `k` changes is a history.
proof fn lemma_history_prefix(states: Seq<LineTimeTable>, changes: Seq<LineChange>, k: int)
    requires
        line_history(states, changes),
        0 <= k <= changes.len(),
    ensures
        line_history(states.take(k + 1), changes.take(k)),
{
    assert forall|i: int| 0 <= i < changes.take(k).len() implies line_changed(
        #[trigger] states.take(k + 1)[i],
        states.take(k + 1)[i + 1],
        changes.take(k)[i],
    ) by {
        assert(line_changed(states[i], states[i + 1], changes[i]));
    }
}

/// A line keeps its identifier, name and default train speed whatever is
/// added to it: after `LineTimeTable::new(id, name, speed)` and any stations
/// and train times, `get_speed()` is still `speed`.
pub proof fn lemma_history_keeps_line(states: Seq<LineTimeTable>, changes: Seq<LineChange>)
    requires
        line_history(states, changes),
    ensures
        states.last().line_speed() == states[0].line_speed(),
        states.last().line_id() == states[0].line_id(),
        states.last().line_name() == states[0].line_name(),
    decreases changes.len(),
{
    if changes.len() > 0 {
        let k = changes.len() - 1;
        lemma_history_prefix(states, changes, k);
        lemma_history_keeps_line(states.take(k + 1), changes.take(k));
        assert(line_changed(states[k], states[k + 1], changes[k]));
    }
}

/// Stations are only ever appended: the stations a line had stay at their
/// places, so in particular the first station added stays the first
/// (`get_first_station`).
pub proof fn lemma_history_keeps_stations(states: Seq<LineTimeTable>, changes: Seq<LineChange>)
    requires
        line_history(states, changes),
    ensures
        states[0].line_stations().len() <= states.last().line_stations().len(),
        forall|i: int| 0 <= i < states[0].line_stations().len() ==> #[trigger] states.last().line_stations()[i] == states[0].line_stations()[i],
    decreases changes.len(),
{
    if changes.len() > 0 {
        let k = changes.len() - 1;
        lemma_history_prefix(states, changes, k);
        lemma_history_keeps_stations(states.take(k + 1), changes.take(k));
        assert(line_changed(states[k], states[k + 1], changes[k]));
        assert forall|i: int| 0 <= i < states[0].line_stations().len() implies #[trigger] states.last().line_stations()[i] == states[0].line_stations()[i] by {
            assert(states.take(k + 1).last() == states[k]);
            assert(states[k].line_stations()[i] == states[0].line_stations()[i]);
        }
    }
}

/// The time table a line holds for station `stt.id` stays `stt` as long as
/// no later change adds a station with that identifier: after
/// `add_station(stt)`, `get_stop_time`, `get_next_station` and `get_dis_next`
/// of `stt.id` give `stt`'s stop time, next station and distance.
pub proof fn lemma_history_keeps_table(states: Seq<LineTimeTable>, changes: Seq<LineChange>, stt: StationTimeTable)
    requires
        line_history(states, changes),
        states[0].tables().contains_key(stt.id),
        states[0].tables()[stt.id] == stt,
        forall|i: int| 0 <= i < changes.len() ==> (#[trigger] changes[i] matches LineChange::AddStation(s) ==> s.id != stt.id),
    ensures
        states.last().tables().contains_key(stt.id),
        states.last().tables()[stt.id] == stt,
        states.last().tables()[stt.id].stop_time == stt.stop_time,
        states.last().tables()[stt.id].station_next == stt.station_next,
        states.last().tables()[stt.id].distance_next == stt.distance_next,
    decreases changes.len(),
{
    if changes.len() > 0 {
        let k = changes.len() - 1;
        lemma_history_prefix(states, changes, k);
        assert forall|i: int| 0 <= i < changes.take(k).len() implies (#[trigger] changes.take(k)[i] matches LineChange::AddStation(s) ==> s.id != stt.id) by {
            assert(changes.take(k)[i] == changes[i]);
        }
        lemma_history_keeps_table(states.take(k + 1), changes.take(k), stt);
        assert(line_changed(states[k], states[k + 1], changes[k]));
        assert(states.take(k + 1).last() == states[k]);
        assert(changes[k] matches LineChange::AddStation(s) ==> s.id != stt.id);
    }
}

/// `s` never decreases.
pub open spec fn nondecreasing(s: Seq<u32>) -> bool {
    forall|i: int, j: int| 0 <= i <= j < s.len() ==> s[i] <= s[j]
}

impl LineTimeTable {
    /// The line's identifier.
    pub closed spec fn line_id(&self) -> LineID {
        self.id
    }

    /// The line's name.
    pub closed spec fn line_name(&self) -> Seq<char> {
        self.name@
    }

    /// The stations of the line, in order.
    pub closed spec fn line_stations(&self) -> Seq<StationID> {
        self.stations@
    }

    /// The sum of the weights of the line's stations.
    pub closed spec fn total(&self) -> u32 {
        self.total_weight
    }

    /// The default speed of the line's trains.
    pub closed spec fn line_speed(&self) -> u32 {
        self.speed
    }

    /// The times at which new trains start on the line.
    pub closed spec fn train_times(&self) -> Seq<Time> {
        self.new_train_times@
    }

    /// Entry `i` is the sum of the weights of stations `0..=i`.
    pub closed spec fn acc_weights(&self) -> Seq<u32> {
        self.station_acc_weights@
    }

    /// The time table of each station of the line.
    pub closed spec fn tables(&self) -> Map<StationID, StationTimeTable> {
        self.station_tables@
    }

    /// The index and the station that `find_station_weight(w)` gives: the first
    /// station whose running weight sum reaches `w`, or (0, 0) when none does.
    pub open spec fn station_for_weight(&self, w: u32) -> (int, StationID) {
        if weight_reached(self.acc_weights(), w) {
            let i = choose|i: int| reaches_first(self.acc_weights(), w, i);
            (i, self.line_stations()[i])
        } else {
            (0, 0)
        }
    }

    /// The line is well formed: one running sum per station, the sums never
    /// decrease, the last one is the total weight, and every station has a
    /// time table.
    pub closed spec fn wf(&self) -> bool {
        &&& self.station_acc_weights@.len() == self.stations@.len()
        &&& nondecreasing(self.station_acc_weights@)
        &&& if self.stations@.len() == 0 {
            self.total_weight == 0
        } else {
            self.station_acc_weights@.last() == self.total_weight
        }
        &&& forall|i: int| 0 <= i < self.stations@.len() ==> self.station_tables@.contains_key(#[trigger] self.stations@[i])
    }

    /// The running sums do not decrease and the last equals the total weight.
    pub proof fn lemma_acc_weights(&self)
        requires
            self.wf(),
        ensures
            self.acc_weights().len() == self.line_stations().len(),
            nondecreasing(self.acc_weights()),
            self.line_stations().len() > 0 ==> self.acc_weights().last() == self.total(),
            self.line_stations().len() == 0 ==> self.total() == 0,
            forall|i: int| 0 <= i < self.line_stations().len() ==> self.tables().contains_key(#[trigger] self.line_stations()[i]),
    {
    }

    /// An empty line `id` named `name` whose trains run at `speed`.
    pub fn new(id: LineID, name: String, speed: u32) -> (l: LineTimeTable)
        ensures
            l.wf(),
            l.line_id() == id,
            l.line_name() == name@,
            l.line_speed() == speed,
            l.total() == 0,
            l.line_stations() == Seq::<StationID>::empty(),
            l.train_times() == Seq::<Time>::empty(),
            l.acc_weights() == Seq::<u32>::empty(),
            l.tables() == Map::<StationID, StationTimeTable>::empty(),
    {
        LineTimeTable {
            id: id,
            name: name,
            total_weight: 0,
            speed: speed,
            stations: Vec::new(),
            new_train_times: Vec::new(),
            station_acc_weights: Vec::new(),
            station_tables: HashMap::new(),
        }
    }

    /// Appends the station of `stt` to the end of the line.
    pub fn add_station(&mut self, stt: StationTimeTable)
        requires
            old(self).total() + stt.weight <= u32::MAX,
        ensures
            old(self).wf() ==> final(self).wf(),
            final(self).line_stations() == old(self).line_stations().push(stt.id),
            final(self).total() == old(self).total() + stt.weight,
            final(self).acc_weights() == old(self).acc_weights().push(final(self).total()),
            final(self).tables() == old(self).tables().insert(stt.id, stt),
            final(self).line_id() == old(self).line_id(),
            final(self).line_name() == old(self).line_name(),
            final(self).line_speed() == old(self).line_speed(),
            final(self).train_times() == old(self).train_times(),
            line_changed(*old(self), *final(self), LineChange::AddStation(stt)),
    {
        self.stations.push(stt.id);
        self.total_weight = self.total_weight + stt.weight;
        self.station_acc_weights.push(self.total_weight);
        self.station_tables.insert(stt.id, stt);
        proof {
            if old(self).wf() {
                assert forall|i: int| 0 <= i < self.stations@.len() implies self.station_tables@.contains_key(#[trigger] self.stations@[i]) by {
                    if i < old(self).line_stations().len() {
                        assert(old(self).line_stations()[i] == self.stations@[i]);
                    }
                }
            }
        }
    }

    /// The first station whose running weight sum reaches `weight`, with its
    /// index; (0, 0) when no station does.
    pub fn find_station_weight(&self, weight: u32) -> (r: (usize, StationID))
        requires
            forall|i: int| reaches_first(self.acc_weights(), weight, i) ==> i < self.line_stations().len(),
        ensures
            (exists|i: int| 0 <= i < self.acc_weights().len() && self.acc_weights()[i] >= weight) ==> {
                &&& r.0 < self.line_stations().len()
                &&& self.acc_weights()[r.0 as int] >= weight
                &&& forall|j: int| 0 <= j < r.0 ==> self.acc_weights()[j] < weight
                &&& r.1 == self.line_stations()[r.0 as int]
            },
            !(exists|i: int| 0 <= i < self.acc_weights().len() && self.acc_weights()[i] >= weight) ==> r == (0usize, 0u32),
            r.0 as int == self.station_for_weight(weight).0,
            r.1 == self.station_for_weight(weight).1,
    {
        let mut idx: usize = 0;
        while idx < self.station_acc_weights.len()
            invariant
                forall|i: int| reaches_first(self.acc_weights(), weight, i) ==> i < self.line_stations().len(),
                idx <= self.station_acc_weights@.len(),
                forall|j: int| 0 <= j < idx ==> self.station_acc_weights@[j] < weight,
            decreases self.station_acc_weights@.len() - idx,
        {
            if self.station_acc_weights[idx] >= weight {
                proof {
                    assert(self.acc_weights()[idx as int] >= weight);
                    assert(reaches_first(self.acc_weights(), weight, idx as int));
                    let c = choose|i: int| reaches_first(self.acc_weights(), weight, i);
                    lemma_reaches_first_unique(self.acc_weights(), weight, c, idx as int);
                    assert(idx < self.line_stations().len());
                }
                return (idx, self.stations[idx]);
            }
            idx = idx + 1;
        }
        (0, 0)
    }

    /// A larger weight is reached no earlier on the line: `find_station_weight`
    /// is monotone in the weight, for every weight up to the total weight.
    pub proof fn lemma_station_for_weight_monotone(&self, w1: u32, w2: u32)
        requires
            self.wf(),
            self.line_stations().len() > 0,
            w1 <= w2 <= self.total(),
        ensures
            0 <= self.station_for_weight(w1).0 <= self.station_for_weight(w2).0 < self.line_stations().len(),
            reaches_first(self.acc_weights(), w1, self.station_for_weight(w1).0),
            reaches_first(self.acc_weights(), w2, self.station_for_weight(w2).0),
    {
        let acc = self.acc_weights();
        let last = acc.len() - 1;
        lemma_reaches_first_exists(acc, w2, last);
        lemma_reaches_first_exists(acc, w1, last);
        let i1 = self.station_for_weight(w1).0;
        let i2 = self.station_for_weight(w2).0;
        assert(reaches_first(acc, w1, i1));
        assert(reaches_first(acc, w2, i2));
        if i2 < i1 {
            assert(acc[i2] >= w1);
        }
    }

    /// Adds a start time for a new train on the line.
    pub fn add_new_traintime(&mut self, time: Time)
        ensures
            final(self).train_times() == old(self).train_times().push(time),
            final(self).line_stations() == old(self).line_stations(),
            final(self).total() == old(self).total(),
            final(self).acc_weights() == old(self).acc_weights(),
            final(self).tables() == old(self).tables(),
            final(self).line_id() == old(self).line_id(),
            final(self).line_name() == old(self).line_name(),
            final(self).line_speed() == old(self).line_speed(),
            old(self).wf() ==> final(self).wf(),
            line_changed(*old(self), *final(self), LineChange::AddTrainTime(time)),
    {
        self.new_train_times.push(time);
    }

    /// How long trains stop at station `sid`.
    pub fn get_stop_time(&self, sid: StationID) -> (t: Time)
        requires
            self.tables().contains_key(sid),
        ensures
            t == self.tables()[sid].stop_time,
    {
        self.station_tables.get(&sid).unwrap().stop_time
    }

    /// The station after `sid` on the line, if any.
    pub fn get_next_station(&self, sid: StationID) -> (n: Option<StationID>)
        requires
            self.tables().contains_key(sid),
        ensures
            n == self.tables()[sid].station_next,
    {
        self.station_tables.get(&sid).unwrap().station_next
    }

    /// The distance from `sid` to the next station, if any.
    pub fn get_dis_next(&self, sid: StationID) -> (d: Option<Distance>)
        requires
            self.tables().contains_key(sid),
        ensures
            d == self.tables()[sid].distance_next,
    {
        self.station_tables.get(&sid).unwrap().distance_next
    }

    /// The default speed of the line's trains.
    pub fn get_speed(&self) -> (s: u32)
        ensures
            s == self.line_speed(),
    {
        self.speed
    }

    /// The sum of the weights of the line's stations.
    pub fn get_total_weight(&self) -> (w: u32)
        ensures
            w == self.total(),
    {
        self.total_weight
    }

    /// The start times of new trains.
    pub fn get_new_times(&self) -> (v: &Vec<Time>)
        ensures
            v@ == self.train_times(),
    {
        &self.new_train_times
    }

    /// The first station of the line.
    pub fn get_first_station(&self) -> (s: StationID)
        requires
            self.line_stations().len() > 0,
        ensures
            s == self.line_stations()[0],
    {
        self.stations[0]
    }

    /// The station before `sid` on the line; `None` for the first station.
    pub fn get_last_station(&self, sid: StationID) -> (p: Option<StationID>)
        requires
            self.line_stations().contains(sid),
        ensures
            sid == self.line_stations()[0] ==> p is None,
            sid != self.line_stations()[0] ==> exists|i: int|
                #![trigger self.line_stations()[i]]
                {
                    &&& 0 < i < self.line_stations().len()
                    &&& self.line_stations()[i] == sid
                    &&& forall|j: int| 0 <= j < i ==> self.line_stations()[j] != sid
                    &&& p == Some(self.line_stations()[i - 1])
                },
    {
        if sid == self.get_first_station() {
            None
        } else {
            let mut index: usize = 0;
            while index < self.stations.len() && self.stations[index] != sid
                invariant
                    index <= self.stations@.len(),
                    self.stations@.contains(sid),
                    forall|j: int| 0 <= j < index ==> self.stations@[j] != sid,
                decreases self.stations@.len() - index,
            {
                index = index + 1;
            }
            if index == self.stations.len() {
                proof {
                    let k = choose|k: int| 0 <= k < self.stations@.len() && self.stations@[k] == sid;
                    assert(self.stations@[k] == sid);
                }
            }
            assert(self.stations@[index as int] == sid);
            Some(self.stations[index - 1])
        }
    }
}

/// No passenger is lost or made up at an arrival: those who stay on and those
/// who get off at `sid` are together exactly those on board before; the ones
/// who get off are bound for `sid`, and nobody who stays on is.
pub proof fn lemma_arrival_conserves(on_board: Seq<Passenger>, sid: StationID)
    ensures
        staying(on_board, sid).to_multiset().add(alighting(on_board, sid).to_multiset()) =~= on_board.to_multiset(),
        forall|i: int| 0 <= i < alighting(on_board, sid).len() ==> (#[trigger] alighting(on_board, sid)[i]).2 == sid,
        forall|i: int| 0 <= i < staying(on_board, sid).len() ==> (#[trigger] staying(on_board, sid)[i]).2 != sid,
{
    broadcast use vstd::seq_lib::group_filter_ensures;
    lemma_filter_split(on_board, leaves_at(sid));
    assert forall|i: int| 0 <= i < alighting(on_board, sid).len() implies (#[trigger] alighting(on_board, sid)[i]).2 == sid by {
        assert(leaves_at(sid)(on_board.filter(leaves_at(sid))[i]));
    }
    assert forall|i: int| 0 <= i < staying(on_board, sid).len() implies (#[trigger] staying(on_board, sid)[i]).2 != sid by {
        assert(negation(leaves_at(sid))(on_board.filter(negation(leaves_at(sid)))[i]));
    }
}

/// No passenger is lost or made up at a departure: those who board and those
/// left waiting are together exactly those who waited before; every boarder
/// waited for the train's line, and no more than `cap` waiting passengers
/// board.
pub proof fn lemma_departure_conserves(waiting: Seq<Passenger>, lid: LineID, cap: nat)
    ensures
        left_waiting(waiting, lid, cap).to_multiset().add(boarders(waiting, lid, cap).to_multiset()) =~= waiting.to_multiset(),
        forall|i: int| 0 <= i < boarders(waiting, lid, cap).len() ==> (#[trigger] boarders(waiting, lid, cap)[i]).3 == lid,
        boarders(waiting, lid, cap).len() <= cap,
{
    broadcast use vstd::seq_lib::group_filter_ensures;
    broadcast use vstd::seq_lib::group_to_multiset_ensures;
    let n = examined(waiting, cap) as int;
    let head = waiting.take(n);
    let tail = waiting.skip(n);
    let rest = tail + head.filter(negation(rides(lid)));
    lemma_filter_split(head, rides(lid));
    assert(waiting =~= head + tail);
    vstd::seq_lib::lemma_multiset_commutative(head, tail);
    vstd::seq_lib::lemma_multiset_commutative(tail, head.filter(negation(rides(lid))));
    assert(rest.to_multiset() =~= tail.to_multiset().add(head.filter(negation(rides(lid))).to_multiset()));
    if waiting.len() <= cap && rest.len() > 0 {
        let k = ((cap - waiting.len()) as nat % rest.len()) as int;
        assert(rest =~= rest.take(k) + rest.skip(k));
        vstd::seq_lib::lemma_multiset_commutative(rest.take(k), rest.skip(k));
        vstd::seq_lib::lemma_multiset_commutative(rest.skip(k), rest.take(k));
    }
    assert(left_waiting(waiting, lid, cap).to_multiset() =~= rest.to_multiset());
    assert(head.to_multiset() =~= head.filter(rides(lid)).to_multiset().add(head.filter(negation(rides(lid))).to_multiset()));
    assert forall|i: int| 0 <= i < boarders(waiting, lid, cap).len() implies (#[trigger] boarders(waiting, lid, cap)[i]).3 == lid by {
        assert(rides(lid)(head.filter(rides(lid))[i]));
    }
}

/// Filtering a single item keeps it exactly when it passes.
proof fn lemma_filter_single(p: Passenger, pred: spec_fn(Passenger) -> bool)
    ensures
        seq![p].filter(pred) == if pred(p) { seq![p] } else { Seq::<Passenger>::empty() },
{
    reveal_with_fuel(Seq::filter, 2);
    assert(seq![p].drop_last() =~= Seq::<Passenger>::empty());
    assert(seq![p].last() == p);
    if pred(p) {
        assert(Seq::<Passenger>::empty().push(p) =~= seq![p]);
    }
}

/// At an arrival the passengers are sorted one by one, in boarding order:
/// for a train whose passengers are `q1` followed by `q2`, those who stay on
/// are the ones of `q1` who stay on followed by the ones of `q2` who stay on,
/// and likewise for those who get off; a single passenger stays on exactly
/// when it is not bound for `sid`, and gets off exactly when it is.  So the
/// passengers who stay on keep their order, as do those who get off.
pub proof fn lemma_unloading_keeps_order(q1: Seq<Passenger>, q2: Seq<Passenger>, p: Passenger, sid: StationID)
    ensures
        staying(q1 + q2, sid) == staying(q1, sid) + staying(q2, sid),
        alighting(q1 + q2, sid) == alighting(q1, sid) + alighting(q2, sid),
        staying(seq![p], sid) == if p.2 != sid { seq![p] } else { Seq::<Passenger>::empty() },
        alighting(seq![p], sid) == if p.2 == sid { seq![p] } else { Seq::<Passenger>::empty() },
        staying(Seq::<Passenger>::empty(), sid) == Seq::<Passenger>::empty(),
        alighting(Seq::<Passenger>::empty(), sid) == Seq::<Passenger>::empty(),
{
    Seq::filter_distributes_over_add(q1, q2, negation(leaves_at(sid)));
    Seq::filter_distributes_over_add(q1, q2, leaves_at(sid));
    lemma_filter_single(p, negation(leaves_at(sid)));
    lemma_filter_single(p, leaves_at(sid));
    reveal_with_fuel(Seq::filter, 1);
}

/// At a departure the waiting passengers are looked at one by one, in queue
/// order, up to `cap` of them: within the looked-at part, those who board from
/// a queue `w1` followed by `w2` are the boarders of `w1` followed by those of
/// `w2`; a single passenger boards exactly when it waits for line `lid`; and
/// passengers after the first `cap` do not change who boards.  So boarders
/// keep their queue order.
pub proof fn lemma_boarding_keeps_order(w1: Seq<Passenger>, w2: Seq<Passenger>, p: Passenger, lid: LineID, cap: nat)
    ensures
        w1.len() + w2.len() <= cap ==> boarders(w1 + w2, lid, cap) == boarders(w1, lid, cap) + boarders(w2, lid, cap),
        cap >= 1 ==> boarders(seq![p], lid, cap) == if p.3 == lid { seq![p] } else { Seq::<Passenger>::empty() },
        w1.len() > cap ==> boarders(w1, lid, cap) == boarders(w1.take(cap as int), lid, cap),
{
    if w1.len() + w2.len() <= cap {
        assert((w1 + w2).take((w1 + w2).len() as int) =~= w1 + w2);
        assert(w1.take(w1.len() as int) =~= w1);
        assert(w2.take(w2.len() as int) =~= w2);
        Seq::filter_distributes_over_add(w1, w2, rides(lid));
    }
    if cap >= 1 {
        assert(seq![p].take(1) =~= seq![p]);
        lemma_filter_single(p, rides(lid));
    }
    if w1.len() > cap {
        assert(w1.take(cap as int).take(cap as int) =~= w1.take(cap as int));
    }
}

} // verus!
