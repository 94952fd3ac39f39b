use vstd::prelude::*;
use vstd::multiset::Multiset;
use crate::custom_types::{Time, LineID, StationID, TrainID, HumanID, TripID};

verus! {

broadcast use vstd::seq_lib::group_to_multiset_ensures;

/// What can happen in the simulation at a point of time.
#[derive(PartialEq, Eq, Structural, Clone, Copy, Debug, Hash, PartialOrd, Ord)]
pub enum Event {
    /// A train leaves a station.
    TrainDeparture { lid: LineID, sid: StationID, tid: TrainID },
    /// A train reaches a station.
    TrainArrival { lid: LineID, sid: StationID, tid: TrainID },
    /// A passenger reaches a station from outside.
    HumanArriveStation { hid: HumanID, sid: StationID, lid: LineID },
    /// A passenger is through the entrance of a station and heads for a platform.
    HumanEnteredStation { hid: HumanID, sid: StationID, dsid: StationID, lid: LineID, trid: TripID },
    /// A passenger gets on a train.
    HumanBoardTrain { hid: HumanID, lid: LineID, sid: StationID, tid: TrainID, trid: TripID },
    /// A passenger gets off a train.
    HumanUnboardTrain { hid: HumanID, lid: LineID, sid: StationID, tid: TrainID, trid: TripID },
    /// A passenger leaves a station.
    HumanLeaveStation { hid: HumanID, sid: StationID },
}

/// Events waiting for their time; the earliest is handed out first.
pub struct Scheduler {
    items: Vec<(Time, Event)>,
}

/// `t` is no later than the time of any event in `m`.
pub open spec fn is_earliest(m: Multiset<(Time, Event)>, t: Time) -> bool {
    forall|p: (Time, Event)| m.contains(p) ==> t <= p.0
}

/// No event in `m` is due at `cur_time`.
pub open spec fn none_due(m: Multiset<(Time, Event)>, cur_time: Time) -> bool {
    forall|p: (Time, Event)| m.contains(p) ==> cur_time < p.0
}

/// What one call of `consume` at `cur_time` may do: turn the pending events
/// `pre` into `post` and hand out `r`.  An event is handed out exactly when one
/// is due; it is then one of the earliest, and only it leaves.
pub open spec fn consume_step(
    pre: Multiset<(Time, Event)>,
    cur_time: Time,
    r: Option<Event>,
    post: Multiset<(Time, Event)>,
) -> bool {
    match r {
        None => post == pre && none_due(pre, cur_time),
        Some(e) => exists|t: Time| #[trigger] handed_out_at(pre, cur_time, e, post, t),
    }
}

/// `consume` at `cur_time` handed out `e`, scheduled at `t`: `t` is due and
/// earliest, and that one entry left.
pub open spec fn handed_out_at(
    pre: Multiset<(Time, Event)>,
    cur_time: Time,
    e: Event,
    post: Multiset<(Time, Event)>,
    t: Time,
) -> bool {
    &&& t <= cur_time
    &&& pre.count((t, e)) > 0
    &&& is_earliest(pre, t)
    &&& post == pre.remove((t, e))
}

/// Events come out in time order: of two events handed out one after the
/// other, with nothing scheduled in between, the first is scheduled no later
/// than the second.
pub proof fn lemma_consume_in_time_order(
    m0: Multiset<(Time, Event)>,
    c1: Time,
    e1: Event,
    m1: Multiset<(Time, Event)>,
    t1: Time,
    c2: Time,
    e2: Event,
    m2: Multiset<(Time, Event)>,
    t2: Time,
)
    requires
        handed_out_at(m0, c1, e1, m1, t1),
        handed_out_at(m1, c2, e2, m2, t2),
    ensures
        t1 <= t2,
{
    assert(m1.count((t2, e2)) <= m0.count((t2, e2)));
    assert(m0.contains((t2, e2)));
}

/// What is scheduled comes out once due: with only `(t, e)` pending, `consume`
/// at `c` hands out `e` and empties the scheduler when `t <= c`, and hands out
/// nothing when `c < t`.
pub proof fn lemma_push_then_consume(t: Time, e: Event, c: Time, r: Option<Event>, post: Multiset<(Time, Event)>)
    requires
        consume_step(Multiset::empty().insert((t, e)), c, r, post),
    ensures
        t <= c ==> r == Some(e) && post =~= Multiset::<(Time, Event)>::empty(),
        c < t ==> r is None && post =~= Multiset::<(Time, Event)>::empty().insert((t, e)),
{
    let pre = Multiset::<(Time, Event)>::empty().insert((t, e));
    match r {
        None => {
            if t <= c {
                assert(pre.contains((t, e)));
            }
        },
        Some(e2) => {
            let t2 = choose|t2: Time| #[trigger] handed_out_at(pre, c, e2, post, t2);
            assert(pre.count((t2, e2)) > 0);
            assert((t2, e2) == (t, e));
            assert(post =~= Multiset::<(Time, Event)>::empty());
        },
    }
}

impl Scheduler {
    /// The pending events, each with its time.
    pub closed spec fn view(&self) -> Multiset<(Time, Event)> {
        self.items@.to_multiset()
    }

    /// A scheduler with no pending event.
    pub fn new() -> (s: Scheduler)
        ensures
            s.view() =~= Multiset::<(Time, Event)>::empty(),
    {
        Scheduler { items: Vec::new() }
    }

    /// Schedules `event` at `time`.
    pub fn push(&mut self, time: Time, event: Event)
        ensures
            final(self).view() =~= old(self).view().insert((time, event)),
    {
        self.items.push((time, event));
    }

    /// Index of an item with the smallest time; `items` is not empty.
    fn earliest_index(&self) -> (idx: usize)
        requires
            self.items.len() > 0,
        ensures
            idx < self.items.len(),
            forall|j: int| 0 <= j < self.items.len() ==> self.items@[idx as int].0 <= #[trigger] self.items@[j].0,
    {
        let mut best: usize = 0;
        let mut i: usize = 1;
        while i < self.items.len()
            invariant
                0 < i <= self.items.len(),
                best < i,
                forall|j: int| 0 <= j < i ==> self.items@[best as int].0 <= #[trigger] self.items@[j].0,
            decreases self.items.len() - i,
        {
            if self.items[i].0 < self.items[best].0 {
                best = i;
            }
            i = i + 1;
        }
        best
    }

    /// The earliest pending event with its time, if any, left in place.
    pub fn peek(&self) -> (r: Option<(Time, Event)>)
        ensures
            match r {
                None => self.view().len() == 0,
                Some(p) => self.view().count(p) > 0 && is_earliest(self.view(), p.0),
            },
    {
        if self.items.len() == 0 {
            None
        } else {
            let idx = self.earliest_index();
            let p = self.items[idx];
            proof {
                assert(self.items@[idx as int] == p);
                assert forall|q: (Time, Event)| self.view().contains(q) implies p.0 <= q.0 by {
                    let j = self.items@.index_of(q);
                    assert(self.items@[j] == q);
                }
            }
            Some(p)
        }
    }

    /// Hands out the earliest pending event if it is due at `cur_time`
    /// (its time is not after `cur_time`), and removes it; otherwise hands out
    /// nothing and leaves the events as they were.
    pub fn consume(&mut self, cur_time: Time) -> (r: Option<Event>)
        ensures
            consume_step(old(self).view(), cur_time, r, final(self).view()),
    {
        if self.items.len() == 0 {
            proof {
                assert(self.items@ =~= Seq::<(Time, Event)>::empty());
                assert(self.view() =~= Multiset::<(Time, Event)>::empty());
            }
            return None;
        }
        let idx = self.earliest_index();
        let (t, e) = self.items[idx];
        if t <= cur_time {
            let ghost pre = self.items@;
            proof {
                assert(pre[idx as int] == (t, e));
                vstd::seq_lib::to_multiset_remove(pre, idx as int);
                assert forall|q: (Time, Event)| pre.to_multiset().contains(q) implies t <= q.0 by {
                    let j = pre.index_of(q);
                    assert(pre[j] == q);
                }
            }
            self.items.remove(idx);
            proof {
                assert(self.items@ =~= pre.remove(idx as int));
                assert(pre.to_multiset().count((t, e)) > 0);
                assert(self.view() == pre.to_multiset().remove((t, e)));
                assert(handed_out_at(old(self).view(), cur_time, e, self.view(), t));
            }
            Some(e)
        } else {
            proof {
                assert forall|q: (Time, Event)| self.view().contains(q) implies cur_time < q.0 by {
                    let j = self.items@.index_of(q);
                    assert(self.items@[j] == q);
                }
            }
            None
        }
    }
}

} // verus!
