use vstd::prelude::*;
use vstd::multiset::Multiset;
use crate::custom_types::Time;
use crate::schedule::{Event, Scheduler};

verus! {

/// The pending events of `pre` that are due later than `cur_time`.
pub open spec fn not_yet_due(pre: Multiset<(Time, Event)>, cur_time: Time, post: Multiset<(Time, Event)>) -> bool {
    forall|p: (Time, Event)| #[trigger] post.count(p) == if cur_time < p.0 { pre.count(p) } else { 0 }
}

/// Drives the simulation: at each point of time it takes the due events out
/// of the scheduler.
pub struct SimEngine<'a> {
    /// The number of state computations recorded so far.
    pub count_sim: u32,
    /// The scheduler the engine was lent; what the engine does to it reaches
    /// the lender.
    pub scheduler: &'a mut Scheduler,
}

impl<'a> SimEngine<'a> {
    /// An engine over the scheduler `sch`, with `cnt` computations recorded.
    /// The engine works on `sch` itself: whatever it leaves in its scheduler
    /// is what `sch` holds once the engine is done.
    pub fn new(cnt: u32, sch: &'a mut Scheduler) -> (e: SimEngine<'a>)
        ensures
            e.count_sim == cnt,
            e.scheduler.view() == old(sch).view(),
            *final(sch) == *final(e.scheduler),
    {
        SimEngine { count_sim: cnt, scheduler: sch }
    }

    /// The number of state computations recorded so far.
    pub fn count_sim(&self) -> (c: u32)
        ensures
            c == self.count_sim,
    {
        self.count_sim
    }

    /// Takes out of the lent scheduler, earliest first, every event that is
    /// due at `cur_time`; the events due later stay.  The engine keeps working
    /// on the same scheduler.
    pub fn do_step(&mut self, cur_time: Time)
        ensures
            final(self).count_sim == old(self).count_sim,
            not_yet_due(old(self).scheduler.view(), cur_time, final(self).scheduler.view()),
            *final(final(self).scheduler) == *final(old(self).scheduler),
    {
        loop
            invariant
                self.count_sim == old(self).count_sim,
                *final(self.scheduler) == *final(old(self).scheduler),
                forall|p: (Time, Event)| cur_time < p.0 ==> #[trigger] self.scheduler.view().count(p) == old(self).scheduler.view().count(p),
                forall|p: (Time, Event)| p.0 <= cur_time ==> #[trigger] self.scheduler.view().count(p) <= old(self).scheduler.view().count(p),
            ensures
                not_yet_due(old(self).scheduler.view(), cur_time, self.scheduler.view()),
            decreases self.scheduler.view().len(),
        {
            let ghost pre = self.scheduler.view();
            match self.scheduler.consume(cur_time) {
                None => {
                    proof {
                        assert forall|p: (Time, Event)|
                            #[trigger] self.scheduler.view().count(p) == if cur_time < p.0 { old(self).scheduler.view().count(p) } else { 0 } by {
                            if p.0 <= cur_time && self.scheduler.view().count(p) > 0 {
                                assert(self.scheduler.view().contains(p));
                            }
                        }
                    }
                    break;
                },
                Some(event) => {
                    match event {
                        Event::TrainArrival { .. } => {},
                        Event::TrainDeparture { .. } => {},
                        _ => {},
                    }
                },
            }
        }
    }
}

} // verus!
