//! The rebuild lifecycle around the live store: filesystem events are
//! coalesced within a debounce window into a single rebuild trigger, at most
//! one rebuild runs at a time, and a finished build is applied to the live
//! store only when it succeeded — a failed build leaves the store exactly as
//! it was.
use vstd::prelude::*;

use crate::store::Store;
use crate::BuildError;

verus! {

/// The debounce scheduler: filesystem events arm (and re-arm) a deadline one
/// window past the event; the deadline passing fires one rebuild; no second
/// rebuild fires until a new event arms the deadline again, and none fires
/// while one is still running.
pub struct Scheduler {
    /// The debounce window, in milliseconds.
    window_ms: u64,
    /// When the pending trigger is due, if one is pending.
    deadline: Option<u64>,
    /// Whether a rebuild is in flight.
    building: bool,
}

impl Scheduler {
    /// The debounce window this scheduler was built with.
    pub closed spec fn window_spec(&self) -> u64 {
        self.window_ms
    }

    /// The pending deadline, if any.
    pub closed spec fn deadline_spec(&self) -> Option<u64> {
        self.deadline
    }

    /// Whether a rebuild is in flight.
    pub closed spec fn building_spec(&self) -> bool {
        self.building
    }

    /// A quiet scheduler: nothing pending, nothing building.
    pub fn new(window_ms: u64) -> (r: Scheduler)
        ensures
            r.window_spec() == window_ms,
            r.deadline_spec() is None,
            !r.building_spec(),
    {
        Scheduler { window_ms, deadline: None, building: false }
    }

    /// A filesystem event at time `now`: the deadline is set one window ahead,
    /// replacing any earlier deadline, so a burst of events keeps pushing one
    /// single trigger in front of itself.
    pub fn on_event(&mut self, now: u64)
        requires
            now + old(self).window_spec() <= u64::MAX,
        ensures
            final(self).window_spec() == old(self).window_spec(),
            final(self).deadline_spec() == Some((now + old(self).window_spec()) as u64),
            final(self).building_spec() == old(self).building_spec(),
    {
        self.deadline = Some(now + self.window_ms);
    }

    /// A clock tick at time `now`: fires exactly when a deadline is pending,
    /// has passed, and no rebuild is in flight. Firing consumes the deadline
    /// and marks a rebuild in flight, so no further tick fires until a new
    /// event arrives and the running rebuild has finished.
    pub fn on_tick(&mut self, now: u64) -> (fire: bool)
        ensures
            final(self).window_spec() == old(self).window_spec(),
            fire == (old(self).deadline_spec() matches Some(d) && now >= d && !old(
                self,
            ).building_spec()),
            fire ==> final(self).deadline_spec() is None && final(self).building_spec(),
            !fire ==> *final(self) == *old(self),
    {
        if self.building {
            return false;
        }
        match self.deadline {
            Some(d) => {
                if now >= d {
                    self.deadline = None;
                    self.building = true;
                    true
                } else {
                    false
                }
            },
            None => false,
        }
    }

    /// The running rebuild has finished (either way): a new trigger may fire
    /// again once a deadline is due.
    pub fn build_finished(&mut self)
        ensures
            final(self).window_spec() == old(self).window_spec(),
            final(self).deadline_spec() == old(self).deadline_spec(),
            !final(self).building_spec(),
    {
        self.building = false;
    }
}

/// Debounce coalescing: however many events arrive within a burst, the ticks
/// that follow fire at most one rebuild. When a tick fires in state `pre` and
/// leaves state `mid`, as `on_tick` guarantees, then no tick at any later time
/// can fire in `mid`: a second rebuild takes a new event (to arm the deadline)
/// and the running rebuild's end.
pub proof fn lemma_one_fire_per_burst(pre: Scheduler, mid: Scheduler, t1: u64, t2: u64)
    requires
        pre.deadline_spec() matches Some(d) && t1 >= d && !pre.building_spec(),
        mid.deadline_spec() is None,
        mid.building_spec(),
    ensures
        !(mid.deadline_spec() matches Some(d2) && t2 >= d2 && !mid.building_spec()),
{
}

/// Applies the outcome of one build pass to the live store: a successful pass
/// replaces the whole contents in one step, and a failed pass leaves the live
/// store exactly as it was, so a broken edit never takes the site offline.
/// Returns whether the live contents changed, which is when watchers are told.
pub fn apply_build(live: &mut Store, outcome: Result<Store, BuildError>) -> (rebuilt: bool)
    ensures
        rebuilt == (outcome is Ok),
        outcome matches Ok(s) ==> final(live)@ == s@,
        outcome is Err ==> final(live)@ == old(live)@,
{
    match outcome {
        Ok(fresh) => {
            live.replace(fresh);
            true
        },
        Err(_) => false,
    }
}

} // verus!
