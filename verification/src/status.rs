//! Per-query status events and the running counters folded from them.

use vstd::prelude::*;

verus! {

/// What a query reports about itself: one `Started`, later exactly one of
/// the three completions.
#[derive(Copy, Clone, Debug, PartialEq, Eq, Structural)]
pub enum ResolveStatus {
    Started,
    Success,
    Failure,
    Error,
}

/// Running counters of a batch.
#[derive(Debug, Copy, Clone, PartialEq, Eq, Structural)]
pub struct Status {
    pub done: u64,
    pub success: u64,
    pub fail: u64,
    pub errored: u64,
    pub running: u64,
}

/// Number of occurrences of `kind` in `events`.
pub open spec fn count(events: Seq<ResolveStatus>, kind: ResolveStatus) -> nat
    decreases events.len(),
{
    if events.len() == 0 {
        0
    } else {
        count(events.drop_last(), kind) + if events.last() == kind { 1nat } else { 0nat }
    }
}

/// Number of `Started` events in `events`.
pub open spec fn starts(events: Seq<ResolveStatus>) -> nat {
    count(events, ResolveStatus::Started)
}

/// Number of completions (events other than `Started`) in `events`.
pub open spec fn completions(events: Seq<ResolveStatus>) -> nat {
    count(events, ResolveStatus::Success) + count(events, ResolveStatus::Failure) + count(
        events,
        ResolveStatus::Error,
    )
}

/// A stream of events is orderly when no prefix of it holds more
/// completions than starts: nothing completes before it has started.
pub open spec fn orderly(events: Seq<ResolveStatus>) -> bool {
    forall|n: int| 0 <= n <= events.len() ==> balanced(#[trigger] events.subrange(0, n))
}

/// `events` holds no more completions than starts.
pub open spec fn balanced(events: Seq<ResolveStatus>) -> bool {
    completions(events) <= starts(events)
}

impl Status {
    /// The counters balance: every finished query is counted under exactly
    /// one outcome.
    pub open spec fn wf(&self) -> bool {
        self.done == self.success + self.fail + self.errored
    }

    /// The counters are exactly those of the events in `events`.
    pub open spec fn tallies(&self, events: Seq<ResolveStatus>) -> bool {
        &&& self.success == count(events, ResolveStatus::Success)
        &&& self.fail == count(events, ResolveStatus::Failure)
        &&& self.errored == count(events, ResolveStatus::Error)
        &&& self.done == completions(events)
        &&& self.running == starts(events) - completions(events)
    }

    /// An event can be folded in when it does not complete a query that
    /// never started and no counter is at its machine limit.
    pub open spec fn accepts(&self, event: ResolveStatus) -> bool {
        match event {
            ResolveStatus::Started => self.running < u64::MAX,
            _ => self.running > 0 && self.done < u64::MAX,
        }
    }

    /// The counters after `event`.
    pub open spec fn after(&self, event: ResolveStatus) -> Status {
        match event {
            ResolveStatus::Started => Status { running: (self.running + 1) as u64, ..*self },
            ResolveStatus::Success => Status {
                done: (self.done + 1) as u64,
                running: (self.running - 1) as u64,
                success: (self.success + 1) as u64,
                ..*self
            },
            ResolveStatus::Failure => Status {
                done: (self.done + 1) as u64,
                running: (self.running - 1) as u64,
                fail: (self.fail + 1) as u64,
                ..*self
            },
            ResolveStatus::Error => Status {
                done: (self.done + 1) as u64,
                running: (self.running - 1) as u64,
                errored: (self.errored + 1) as u64,
                ..*self
            },
        }
    }

    /// All counters at zero.
    pub fn new() -> (s: Status)
        ensures
            s == (Status { done: 0, success: 0, fail: 0, errored: 0, running: 0 }),
            s.wf(),
            s.tallies(Seq::<ResolveStatus>::empty()),
    {
        Status { done: 0, success: 0, fail: 0, errored: 0, running: 0 }
    }

    /// Folds one event into the counters.
    pub fn update(&mut self, event: ResolveStatus)
        requires
            old(self).wf(),
            old(self).accepts(event),
        ensures
            *final(self) == old(self).after(event),
            final(self).wf(),
    {
        match event {
            ResolveStatus::Started => {
                self.running = self.running + 1;
            },
            ResolveStatus::Success => {
                self.done = self.done + 1;
                self.running = self.running - 1;
                self.success = self.success + 1;
            },
            ResolveStatus::Failure => {
                self.done = self.done + 1;
                self.running = self.running - 1;
                self.fail = self.fail + 1;
            },
            ResolveStatus::Error => {
                self.done = self.done + 1;
                self.running = self.running - 1;
                self.errored = self.errored + 1;
            },
        }
    }

    /// Folds a whole stream of events, starting from zero. `None` when some
    /// event completes a query that never started.
    pub fn collect(events: &Vec<ResolveStatus>) -> (r: Option<Status>)
        ensures
            r is Some <==> orderly(events@),
            r is Some ==> r->0.wf() && r->0.tallies(events@),
    {
        let mut s = Status::new();
        let mut i: usize = 0;
        while i < events.len()
            invariant
                i <= events.len(),
                s.wf(),
                s.tallies(events@.subrange(0, i as int)),
                starts(events@.subrange(0, i as int)) <= i,
                forall|n: int| 0 <= n <= i ==> balanced(#[trigger] events@.subrange(0, n)),
            decreases events.len() - i,
        {
            let ev = events[i];
            proof {
                let prev = events@.subrange(0, i as int);
                let next = events@.subrange(0, i as int + 1);
                assert(next.drop_last() == prev);
                assert(next.last() == ev);
            }
            if !is_start(ev) && s.running == 0 {
                proof {
                    let next = events@.subrange(0, i as int + 1);
                    assert(!balanced(next));
                }
                return None;
            }
            s.update(ev);
            i += 1;
            proof {
                assert forall|n: int| 0 <= n <= i implies balanced(
                    #[trigger] events@.subrange(0, n),
                ) by {
                    if n == i {
                    }
                }
            }
        }
        proof {
            assert(events@.subrange(0, events.len() as int) == events@);
            assert forall|n: int| 0 <= n <= events@.len() implies balanced(
                #[trigger] events@.subrange(0, n),
            ) by {}
        }
        Some(s)
    }
}

/// True for `Started`.
pub fn is_start(event: ResolveStatus) -> (b: bool)
    ensures
        b == (event is Started),
{
    match event {
        ResolveStatus::Started => true,
        _ => false,
    }
}

impl Default for Status {
    fn default() -> (s: Status)
        ensures
            s == (Status { done: 0, success: 0, fail: 0, errored: 0, running: 0 }),
    {
        Status { done: 0, success: 0, fail: 0, errored: 0, running: 0 }
    }
}

/// A stream in which `n` queries each started once and completed once.
pub open spec fn complete_run(events: Seq<ResolveStatus>, n: nat) -> bool {
    starts(events) == n && completions(events) == n
}

/// Counter law: counters that tally a stream in which each of `n` inputs
/// started once and completed once balance, show `n` done and none running.
pub proof fn lemma_counters_after_completion(s: Status, events: Seq<ResolveStatus>, n: nat)
    requires
        s.tallies(events),
        complete_run(events, n),
    ensures
        s.done == s.success + s.fail + s.errored,
        s.done == n,
        s.running == 0,
{
}

/// Every event is a start or exactly one kind of completion, so starts and
/// completions together account for the whole stream.
pub proof fn lemma_events_partition(events: Seq<ResolveStatus>)
    ensures
        starts(events) + completions(events) == events.len(),
    decreases events.len(),
{
    if events.len() > 0 {
        lemma_events_partition(events.drop_last());
    }
}

/// Folding one more event into counters that tally a stream gives counters
/// that tally the stream with that event at its end.
pub proof fn lemma_update_tallies(s: Status, events: Seq<ResolveStatus>, event: ResolveStatus)
    requires
        s.tallies(events),
        s.accepts(event),
    ensures
        s.after(event).tallies(events.push(event)),
{
    let next = events.push(event);
    assert(next.drop_last() == events);
    assert(next.last() == event);
}

} // verus!
