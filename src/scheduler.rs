//! The extension scheduler, as a state machine: the caller runs the loop,
//! hands each event to `step`, and carries out the action it returns.
use vstd::prelude::*;

use crate::policy::MAX_DURATION_PER_LEASE_EXTENSION;
use crate::tracker::{DeadlinesTracker, LeaseState};

verus! {

/// Where the scheduler stands.
#[derive(Debug, Clone, Copy, PartialEq, Eq, Structural)]
pub enum SchedulerState {
    /// Nothing is tracked; waiting for a registration.
    Idle,
    /// Waiting until `wake`, or for a registration.
    Waiting { wake: i64 },
    /// A batch of extensions is in flight.
    Extending,
    /// Shut down: no further extension is issued.
    Stopped,
}

/// What happened since the last step. Instants are in milliseconds.
#[derive(Debug)]
pub enum SchedulerEvent {
    /// The wait ended: the wake time came, or a message was registered.
    /// `estimate` is the current latency estimate, the candidate duration.
    Wake { now: i64, estimate: i64 },
    /// The batch in flight succeeded, except for the ids the broker rejected.
    ExtendSucceeded { now: i64, rejected: Vec<String> },
    /// The batch in flight failed in transport; it is retried later.
    ExtendFailed { now: i64 },
    /// The subscriber shuts down.
    Shutdown,
}

/// What the caller is to do next.
#[derive(Debug, PartialEq, Eq)]
pub enum SchedulerAction {
    /// Wait until the instant, or until a message is registered.
    SleepUntil(i64),
    /// Wait until a message is registered.
    WaitForRegistration,
    /// Extend the deadline of each id by `duration`, then report the outcome.
    Extend { ids: Vec<String>, duration: i64 },
    /// A batch is still in flight: wait for its outcome.
    AwaitOutcome,
    /// Stopped: issue nothing more.
    Stop,
}

#[derive(Debug)]
struct Batch {
    ids: Vec<String>,
    issued_at: i64,
    duration: i64,
}

/// The scheduler's state and the batch it has in flight, if any.
#[derive(Debug)]
pub struct Scheduler {
    state: SchedulerState,
    batch: Option<Batch>,
}

pub open spec fn ids_of(v: Seq<String>) -> Seq<Seq<char>> {
    v.map_values(|s: String| s@)
}

/// The tracker's leases after `advance(id, next_due)`.
pub open spec fn advanced(
    m: Map<Seq<char>, LeaseState>,
    id: Seq<char>,
    next_due: i64,
) -> Map<Seq<char>, LeaseState> {
    if !m.contains_key(id) {
        m
    } else if next_due > m[id].ceiling {
        m.remove(id)
    } else if next_due <= m[id].next_due {
        m
    } else {
        m.insert(id, LeaseState { next_due, ..m[id] })
    }
}

/// The leases after a successful batch over `ids`: each rejected id is
/// removed, each other one advanced to `next_due`.
pub open spec fn settled(
    m: Map<Seq<char>, LeaseState>,
    ids: Seq<Seq<char>>,
    rejected: Seq<Seq<char>>,
    next_due: i64,
) -> Map<Seq<char>, LeaseState>
    decreases ids.len(),
{
    if ids.len() == 0 {
        m
    } else {
        let before = settled(m, ids.drop_last(), rejected, next_due);
        let id = ids.last();
        if rejected.contains(id) {
            before.remove(id)
        } else {
            advanced(before, id, next_due)
        }
    }
}

/// The state and action that follow once nothing is to be sent at `now`:
/// sleep until the earliest next extension among the leases whose ceiling
/// lies ahead (but not before `now`), or wait for a registration if there is
/// no such lease.
pub open spec fn waiting(m: Map<Seq<char>, LeaseState>, now: i64, st: SchedulerState, a: SchedulerAction) -> bool {
    if forall|k: Seq<char>| #[trigger] m.contains_key(k) ==> m[k].ceiling <= now {
        st == SchedulerState::Idle && a == SchedulerAction::WaitForRegistration
    } else {
        &&& st matches SchedulerState::Waiting { wake } && a == SchedulerAction::SleepUntil(wake)
        &&& exists|k: Seq<char>| #[trigger] m.contains_key(k) && m[k].ceiling > now
            && wake_of(st) == not_before(m[k].next_due, now)
        &&& forall|k: Seq<char>| #[trigger] m.contains_key(k) && m[k].ceiling > now
            ==> wake_of(st) <= not_before(m[k].next_due, now)
    }
}

/// `t`, or `now` if `t` lies before it.
pub open spec fn not_before(t: i64, now: i64) -> i64 {
    if t > now { t } else { now }
}

pub open spec fn wake_of(st: SchedulerState) -> i64 {
    match st {
        SchedulerState::Waiting { wake } => wake,
        _ => 0,
    }
}

/// Some lease is due at `now`.
pub open spec fn any_due(m: Map<Seq<char>, LeaseState>, now: i64) -> bool {
    exists|k: Seq<char>| #[trigger] m.contains_key(k) && m[k].is_due(now, now)
}

/// With extension disabled (`max_extension` of zero or less), no lease
/// received at or before `now` is due at `now`, so a wake-up at `now` sends
/// no extension: `step` then only waits.
pub proof fn lemma_zero_extension_sends_nothing(t: &DeadlinesTracker, now: i64)
    requires
        t.wf(),
        t.setting().max_extension <= 0,
        forall|k: Seq<char>| #[trigger] t@.contains_key(k) ==> t@[k].start <= now,
    ensures
        !any_due(t@, now),
{
    crate::tracker::lemma_zero_extension(t, now, now);
}

/// Settling a batch never moves a lease's next extension time back, never
/// changes its start or ceiling, and never adds a lease; a next extension
/// time that changed became the batch's instant, which lies within the
/// lease's ceiling.
pub proof fn lemma_settled_moves_forward(
    m: Map<Seq<char>, LeaseState>,
    ids: Seq<Seq<char>>,
    rejected: Seq<Seq<char>>,
    next_due: i64,
)
    ensures
        forall|k: Seq<char>| #[trigger] settled(m, ids, rejected, next_due).contains_key(k) ==> {
            let s = settled(m, ids, rejected, next_due)[k];
            &&& m.contains_key(k)
            &&& s.start == m[k].start
            &&& s.ceiling == m[k].ceiling
            &&& s.next_due >= m[k].next_due
            &&& s.next_due != m[k].next_due ==> s.next_due == next_due && next_due <= s.ceiling
        },
    decreases ids.len(),
{
    if ids.len() > 0 {
        let before = settled(m, ids.drop_last(), rejected, next_due);
        lemma_settled_moves_forward(m, ids.drop_last(), rejected, next_due);
        let after = settled(m, ids, rejected, next_due);
        assert forall|k: Seq<char>| #[trigger] after.contains_key(k) implies before.contains_key(k)
            && after[k].start == before[k].start && after[k].ceiling == before[k].ceiling
            && after[k].next_due >= before[k].next_due
            && (after[k].next_due != before[k].next_due ==> after[k].next_due == next_due
                && next_due <= after[k].ceiling) by {}
    }
}

impl Scheduler {
    pub closed spec fn state(&self) -> SchedulerState {
        self.state
    }

    /// The ids of the batch in flight, the instant it was sent and its duration.
    pub closed spec fn in_flight(&self) -> Option<(Seq<Seq<char>>, i64, i64)> {
        match self.batch {
            Some(b) => Some((ids_of(b.ids@), b.issued_at, b.duration)),
            None => None,
        }
    }

    /// A batch is in flight exactly while extending, and its next extension
    /// instant fits.
    pub closed spec fn wf(&self) -> bool {
        &&& (self.state is Extending <==> self.batch is Some)
        &&& (self.batch matches Some(b) ==> i64::MIN <= b.issued_at + b.duration <= i64::MAX)
    }

    /// An idle scheduler.
    pub fn new() -> (r: Self)
        ensures
            r.wf(),
            r.state() == SchedulerState::Idle,
            r.in_flight() is None,
    {
        Scheduler { state: SchedulerState::Idle, batch: None }
    }

    /// The scheduler's current state.
    pub fn current_state(&self) -> (r: SchedulerState)
        ensures
            r == self.state(),
    {
        self.state
    }

    fn plan_wait(&mut self, tracker: &DeadlinesTracker, now: i64) -> (r: SchedulerAction)
        requires
            tracker.wf(),
        ensures
            final(self).batch is None,
            waiting(tracker@, now, final(self).state, r),
    {
        self.batch = None;
        match tracker.next_wake(now) {
            None => {
                self.state = SchedulerState::Idle;
                SchedulerAction::WaitForRegistration
            },
            Some(t) => {
                let wake = if t > now { t } else { now };
                self.state = SchedulerState::Waiting { wake };
                SchedulerAction::SleepUntil(wake)
            },
        }
    }

    fn settle(tracker: &mut DeadlinesTracker, batch: &Batch, rejected: &Vec<String>)
        requires
            old(tracker).wf(),
            i64::MIN <= batch.issued_at + batch.duration <= i64::MAX,
        ensures
            final(tracker).wf(),
            final(tracker).setting() == old(tracker).setting(),
            final(tracker).exactly_once() == old(tracker).exactly_once(),
            final(tracker)@ == settled(
                old(tracker)@,
                ids_of(batch.ids@),
                ids_of(rejected@),
                (batch.issued_at + batch.duration) as i64,
            ),
    {
        let next_due = batch.issued_at + batch.duration;
        let ghost ids = ids_of(batch.ids@);
        let ghost rej = ids_of(rejected@);
        let mut n: usize = 0;
        while n < batch.ids.len()
            invariant
                tracker.wf(),
                tracker.setting() == old(tracker).setting(),
                tracker.exactly_once() == old(tracker).exactly_once(),
                n <= batch.ids@.len(),
                ids == ids_of(batch.ids@),
                rej == ids_of(rejected@),
                next_due == batch.issued_at + batch.duration,
                tracker@ == settled(old(tracker)@, ids.take(n as int), rej, next_due),
            decreases batch.ids@.len() - n,
        {
            let id = &batch.ids[n];
            let is_rejected = contains_id(rejected, id);
            let ghost before = tracker@;
            if is_rejected {
                tracker.done(id);
            } else {
                tracker.advance(id, next_due);
            }
            proof {
                assert(ids.take(n + 1).drop_last() =~= ids.take(n as int));
                assert(ids.take(n + 1).last() == id@);
                if !is_rejected {
                    assert(tracker@ =~= advanced(before, id@, next_due));
                }
            }
            n = n + 1;
        }
        proof {
            assert(ids.take(n as int) =~= ids);
        }
    }

    /// Takes one event and returns what to do next.
    ///
    /// Once stopped, and on shutdown, the action is `Stop` and the leases are
    /// untouched. A wake-up while no batch is in flight sends every id due at
    /// `now` in one batch, extended by the bounded duration of `estimate`;
    /// if none is due, it waits for the earliest next extension. When a batch
    /// succeeds, each rejected id stops being tracked and each other one is
    /// advanced to the batch's send instant plus its duration (or dropped past
    /// its ceiling); when it fails in transport, the leases stay as they were.
    pub fn step(&mut self, tracker: &mut DeadlinesTracker, event: SchedulerEvent) -> (r: SchedulerAction)
        requires
            old(self).wf(),
            old(tracker).wf(),
            event matches SchedulerEvent::Wake { now, .. } ==> now + MAX_DURATION_PER_LEASE_EXTENSION <= i64::MAX,
        ensures
            final(self).wf(),
            final(tracker).wf(),
            final(tracker).setting() == old(tracker).setting(),
            final(tracker).exactly_once() == old(tracker).exactly_once(),
            old(self).state() is Stopped || event is Shutdown ==> {
                &&& final(self).state() is Stopped
                &&& r is Stop
                &&& final(tracker)@ == old(tracker)@
            },
            event matches SchedulerEvent::Wake { now, estimate } ==> (
                old(self).state() is Extending ==> {
                    &&& r is AwaitOutcome
                    &&& final(self).state() == old(self).state()
                    &&& final(self).in_flight() == old(self).in_flight()
                    &&& final(tracker)@ == old(tracker)@
                }),
            event matches SchedulerEvent::Wake { now, estimate } ==> (
                !(old(self).state() is Stopped) && !(old(self).state() is Extending) ==> {
                    &&& final(tracker)@ == old(tracker)@
                    &&& !any_due(old(tracker)@, now) ==> waiting(old(tracker)@, now, final(self).state(), r)
                    &&& any_due(old(tracker)@, now) ==> final(self).state() is Extending
                }),
            event matches SchedulerEvent::Wake { now, estimate } ==> (
                !(old(self).state() is Stopped) && !(old(self).state() is Extending)
                && any_due(old(tracker)@, now) ==> (r matches SchedulerAction::Extend { ids, duration } && {
                    &&& duration == old(tracker).setting().bounded(
                        estimate as int,
                        old(tracker).exactly_once(),
                    )
                    &&& final(self).in_flight() == Some((ids_of(ids@), now, duration))
                    &&& forall|i: int| 0 <= i < ids@.len() ==>
                        #[trigger] old(tracker)@.contains_key(ids@[i]@)
                        && old(tracker)@[ids@[i]@].is_due(now, now)
                    &&& forall|k: Seq<char>| #[trigger] old(tracker)@.contains_key(k)
                        && old(tracker)@[k].is_due(now, now) ==> ids_of(ids@).contains(k)
                    &&& forall|i: int, j: int| 0 <= i < j < ids@.len() ==> ids@[i]@ != ids@[j]@
                })),
            event matches SchedulerEvent::ExtendSucceeded { now, rejected } ==> (
                !(old(self).state() is Stopped) ==> match old(self).in_flight() {
                    Some((ids, issued_at, duration)) => {
                        &&& final(tracker)@ == settled(old(tracker)@, ids, ids_of(rejected@),
                            (issued_at + duration) as i64)
                        &&& waiting(final(tracker)@, now, final(self).state(), r)
                    },
                    None => {
                        &&& r is AwaitOutcome
                        &&& final(self).state() == old(self).state()
                        &&& final(self).in_flight() == old(self).in_flight()
                        &&& final(tracker)@ == old(tracker)@
                    },
                }),
            event matches SchedulerEvent::ExtendFailed { now } ==> (
                !(old(self).state() is Stopped) ==> {
                    &&& final(tracker)@ == old(tracker)@
                    &&& old(self).in_flight() is Some ==> waiting(old(tracker)@, now, final(self).state(), r)
                    &&& old(self).in_flight() is None ==> {
                        &&& r is AwaitOutcome
                        &&& final(self).state() == old(self).state()
                        &&& final(self).in_flight() == old(self).in_flight()
                    }
                }),
    {
        if self.state == SchedulerState::Stopped {
            return SchedulerAction::Stop;
        }
        match event {
            SchedulerEvent::Shutdown => {
                self.state = SchedulerState::Stopped;
                self.batch = None;
                SchedulerAction::Stop
            },
            SchedulerEvent::Wake { now, estimate } => {
                if self.state == SchedulerState::Extending {
                    return SchedulerAction::AwaitOutcome;
                }
                let ids = tracker.due_before(now, now);
                if ids.len() > 0 {
                    let duration = tracker.extension_duration(estimate);
                    let sent = clone_ids(&ids);
                    let ghost gids = ids@;
                    self.state = SchedulerState::Extending;
                    self.batch = Some(Batch { ids, issued_at: now, duration });
                    proof {
                        assert forall|k: Seq<char>| #[trigger] old(tracker)@.contains_key(k)
                            && old(tracker)@[k].is_due(now, now) implies ids_of(sent@).contains(k) by {
                            let i = choose|i: int| 0 <= i < gids.len() && gids[i]@ == k;
                            assert(sent@[i]@ == k);
                            assert(ids_of(sent@)[i] == k);
                        }
                        assert(ids_of(sent@) =~= ids_of(self.batch->Some_0.ids@));
                        assert(old(tracker)@.contains_key(gids[0]@));
                        assert(any_due(old(tracker)@, now));
                    }
                    SchedulerAction::Extend { ids: sent, duration }
                } else {
                    proof {
                        assert forall|k: Seq<char>| #[trigger] old(tracker)@.contains_key(k)
                            implies !old(tracker)@[k].is_due(now, now) by {
                            if old(tracker)@[k].is_due(now, now) {
                                assert(tracker@.contains_key(k));
                            }
                        }
                        assert(!any_due(old(tracker)@, now));
                    }
                    self.plan_wait(tracker, now)
                }
            },
            SchedulerEvent::ExtendSucceeded { now, rejected } => {
                match self.batch.take() {
                    Some(batch) => {
                        Self::settle(tracker, &batch, &rejected);
                        self.plan_wait(tracker, now)
                    },
                    None => SchedulerAction::AwaitOutcome,
                }
            },
            SchedulerEvent::ExtendFailed { now } => {
                if self.batch.is_some() {
                    self.plan_wait(tracker, now)
                } else {
                    SchedulerAction::AwaitOutcome
                }
            },
        }
    }
}

fn clone_ids(v: &Vec<String>) -> (r: Vec<String>)
    ensures
        r@.len() == v@.len(),
        forall|i: int| 0 <= i < v@.len() ==> #[trigger] r@[i]@ == v@[i]@,
{
    let mut r: Vec<String> = Vec::new();
    let mut n: usize = 0;
    while n < v.len()
        invariant
            n <= v@.len(),
            r@.len() == n,
            forall|i: int| 0 <= i < n ==> #[trigger] r@[i]@ == v@[i]@,
        decreases v@.len() - n,
    {
        r.push(v[n].clone());
        n = n + 1;
    }
    r
}

fn contains_id(v: &Vec<String>, id: &String) -> (r: bool)
    ensures
        r == ids_of(v@).contains(id@),
{
    let mut n: usize = 0;
    while n < v.len()
        invariant
            n <= v@.len(),
            forall|i: int| 0 <= i < n ==> v@[i]@ != id@,
        decreases v@.len() - n,
    {
        if v[n] == *id {
            proof {
                assert(ids_of(v@)[n as int] == id@);
            }
            return true;
        }
        n = n + 1;
    }
    proof {
        if ids_of(v@).contains(id@) {
            let i = choose|i: int| 0 <= i < ids_of(v@).len() && ids_of(v@)[i] == id@;
            assert(v@[i]@ == id@);
        }
    }
    false
}

} // verus!
