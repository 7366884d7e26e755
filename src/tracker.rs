//! The deadline tracker: the lease state of every message in flight, keyed
//! by acknowledgement id.
use vstd::prelude::*;

use crate::policy::{LeaseExtensionSetting, MAX_DURATION_PER_LEASE_EXTENSION};

verus! {

/// The lease of one message in flight. Instants are in milliseconds.
#[derive(Debug, Clone, Copy, PartialEq, Eq)]
pub struct LeaseState {
    /// When the message was received.
    pub start: i64,
    /// After this instant the lease is no longer extended.
    pub ceiling: i64,
    /// When the next extension must be sent.
    pub next_due: i64,
}

impl LeaseState {
    /// The lease needs an extension by `instant`, seen at `now`: its next
    /// extension falls at or before `instant` and its ceiling is still ahead.
    pub open spec fn is_due(&self, instant: i64, now: i64) -> bool {
        self.next_due <= instant && self.ceiling > now
    }
}

/// What `advance` did with a lease.
#[derive(Debug, Clone, Copy, PartialEq, Eq)]
pub enum AdvanceOutcome {
    /// The next extension time moved forward to the given instant.
    Advanced,
    /// The given instant lies past the ceiling: the lease was removed.
    Dropped,
    /// The given instant is not later than the current one: nothing changed.
    Stale,
    /// The id is not tracked (it was acknowledged meanwhile): nothing changed.
    NotTracked,
}

#[derive(Debug)]
struct Entry {
    id: String,
    state: LeaseState,
}

/// The lease of each message in flight. Registering an id that is already
/// tracked replaces its lease, so one id never has two leases.
pub struct DeadlinesTracker {
    setting: LeaseExtensionSetting,
    exactly_once: bool,
    entries: Vec<Entry>,
    leases: Ghost<Map<Seq<char>, LeaseState>>,
}

impl View for DeadlinesTracker {
    type V = Map<Seq<char>, LeaseState>;

    closed spec fn view(&self) -> Map<Seq<char>, LeaseState> {
        self.leases@
    }
}

impl DeadlinesTracker {
    pub closed spec fn setting(&self) -> LeaseExtensionSetting {
        self.setting
    }

    pub closed spec fn exactly_once(&self) -> bool {
        self.exactly_once
    }

    /// The setting is valid, ids are unique, the entries and the map agree,
    /// and each lease's ceiling lies `max_extension` after its start.
    pub closed spec fn wf(&self) -> bool {
        &&& self.setting.valid()
        &&& forall|i: int, j: int|
            0 <= i < j < self.entries@.len() ==> self.entries@[i].id@ != self.entries@[j].id@
        &&& forall|i: int|
            0 <= i < self.entries@.len() ==> #[trigger] self.leases@.contains_key(
                self.entries@[i].id@,
            ) && self.leases@[self.entries@[i].id@] == self.entries@[i].state
        &&& forall|k: Seq<char>| #[trigger]
            self.leases@.contains_key(k) ==> exists|i: int|
                0 <= i < self.entries@.len() && self.entries@[i].id@ == k
        &&& forall|k: Seq<char>| #[trigger]
            self.leases@.contains_key(k) ==> self.leases@[k].ceiling == self.leases@[k].start
                + self.setting.max_extension
    }

    /// An empty tracker for a valid setting.
    pub fn new(setting: LeaseExtensionSetting, exactly_once: bool) -> (r: Self)
        requires
            setting.valid(),
        ensures
            r.wf(),
            r@ == Map::<Seq<char>, LeaseState>::empty(),
            r.setting() == setting,
            r.exactly_once() == exactly_once,
    {
        DeadlinesTracker {
            setting,
            exactly_once,
            entries: Vec::new(),
            leases: Ghost(Map::empty()),
        }
    }

    /// The duration of one extension for the latency estimate `candidate`,
    /// under this tracker's setting and delivery mode.
    pub fn extension_duration(&self, candidate: i64) -> (r: i64)
        requires
            self.wf(),
        ensures
            r == self.setting().bounded(candidate as int, self.exactly_once()),
            crate::policy::MIN_DURATION_PER_LEASE_EXTENSION <= r <= MAX_DURATION_PER_LEASE_EXTENSION,
    {
        proof {
            crate::policy::lemma_bounded_in_broker_range(
                self.setting,
                candidate as int,
                self.exactly_once,
            );
        }
        self.setting.bounded_duration(candidate, self.exactly_once)
    }

    fn find(&self, id: &String) -> (r: Option<usize>)
        requires
            self.wf(),
        ensures
            match r {
                Some(i) => i < self.entries@.len() && self.entries@[i as int].id@ == id@,
                None => !self@.contains_key(id@),
            },
    {
        let mut i: usize = 0;
        while i < self.entries.len()
            invariant
                self.wf(),
                i <= self.entries@.len(),
                forall|j: int| 0 <= j < i ==> self.entries@[j].id@ != id@,
            decreases self.entries@.len() - i,
        {
            if self.entries[i].id == *id {
                return Some(i);
            }
            i = i + 1;
        }
        None
    }

    /// The lease of `id`, if it is tracked.
    pub fn get(&self, id: &String) -> (r: Option<LeaseState>)
        requires
            self.wf(),
        ensures
            r == (if self@.contains_key(id@) {
                Some(self@[id@])
            } else {
                None
            }),
    {
        match self.find(id) {
            Some(i) => Some(self.entries[i].state),
            None => None,
        }
    }

    /// Starts tracking the message `ack_id`, received at `now`. Its ceiling
    /// lies `max_extension` after `now`, and its first extension is due one
    /// bounded duration (from `candidate`) after `now`. A lease already held
    /// for `ack_id` is replaced.
    pub fn register(&mut self, ack_id: String, now: i64, candidate: i64) -> (r: LeaseState)
        requires
            old(self).wf(),
            i64::MIN <= now + old(self).setting().max_extension <= i64::MAX,
            now + MAX_DURATION_PER_LEASE_EXTENSION <= i64::MAX,
        ensures
            final(self).wf(),
            final(self).setting() == old(self).setting(),
            final(self).exactly_once() == old(self).exactly_once(),
            r.start == now,
            r.ceiling == now + old(self).setting().max_extension,
            r.next_due == now + old(self).setting().bounded(
                candidate as int,
                old(self).exactly_once(),
            ),
            final(self)@ == old(self)@.insert(ack_id@, r),
    {
        let deadline = self.setting.new_deadline(now);
        let period = self.setting.bounded_duration(candidate, self.exactly_once);
        proof {
            crate::policy::lemma_bounded_in_broker_range(
                self.setting,
                candidate as int,
                self.exactly_once,
            );
        }
        let state = LeaseState {
            start: deadline.start,
            ceiling: deadline.ceiling,
            next_due: now + period,
        };
        let ghost key = ack_id@;
        match self.find(&ack_id) {
            Some(i) => {
                self.entries.set(i, Entry { id: ack_id, state });
                self.leases = Ghost(self.leases@.insert(key, state));
                proof {
                    assert forall|j: int| 0 <= j < self.entries@.len() implies
                        #[trigger] self.entries@[j].id@ == old(self).entries@[j].id@ by {}
                    assert forall|j: int| 0 <= j < self.entries@.len() && j != i implies
                        #[trigger] self.entries@[j].id@ != key by {
                        if j < i {
                            assert(old(self).entries@[j].id@ != old(self).entries@[i as int].id@);
                        } else {
                            assert(old(self).entries@[i as int].id@ != old(self).entries@[j].id@);
                        }
                    }
                    assert forall|k: Seq<char>| #[trigger]
                        self.leases@.contains_key(k) implies exists|j: int|
                            0 <= j < self.entries@.len() && self.entries@[j].id@ == k by {
                        if k != key {
                            let j = choose|j: int|
                                0 <= j < old(self).entries@.len() && old(self).entries@[j].id@
                                    == k;
                            assert(self.entries@[j].id@ == k);
                        } else {
                            assert(self.entries@[i as int].id@ == k);
                        }
                    }
                }
            },
            None => {
                self.entries.push(Entry { id: ack_id, state });
                self.leases = Ghost(self.leases@.insert(key, state));
                proof {
                    let n = old(self).entries@.len();
                    assert(self.entries@[n as int].id@ == key);
                    assert forall|k: Seq<char>| #[trigger]
                        self.leases@.contains_key(k) implies exists|j: int|
                            0 <= j < self.entries@.len() && self.entries@[j].id@ == k by {
                        if k != key {
                            let j = choose|j: int|
                                0 <= j < old(self).entries@.len() && old(self).entries@[j].id@
                                    == k;
                            assert(self.entries@[j].id@ == k);
                        } else {
                            assert(self.entries@[n as int].id@ == k);
                        }
                    }
                    assert forall|i: int|
                        0 <= i < n implies old(self).entries@[i].id@ != key by {
                        assert(old(self).leases@.contains_key(old(self).entries@[i].id@));
                    }
                }
            },
        }
        state
    }

    fn remove_at(&mut self, i: usize) -> (r: LeaseState)
        requires
            old(self).wf(),
            i < old(self).entries@.len(),
        ensures
            final(self).wf(),
            final(self).setting() == old(self).setting(),
            final(self).exactly_once() == old(self).exactly_once(),
            old(self)@.contains_key(old(self).entries@[i as int].id@),
            r == old(self)@[old(self).entries@[i as int].id@],
            final(self)@ == old(self)@.remove(old(self).entries@[i as int].id@),
    {
        let ghost key = self.entries@[i as int].id@;
        let ghost old_entries = self.entries@;
        let e = self.entries.remove(i);
        self.leases = Ghost(self.leases@.remove(key));
        proof {
            assert(old_entries[i as int].id@ == key);
            assert(e == old_entries[i as int]);
            assert(old(self).leases@.contains_key(old_entries[i as int].id@));
            assert forall|k: Seq<char>| #[trigger]
                self.leases@.contains_key(k) implies exists|j: int|
                    0 <= j < self.entries@.len() && self.entries@[j].id@ == k by {
                let j = choose|j: int| 0 <= j < old_entries.len() && old_entries[j].id@ == k;
                if j < i {
                    assert(self.entries@[j].id@ == k);
                } else {
                    assert(j != i);
                    assert(self.entries@[j - 1].id@ == k);
                }
            }
            assert forall|j: int| 0 <= j < self.entries@.len() implies #[trigger]
                self.leases@.contains_key(self.entries@[j].id@) && self.leases@[self.entries@[j].id@]
                    == self.entries@[j].state by {
                if j < i {
                    assert(self.entries@[j] == old_entries[j]);
                    assert(old_entries[j].id@ != old_entries[i as int].id@);
                } else {
                    assert(self.entries@[j] == old_entries[j + 1]);
                    assert(old_entries[i as int].id@ != old_entries[j + 1].id@);
                }
            }
        }
        e.state
    }

    /// Stops tracking `ack_id` and hands back its lease, or `None` when it is
    /// not tracked. Calling it again for the same id gives `None`.
    pub fn done(&mut self, ack_id: &String) -> (r: Option<LeaseState>)
        requires
            old(self).wf(),
        ensures
            final(self).wf(),
            final(self).setting() == old(self).setting(),
            final(self).exactly_once() == old(self).exactly_once(),
            r == (if old(self)@.contains_key(ack_id@) {
                Some(old(self)@[ack_id@])
            } else {
                None
            }),
            final(self)@ == old(self)@.remove(ack_id@),
    {
        match self.find(ack_id) {
            Some(i) => Some(self.remove_at(i)),
            None => {
                proof {
                    assert(self.leases@.remove(ack_id@) =~= self.leases@);
                }
                None
            },
        }
    }
    /// Records a successful extension of `ack_id`: its next extension is now
    /// due at `next_due`. An instant past the lease's ceiling removes the
    /// lease instead; one not later than the current instant changes
    /// nothing, so each lease's next extension time only moves forward.
    pub fn advance(&mut self, ack_id: &String, next_due: i64) -> (r: AdvanceOutcome)
        requires
            old(self).wf(),
        ensures
            final(self).wf(),
            final(self).setting() == old(self).setting(),
            final(self).exactly_once() == old(self).exactly_once(),
            !old(self)@.contains_key(ack_id@) ==> r == AdvanceOutcome::NotTracked
                && final(self)@ == old(self)@,
            old(self)@.contains_key(ack_id@) ==> {
                let s = old(self)@[ack_id@];
                if next_due > s.ceiling {
                    r == AdvanceOutcome::Dropped && final(self)@ == old(self)@.remove(ack_id@)
                } else if next_due <= s.next_due {
                    r == AdvanceOutcome::Stale && final(self)@ == old(self)@
                } else {
                    r == AdvanceOutcome::Advanced && final(self)@ == old(self)@.insert(
                        ack_id@,
                        LeaseState { next_due, ..s },
                    )
                }
            },
    {
        match self.find(ack_id) {
            None => AdvanceOutcome::NotTracked,
            Some(i) => {
                let s = self.entries[i].state;
                if next_due > s.ceiling {
                    self.remove_at(i);
                    AdvanceOutcome::Dropped
                } else if next_due <= s.next_due {
                    AdvanceOutcome::Stale
                } else {
                    let ghost key = ack_id@;
                    let moved = LeaseState { next_due, ..s };
                    let id = self.entries[i].id.clone();
                    self.entries.set(i, Entry { id, state: moved });
                    self.leases = Ghost(self.leases@.insert(key, moved));
                    proof {
                        assert forall|j: int| 0 <= j < self.entries@.len() implies
                            #[trigger] self.entries@[j].id@ == old(self).entries@[j].id@ by {}
                        assert forall|j: int| 0 <= j < self.entries@.len() && j != i implies
                            #[trigger] self.entries@[j].id@ != key by {
                            if j < i {
                                assert(old(self).entries@[j].id@ != old(self).entries@[i as int].id@);
                            } else {
                                assert(old(self).entries@[i as int].id@ != old(self).entries@[j].id@);
                            }
                        }
                        assert forall|k: Seq<char>| #[trigger]
                            self.leases@.contains_key(k) implies exists|j: int|
                                0 <= j < self.entries@.len() && self.entries@[j].id@ == k by {
                            let j = choose|j: int|
                                0 <= j < old(self).entries@.len() && old(self).entries@[j].id@
                                    == k;
                            assert(self.entries@[j].id@ == k);
                        }
                        assert forall|j: int| 0 <= j < self.entries@.len() implies
                            #[trigger] self.leases@.contains_key(self.entries@[j].id@)
                            && self.leases@[self.entries@[j].id@] == self.entries@[j].state by {
                            if j != i {
                                assert(self.entries@[j] == old(self).entries@[j]);
                                assert(old(self).leases@.contains_key(old(self).entries@[j].id@));
                                assert(self.entries@[j].id@ != key);
                            }
                        }
                        assert(old(self).leases@.contains_key(key));
                        assert forall|k: Seq<char>| #[trigger] self.leases@.contains_key(k) implies
                            self.leases@[k].ceiling == self.leases@[k].start
                                + self.setting.max_extension by {
                            if k != key {
                                assert(old(self).leases@.contains_key(k));
                            }
                        }
                    }
                    AdvanceOutcome::Advanced
                }
            },
        }
    }

    /// The ids whose lease needs an extension by `instant`, seen at `now`:
    /// each tracked id whose next extension falls at or before `instant` and
    /// whose ceiling lies after `now`, each once.
    pub fn due_before(&self, instant: i64, now: i64) -> (r: Vec<String>)
        requires
            self.wf(),
        ensures
            forall|i: int|
                0 <= i < r@.len() ==> #[trigger] self@.contains_key(r@[i]@) && self@[r@[i]@].is_due(
                    instant,
                    now,
                ),
            forall|k: Seq<char>|
                #![trigger self@.contains_key(k)]
                self@.contains_key(k) && self@[k].is_due(instant, now) ==> exists|i: int|
                    0 <= i < r@.len() && r@[i]@ == k,
            forall|i: int, j: int| 0 <= i < j < r@.len() ==> r@[i]@ != r@[j]@,
    {
        let mut r: Vec<String> = Vec::new();
        let mut n: usize = 0;
        let ghost mut src: Seq<int> = Seq::empty();
        while n < self.entries.len()
            invariant
                n <= self.entries@.len(),
                src.len() == r@.len(),
                forall|i: int|
                    0 <= i < src.len() ==> 0 <= #[trigger] src[i] < n
                        && self.entries@[src[i]].id@ == r@[i]@
                        && self.entries@[src[i]].state.is_due(instant, now),
                forall|i: int, j: int| 0 <= i < j < src.len() ==> src[i] < src[j],
                forall|j: int|
                    0 <= j < n && #[trigger] self.entries@[j].state.is_due(instant, now)
                        ==> exists|i: int| 0 <= i < src.len() && src[i] == j,
            decreases self.entries@.len() - n,
        {
            let s = self.entries[n].state;
            if s.next_due <= instant && s.ceiling > now {
                r.push(self.entries[n].id.clone());
                proof {
                    let old_src = src;
                    src = src.push(n as int);
                    assert forall|j: int|
                        0 <= j < n + 1 && #[trigger] self.entries@[j].state.is_due(instant, now)
                            implies exists|i: int| 0 <= i < src.len() && src[i] == j by {
                        if j < n {
                            let i = choose|i: int| 0 <= i < old_src.len() && old_src[i] == j;
                            assert(src[i] == j);
                        } else {
                            assert(src[old_src.len() as int] == j);
                        }
                    }
                }
            }
            n = n + 1;
        }
        proof {
            assert forall|i: int, j: int| 0 <= i < j < r@.len() implies r@[i]@ != r@[j]@ by {
                assert(src[i] < src[j]);
                assert(self.entries@[src[i]].id@ != self.entries@[src[j]].id@);
            }
            assert forall|i: int| 0 <= i < r@.len() implies #[trigger] self@.contains_key(r@[i]@)
                && self@[r@[i]@].is_due(instant, now) by {
                assert(self.leases@.contains_key(self.entries@[src[i]].id@));
            }
            assert forall|k: Seq<char>|
                #![trigger self@.contains_key(k)]
                self@.contains_key(k) && self@[k].is_due(instant, now) implies exists|i: int|
                    0 <= i < r@.len() && r@[i]@ == k by {
                let j = choose|j: int| 0 <= j < self.entries@.len() && self.entries@[j].id@ == k;
                assert(self.leases@.contains_key(self.entries@[j].id@));
                assert(self.entries@[j].state.is_due(instant, now));
                let i = choose|i: int| 0 <= i < src.len() && src[i] == j;
                assert(r@[i]@ == k);
            }
        }
        r
    }

    /// The earliest next extension time among the leases whose ceiling lies
    /// after `now`, or `None` when there is no such lease.
    pub fn next_wake(&self, now: i64) -> (r: Option<i64>)
        requires
            self.wf(),
        ensures
            r is None <==> (forall|k: Seq<char>| #[trigger]
                self@.contains_key(k) ==> self@[k].ceiling <= now),
            r matches Some(t) ==> (exists|k: Seq<char>| #[trigger]
                self@.contains_key(k) && self@[k].ceiling > now && self@[k].next_due == t),
            r matches Some(t) ==> (forall|k: Seq<char>| #[trigger]
                self@.contains_key(k) && self@[k].ceiling > now ==> t <= self@[k].next_due),
    {
        let mut best: Option<i64> = None;
        let mut n: usize = 0;
        while n < self.entries.len()
            invariant
                self.wf(),
                n <= self.entries@.len(),
                best is None <==> (forall|j: int| 0 <= j < n ==> #[trigger] self.entries@[j].state.ceiling <= now),
                best matches Some(t) ==> (exists|j: int| 0 <= j < n
                    && #[trigger] self.entries@[j].state.ceiling > now
                    && self.entries@[j].state.next_due == t),
                best matches Some(t) ==> (forall|j: int| 0 <= j < n
                    && #[trigger] self.entries@[j].state.ceiling > now ==> t <= self.entries@[j].state.next_due),
            decreases self.entries@.len() - n,
        {
            let s = self.entries[n].state;
            if s.ceiling > now {
                best = match best {
                    Some(t) => if s.next_due < t { Some(s.next_due) } else { Some(t) },
                    None => Some(s.next_due),
                };
            }
            n = n + 1;
        }
        proof {
            if best is None {
                assert forall|k: Seq<char>| #[trigger] self@.contains_key(k) implies self@[k].ceiling <= now by {
                    let j = choose|j: int| 0 <= j < self.entries@.len() && self.entries@[j].id@ == k;
                    assert(self.entries@[j].state.ceiling <= now);
                }
            } else {
                let j = choose|j: int| 0 <= j < n
                    && #[trigger] self.entries@[j].state.ceiling > now
                    && self.entries@[j].state.next_due == best->Some_0;
                let k0 = self.entries@[j].id@;
                assert(self.leases@.contains_key(k0));
                assert(self@.contains_key(k0) && self@[k0].ceiling > now
                    && self@[k0].next_due == best->Some_0);
                assert forall|k: Seq<char>| #[trigger] self@.contains_key(k) && self@[k].ceiling > now
                    implies best->Some_0 <= self@[k].next_due by {
                    let j = choose|j: int| 0 <= j < self.entries@.len() && self.entries@[j].id@ == k;
                    assert(self.entries@[j].state.ceiling > now);
                }
            }
        }
        best
    }
}

/// With extension disabled (`max_extension` of zero or less), no lease
/// received at or before `now` is ever due at `now`, whatever the instant asked
/// about: its ceiling never lies after its start.
pub proof fn lemma_zero_extension(t: &DeadlinesTracker, instant: i64, now: i64)
    requires
        t.wf(),
        t.setting().max_extension <= 0,
        forall|k: Seq<char>| #[trigger] t@.contains_key(k) ==> t@[k].start <= now,
    ensures
        forall|k: Seq<char>| #[trigger] t@.contains_key(k) ==> t@[k].ceiling <= now,
        forall|k: Seq<char>| #[trigger] t@.contains_key(k) ==> !t@[k].is_due(instant, now),
{
}

/// Removing an id a second time finds nothing: after `done` the id is no
/// longer tracked, so a repeated `done` returns `None` and changes nothing.
pub proof fn lemma_done_idempotent(t: &DeadlinesTracker, id: Seq<char>)
    requires
        t.wf(),
    ensures
        !t@.remove(id).contains_key(id),
        t@.remove(id).remove(id) == t@.remove(id),
{
    assert(t@.remove(id).remove(id) =~= t@.remove(id));
}

} // verus!
