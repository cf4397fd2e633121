//! The queue of pending writes to the database.
use vstd::prelude::*;
use crate::server::model::Database;
use crate::text_map::TextMap;
use std::collections::VecDeque;

verus! {

/// Absolute traffic counters. Being absolute, several of them can be merged without
/// losing an increment.
#[derive(Clone, Copy, Debug, PartialEq, Eq, Structural)]
pub struct TrafficCounters {
    pub up_bytes: i64,
    pub down_bytes: i64,
}

/// The counters that changed since the last flush.
#[derive(Debug)]
pub struct TrafficSnapshot {
    pub main: Option<TrafficCounters>,
    pub passwords: TextMap<TrafficCounters>,
    pub devices: TextMap<TrafficCounters>,
}

impl TrafficSnapshot {
    /// The maps are in order.
    pub open spec fn wf(&self) -> bool {
        self.passwords.wf() && self.devices.wf()
    }

    /// No counters.
    pub fn new() -> (r: Self)
        ensures
            r.wf(),
            r.main is None,
            r.passwords@ == Map::<Seq<char>, TrafficCounters>::empty(),
            r.devices@ == Map::<Seq<char>, TrafficCounters>::empty(),
    {
        TrafficSnapshot { main: None, passwords: TextMap::new(), devices: TextMap::new() }
    }

    /// Whether the counters are those of `older` overridden by those of `newer`.
    pub open spec fn merged(self, older: TrafficSnapshot, newer: TrafficSnapshot) -> bool {
        &&& self.main == (if newer.main is Some {
            newer.main
        } else {
            older.main
        })
        &&& self.passwords@ == older.passwords@.union_prefer_right(newer.passwords@)
        &&& self.devices@ == older.devices@.union_prefer_right(newer.devices@)
    }

    /// Takes over newer counters.
    pub fn merge_from(&mut self, newer: TrafficSnapshot)
        requires
            old(self).wf(),
            newer.wf(),
        ensures
            final(self).wf(),
            final(self).merged(*old(self), newer),
    {
        if newer.main.is_some() {
            self.main = newer.main;
        }
        self.passwords.append(newer.passwords);
        self.devices.append(newer.devices);
    }

    /// Whether there is nothing to write.
    pub fn is_empty(&self) -> (r: bool)
        ensures
            r == self.nothing(),
    {
        self.main.is_none() && self.passwords.is_empty() && self.devices.is_empty()
    }

    /// Nothing to write.
    pub open spec fn nothing(&self) -> bool {
        &&& self.main is None
        &&& self.passwords@ == Map::<Seq<char>, TrafficCounters>::empty()
        &&& self.devices@ == Map::<Seq<char>, TrafficCounters>::empty()
    }
}

/// A pending write.
#[derive(Debug)]
pub enum PersistenceUpdate {
    /// The whole database.
    Snapshot(Database),
    /// Changed counters.
    Traffic(TrafficSnapshot),
}

impl PersistenceUpdate {
    /// The maps of the update are in order.
    pub open spec fn wf(&self) -> bool {
        match self {
            PersistenceUpdate::Snapshot(db) => db.wf(),
            PersistenceUpdate::Traffic(t) => t.wf(),
        }
    }
}

/// Pending writes with their revisions.
pub struct PersistenceQueue {
    pub next_revision: u64,
    pub processed_revision: u64,
    pub successful_revision: u64,
    pub pending: VecDeque<(u64, PersistenceUpdate)>,
    pub worker_running: bool,
}

/// The revision after `n`; the last one repeats.
pub open spec fn revision_after(n: u64) -> u64 {
    if n == u64::MAX {
        n
    } else {
        (n + 1) as u64
    }
}

impl PersistenceQueue {
    /// Revisions increase along the queue up to the last one given, and were not
    /// processed before they were given.
    pub open spec fn wf(&self) -> bool {
        &&& forall|i: int|
            0 <= i < self.pending@.len() ==> (#[trigger] self.pending@[i]).1.wf()
                && self.pending@[i].0 <= self.next_revision
        &&& forall|i: int, j: int|
            0 <= i < j < self.pending@.len() ==> (#[trigger] self.pending@[i]).0 <= (
            #[trigger] self.pending@[j]).0
    }

    /// Nothing pending, nothing processed.
    pub fn new() -> (r: Self)
        ensures
            r.wf(),
            r.next_revision == 0,
            r.processed_revision == 0,
            r.successful_revision == 0,
            r.pending@.len() == 0,
            !r.worker_running,
    {
        PersistenceQueue {
            next_revision: 0,
            processed_revision: 0,
            successful_revision: 0,
            pending: VecDeque::new(),
            worker_running: false,
        }
    }

    /// Gives out the next revision.
    pub fn next_revision(&mut self) -> (r: u64)
        requires
            old(self).wf(),
        ensures
            final(self).wf(),
            r == revision_after(old(self).next_revision),
            *final(self) == (PersistenceQueue { next_revision: r, ..*old(self) }),
    {
        self.next_revision = self.next_revision.saturating_add(1);
        self.next_revision
    }

    /// Queues a snapshot. It includes everything that happened before it, so it takes
    /// the place of whatever was queued.
    pub fn submit_snapshot(&mut self, snapshot: Database) -> (r: (u64, bool))
        requires
            old(self).wf(),
            snapshot.wf(),
        ensures
            final(self).wf(),
            r.0 == revision_after(old(self).next_revision),
            r.1 == !old(self).worker_running,
            final(self).next_revision == r.0,
            final(self).worker_running,
            final(self).pending@ == seq![(r.0, PersistenceUpdate::Snapshot(snapshot))],
            final(self).processed_revision == old(self).processed_revision,
            final(self).successful_revision == old(self).successful_revision,
    {
        let revision = self.next_revision();
        self.pending.clear();
        self.pending.push_back((revision, PersistenceUpdate::Snapshot(snapshot)));
        proof {
            assert(self.pending@ =~= seq![(revision, PersistenceUpdate::Snapshot(snapshot))]);
        }
        let start_worker = !self.worker_running;
        self.worker_running = true;
        (revision, start_worker)
    }

    /// Queues changed counters. They join counters that are last in the queue, so that
    /// a slow disk does not make the queue grow.
    pub fn submit_traffic(&mut self, traffic: TrafficSnapshot) -> (r: (u64, bool))
        requires
            old(self).wf(),
            traffic.wf(),
        ensures
            final(self).wf(),
            r.0 == revision_after(old(self).next_revision),
            r.1 == !old(self).worker_running,
            final(self).next_revision == r.0,
            final(self).worker_running,
            final(self).processed_revision == old(self).processed_revision,
            final(self).successful_revision == old(self).successful_revision,
            traffic_queued(old(self).pending@, final(self).pending@, r.0, traffic),
    {
        let ghost before = self.pending@;
        let revision = self.next_revision();
        match self.pending.pop_back() {
            None => {
                self.pending.push_back((revision, PersistenceUpdate::Traffic(traffic)));
                proof {
                    assert(self.pending@ =~= before.push(
                        (revision, PersistenceUpdate::Traffic(traffic)),
                    ));
                }
            },
            Some((last_revision, update)) => match update {
                PersistenceUpdate::Snapshot(db) => {
                    proof {
                        assert(before[before.len() - 1] == (
                            last_revision,
                            PersistenceUpdate::Snapshot(db),
                        ));
                    }
                    self.pending.push_back((last_revision, PersistenceUpdate::Snapshot(db)));
                    proof {
                        assert(self.pending@ =~= before);
                    }
                    self.pending.push_back((revision, PersistenceUpdate::Traffic(traffic)));
                },
                PersistenceUpdate::Traffic(mut pending) => {
                    proof {
                        assert(before[before.len() - 1].1.wf());
                    }
                    pending.merge_from(traffic);
                    self.pending.push_back((revision, PersistenceUpdate::Traffic(pending)));
                    proof {
                        assert(self.pending@.drop_last() =~= before.drop_last());
                        assert forall|i: int, j: int| 0 <= i < j < self.pending@.len() implies (
                        #[trigger] self.pending@[i]).0 <= (#[trigger] self.pending@[j]).0 by {
                            assert(self.pending@[i] == before[i]);
                            if j < before.len() - 1 {
                                assert(self.pending@[j] == before[j]);
                            }
                        }
                    }
                },
            },
        }
        let start_worker = !self.worker_running;
        self.worker_running = true;
        (revision, start_worker)
    }

    /// Takes the oldest pending write.
    pub fn take_pending(&mut self) -> (r: Option<(u64, PersistenceUpdate)>)
        requires
            old(self).wf(),
        ensures
            final(self).wf(),
            old(self).pending@.len() == 0 ==> r is None && final(self).pending@ == old(self).pending@,
            old(self).pending@.len() > 0 ==> r == Some(old(self).pending@[0]) && final(self).pending@ == old(self).pending@.skip(1),
            final(self).next_revision == old(self).next_revision,
            final(self).processed_revision == old(self).processed_revision,
            final(self).successful_revision == old(self).successful_revision,
            final(self).worker_running == old(self).worker_running,
    {
        let ghost before = self.pending@;
        let r = self.pending.pop_front();
        proof {
            if before.len() > 0 {
                assert(self.pending@ =~= before.skip(1));
            }
        }
        r
    }

    /// Notes that a write was done. A late report of an older write changes nothing.
    pub fn complete(&mut self, revision: u64, successful: bool)
        requires
            old(self).wf(),
        ensures
            final(self).wf(),
            final(self).processed_revision == processed_after(
                old(self).processed_revision,
                revision,
            ),
            final(self).successful_revision == saved_after(
                old(self).successful_revision,
                revision,
                successful,
            ),
            final(self).next_revision == old(self).next_revision,
            final(self).pending@ == old(self).pending@,
            final(self).worker_running == old(self).worker_running,
    {
        if revision >= self.processed_revision {
            self.processed_revision = revision;
        }
        if successful && revision >= self.successful_revision {
            self.successful_revision = revision;
        }
    }
}

/// The newest write that was tried, after a report.
pub open spec fn processed_after(processed: u64, revision: u64) -> u64 {
    if revision >= processed {
        revision
    } else {
        processed
    }
}

/// The newest write that succeeded, after a report.
pub open spec fn saved_after(saved: u64, revision: u64, ok: bool) -> u64 {
    if ok && revision >= saved {
        revision
    } else {
        saved
    }
}

/// Revisions strictly increase, short of the last possible one.
pub proof fn law_revisions_increase(n: u64)
    requires
        n < u64::MAX,
    ensures
        revision_after(n) > n,
{
}

/// The write queue with the reason of the last failure.
pub struct DatabasePersistence {
    pub queue: PersistenceQueue,
    pub last_error: Option<String>,
}

/// What is known of a submitted write.
#[derive(Debug)]
pub enum WriteOutcome {
    /// It, or a later one, was written.
    Saved,
    /// It was tried and failed, for this reason.
    Failed(String),
    /// It is still on its way.
    Pending,
}

impl DatabasePersistence {
    /// The queue is in order.
    pub open spec fn wf(&self) -> bool {
        self.queue.wf()
    }

    /// Nothing submitted.
    pub fn new() -> (r: Self)
        ensures
            r.wf(),
            r.queue.pending@.len() == 0,
            r.queue.next_revision == 0,
            r.queue.processed_revision == 0,
            r.queue.successful_revision == 0,
            r.last_error is None,
    {
        DatabasePersistence { queue: PersistenceQueue::new(), last_error: None }
    }

    /// Submits the whole database.
    pub fn submit(&mut self, snapshot: Database) -> (r: u64)
        requires
            old(self).wf(),
            snapshot.wf(),
        ensures
            final(self).wf(),
            r == revision_after(old(self).queue.next_revision),
            final(self).queue.next_revision == r,
            final(self).queue.pending@ == seq![(r, PersistenceUpdate::Snapshot(snapshot))],
            final(self).queue.worker_running,
            final(self).queue.processed_revision == old(self).queue.processed_revision,
            final(self).queue.successful_revision == old(self).queue.successful_revision,
            final(self).last_error == old(self).last_error,
    {
        self.queue.submit_snapshot(snapshot).0
    }

    /// Submits changed counters; nothing is queued where there are none.
    pub fn submit_traffic(&mut self, traffic: TrafficSnapshot) -> (r: u64)
        requires
            old(self).wf(),
            traffic.wf(),
        ensures
            final(self).wf(),
            final(self).last_error == old(self).last_error,
            final(self).queue.processed_revision == old(self).queue.processed_revision,
            final(self).queue.successful_revision == old(self).queue.successful_revision,
            traffic.nothing() ==> r == 0 && *final(self) == *old(self),
            !traffic.nothing() ==> {
                let before = old(self).queue.pending@;
                let after = final(self).queue.pending@;
                &&& r == revision_after(old(self).queue.next_revision)
                &&& final(self).queue.next_revision == r
                &&& final(self).queue.worker_running
                &&& traffic_queued(before, after, r, traffic)
            },
    {
        if traffic.is_empty() {
            return 0;
        }
        self.queue.submit_traffic(traffic).0
    }

    /// What is known of the write with a revision.
    pub fn wait(&self, revision: u64) -> (r: WriteOutcome)
        ensures
            outcome_known(
                self.queue.successful_revision,
                self.queue.processed_revision,
                self.last_error,
                revision,
                r,
            ),
    {
        if self.queue.successful_revision >= revision {
            WriteOutcome::Saved
        } else if self.queue.processed_revision >= revision {
            match &self.last_error {
                Some(error) => WriteOutcome::Failed(error.clone()),
                None => WriteOutcome::Failed("database persistence failed".to_owned()),
            }
        } else {
            WriteOutcome::Pending
        }
    }

    /// Notes the result of a write: no error, or the reason of its failure.
    pub fn finish(&mut self, revision: u64, error: Option<String>)
        requires
            old(self).wf(),
        ensures
            final(self).wf(),
            final(self).queue.pending@ == old(self).queue.pending@,
            final(self).queue.next_revision == old(self).queue.next_revision,
            final(self).queue.processed_revision == processed_after(
                old(self).queue.processed_revision,
                revision,
            ),
            final(self).queue.successful_revision == saved_after(
                old(self).queue.successful_revision,
                revision,
                error is None,
            ),
            final(self).queue.worker_running == old(self).queue.worker_running,
            final(self).last_error == error,
    {
        self.queue.complete(revision, error.is_none());
        self.last_error = error;
    }
}

/// A write that was reported as done stays done: later reports never take back what
/// was processed or saved.
pub proof fn law_completion_is_monotone(
    processed: u64,
    saved: u64,
    revision: u64,
    ok: bool,
)
    requires
        saved <= processed,
    ensures
        processed_after(processed, revision) >= processed,
        saved_after(saved, revision, ok) >= saved,
        saved_after(saved, revision, ok) <= processed_after(processed, revision),
{
}

/// Merging counters keeps the newest of each: merging two updates and then a third is
/// the same as merging the first with the merge of the others.
pub proof fn law_merge_associative(
    a: Map<Seq<char>, TrafficCounters>,
    b: Map<Seq<char>, TrafficCounters>,
    c: Map<Seq<char>, TrafficCounters>,
)
    ensures
        a.union_prefer_right(b).union_prefer_right(c) == a.union_prefer_right(
            b.union_prefer_right(c),
        ),
        forall|k: Seq<char>|
            b.contains_key(k) ==> #[trigger] a.union_prefer_right(b)[k] == b[k],
{
    assert(a.union_prefer_right(b).union_prefer_right(c) =~= a.union_prefer_right(
        b.union_prefer_right(c),
    ));
}

/// Revisions count one by one and stop at the largest number.
pub proof fn law_revisions_count(n: u64)
    ensures
        n < u64::MAX ==> revision_after(n) == n + 1,
        n == u64::MAX ==> revision_after(n) == n,
{
}

/// Of two reports the later revision counts; a failed write saves nothing.
pub proof fn law_later_revision_counts(processed: u64, saved: u64, revision: u64)
    ensures
        processed_after(processed, revision) >= revision,
        processed_after(processed, revision) == revision || processed_after(processed, revision)
            == processed,
        saved_after(saved, revision, true) >= revision,
        saved_after(saved, revision, true) == revision || saved_after(saved, revision, true)
            == saved,
        saved_after(saved, revision, false) == saved,
{
}

/// Merging takes every counter of both updates, and where both have one, the newer; it
/// takes no other.
pub proof fn law_merge_takes_the_newer(
    r: TrafficSnapshot,
    older: TrafficSnapshot,
    newer: TrafficSnapshot,
    key: Seq<char>,
)
    requires
        r.merged(older, newer),
    ensures
        newer.main is Some ==> r.main == newer.main,
        newer.main is None ==> r.main == older.main,
        newer.passwords@.contains_key(key) ==> r.passwords@.contains_key(key) && r.passwords@[key]
            == newer.passwords@[key],
        !newer.passwords@.contains_key(key) && older.passwords@.contains_key(key)
            ==> r.passwords@.contains_key(key) && r.passwords@[key] == older.passwords@[key],
        r.passwords@.contains_key(key) ==> older.passwords@.contains_key(key)
            || newer.passwords@.contains_key(key),
        newer.devices@.contains_key(key) ==> r.devices@.contains_key(key) && r.devices@[key]
            == newer.devices@[key],
        !newer.devices@.contains_key(key) && older.devices@.contains_key(key)
            ==> r.devices@.contains_key(key) && r.devices@[key] == older.devices@[key],
        r.devices@.contains_key(key) ==> older.devices@.contains_key(key)
            || newer.devices@.contains_key(key),
{
}

/// An update is empty exactly where it has no counter at all.
pub proof fn law_empty_updates(t: TrafficSnapshot, key: Seq<char>)
    ensures
        t.nothing() ==> t.main is None && !t.passwords@.contains_key(key)
            && !t.devices@.contains_key(key),
        t.main is None && (forall|k: Seq<char>| !#[trigger] t.passwords@.contains_key(k)) && (
        forall|k: Seq<char>| !#[trigger] t.devices@.contains_key(k)) ==> t.nothing(),
{
    if t.main is None && (forall|k: Seq<char>| !#[trigger] t.passwords@.contains_key(k)) && (
    forall|k: Seq<char>| !#[trigger] t.devices@.contains_key(k)) {
        assert(t.passwords@ =~= Map::<Seq<char>, TrafficCounters>::empty());
        assert(t.devices@ =~= Map::<Seq<char>, TrafficCounters>::empty());
    }
}

/// What queueing counters does to the updates that wait.
pub open spec fn traffic_queued(
    before: Seq<(u64, PersistenceUpdate)>,
    after: Seq<(u64, PersistenceUpdate)>,
    revision: u64,
    traffic: TrafficSnapshot,
) -> bool {
    if before.len() > 0 && before.last().1 is Traffic {
        &&& after.len() == before.len()
        &&& after.drop_last() == before.drop_last()
        &&& after.last().0 == revision
        &&& after.last().1 is Traffic
        &&& after.last().1->Traffic_0.merged(before.last().1->Traffic_0, traffic)
    } else {
        after == before.push((revision, PersistenceUpdate::Traffic(traffic)))
    }
}

/// Queued counters are written under the newest revision, as they are; no update that waits
/// is lost, and counters that wait last are merged instead of queued behind each other.
pub proof fn law_queued_counters_are_written(
    before: Seq<(u64, PersistenceUpdate)>,
    after: Seq<(u64, PersistenceUpdate)>,
    revision: u64,
    traffic: TrafficSnapshot,
    key: Seq<char>,
    i: int,
)
    requires
        traffic_queued(before, after, revision, traffic),
    ensures
        after.len() >= 1,
        after.last().0 == revision,
        after.last().1 matches PersistenceUpdate::Traffic(t) && {
            &&& traffic.main is Some ==> t.main == traffic.main
            &&& traffic.passwords@.contains_key(key) ==> t.passwords@.contains_key(key)
                && t.passwords@[key] == traffic.passwords@[key]
            &&& traffic.devices@.contains_key(key) ==> t.devices@.contains_key(key)
                && t.devices@[key] == traffic.devices@[key]
        },
        before.len() <= after.len() <= before.len() + 1,
        0 <= i < before.len() - 1 ==> after[i] == before[i],
        before.len() > 0 && before.last().1 is Snapshot ==> after.len() == before.len() + 1
            && after[before.len() - 1] == before.last(),
        before.len() > 0 && before.last().1 is Traffic ==> after.len() == before.len(),
{
    if before.len() > 0 && before.last().1 is Traffic {
        law_merge_takes_the_newer(
            after.last().1->Traffic_0,
            before.last().1->Traffic_0,
            traffic,
            key,
        );
        if 0 <= i < before.len() - 1 {
            assert(after.drop_last()[i] == before.drop_last()[i]);
        }
    }
}

/// What is known of a write, given the last revision that was saved, the last that was tried,
/// and the last error.
pub open spec fn outcome_known(
    saved: u64,
    processed: u64,
    last_error: Option<String>,
    revision: u64,
    r: WriteOutcome,
) -> bool {
    &&& saved >= revision ==> r is Saved
    &&& saved < revision && processed >= revision ==> r is Failed && r->Failed_0@
        == match last_error {
        Some(error) => error@,
        None => "database persistence failed"@,
    }
    &&& saved < revision && processed < revision ==> r is Pending
}

/// A write waits until it was tried; then it has failed, with the last error, unless it or a
/// later one was saved.
pub proof fn law_outcomes_follow_revisions(
    saved: u64,
    processed: u64,
    last_error: Option<String>,
    revision: u64,
    r: WriteOutcome,
)
    requires
        saved <= processed,
        outcome_known(saved, processed, last_error, revision, r),
    ensures
        r is Pending <==> processed < revision,
        r is Saved <==> revision <= saved,
        r is Failed <==> saved < revision <= processed,
        r is Failed && last_error is Some ==> r->Failed_0@ == last_error->0@,
        r is Failed && last_error is None ==> r->Failed_0@ == "database persistence failed"@,
{
}

} // verus!
