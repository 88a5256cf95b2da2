//! Bookkeeping of the turns that are being worked on and of those that were
//! answered recently, so that no turn is handed to an engine twice.

use std::collections::HashMap;
use std::time::Duration;
use std::time::Instant;
use vstd::prelude::*;
use vstd::std_specs::hash::spec_hash_map_iter;
use vstd::std_specs::iter::IteratorSpec;

verus! {

broadcast use vstd::std_specs::hash::group_hash_axioms;

/// How long, in nanoseconds, an answered turn is remembered (one hour).
pub const HASH_RETENTION_NANOS: u128 = 3_600_000_000_000;

#[verifier::external_type_specification]
#[verifier::external_body]
pub struct ExInstant(Instant);

/// Reads the monotonic clock through `Instant::now`.
///
/// Trusted: nothing is promised of the value, which depends on the time.
#[verifier::external_body]
fn clock_now() -> Instant {
    Instant::now()
}

/// The time that went by since `start`, through `Instant::elapsed`.
///
/// Trusted: nothing is promised of the value, which depends on the time.
#[verifier::external_body]
fn elapsed_since(start: &Instant) -> Duration {
    start.elapsed()
}

/// The nanoseconds in `d`, through `Duration::as_nanos`.
///
/// Trusted: nothing is stated of the value, which is a clock reading.
#[verifier::external_body]
fn whole_nanos(d: &Duration) -> u128 {
    d.as_nanos()
}

/// Whether a turn answered at `stamp` is still remembered at `now`: the time
/// from `stamp` to `now` (zero if `now` is earlier) is under the retention
/// period.
pub open spec fn retained(stamp: u128, now: u128) -> bool {
    now < stamp + HASH_RETENTION_NANOS
}

/// The entries of `stamps` that are within the retention period at `now`.
pub open spec fn recent(stamps: Map<u64, u128>, now: u128) -> Map<u64, u128> {
    stamps.restrict(stamps.dom().filter(|h: u64| retained(stamps[h], now)))
}

/// Drops from `hashes` the entries past the retention period at `now`.
pub fn cleanup_old_hashes(hashes: &mut HashMap<u64, u128>, now: u128)
    ensures
        final(hashes)@ == recent(old(hashes)@, now),
{
    let ghost old_map = hashes@;
    let mut kept: HashMap<u64, u128> = HashMap::new();
    for pair in it: hashes.iter()
        invariant
            old_map == hashes@,
            it.seq() == spec_hash_map_iter(&*hashes).remaining(),
            forall|h: u64| #[trigger]
                kept@.contains_key(h) ==> old_map.contains_key(h) && kept@[h] == old_map[h]
                    && retained(old_map[h], now),
            forall|j: int|
                0 <= j < it.index() && retained(*it.seq()[j].1, now) ==> kept@.contains_key(
                    *#[trigger] it.seq()[j].0,
                ),
    {
        let (h, stamp) = pair;
        if *stamp >= now || now - *stamp < HASH_RETENTION_NANOS {
            kept.insert(*h, *stamp);
        }
    }
    proof {
        let seq = spec_hash_map_iter(&*hashes).remaining();
        assert forall|h: u64| old_map.contains_key(h) && retained(old_map[h], now) implies
            #[trigger] kept@.contains_key(h) by {
            assert(seq.contains((&h, &old_map[h])));
            let j = choose|j: int| 0 <= j < seq.len() && seq[j] == (&h, &old_map[h]);
            assert(*seq[j].0 == h);
        }
        assert(kept@ =~= recent(old_map, now));
    }
    *hashes = kept;
}

/// The larger of two clock readings.
pub open spec fn later(a: u128, b: u128) -> u128 {
    if a < b {
        b
    } else {
        a
    }
}

/// What a tracker holds: for each hash of a turn in work, and for each hash
/// of a turn answered, the clock reading (in nanoseconds) when it got there;
/// and the latest clock reading it was given.
pub struct TrackerView {
    pub processing: Map<u64, u128>,
    pub processed: Map<u64, u128>,
    pub latest: u128,
}

impl TrackerView {
    /// The state of a fresh tracker.
    pub open spec fn empty() -> TrackerView {
        TrackerView { processing: Map::empty(), processed: Map::empty(), latest: 0 }
    }

    /// No stamp is later than the latest clock reading.
    pub open spec fn wf(self) -> bool {
        &&& forall|h: u64| #[trigger]
            self.processing.contains_key(h) ==> self.processing[h] <= self.latest
        &&& forall|h: u64| #[trigger]
            self.processed.contains_key(h) ==> self.processed[h] <= self.latest
    }

    /// A turn is tracked while it is in work or remembered as answered.
    pub open spec fn is_tracked(self, hash: u64) -> bool {
        self.processing.contains_key(hash) || self.processed.contains_key(hash)
    }

    /// The state after the turn `hash` was put in work at `now`.
    pub open spec fn mark_processing(self, hash: u64, now: u128) -> TrackerView {
        TrackerView {
            processing: self.processing.insert(hash, now),
            processed: self.processed,
            latest: later(self.latest, now),
        }
    }

    /// The state after the turn `hash` was answered at `now`.
    pub open spec fn mark_processed(self, hash: u64, now: u128) -> TrackerView {
        TrackerView {
            processing: self.processing.remove(hash),
            processed: self.processed.insert(hash, now),
            latest: later(self.latest, now),
        }
    }

    /// The answered turns that are still remembered at `now`.
    pub open spec fn kept_processed(self, now: u128) -> Map<u64, u128> {
        recent(self.processed, now)
    }

    /// The state after forgetting, at `now`, the answered turns that are past
    /// the retention period. Turns in work are left alone.
    pub open spec fn clean(self, now: u128) -> TrackerView {
        TrackerView {
            processing: self.processing,
            processed: self.kept_processed(now),
            latest: later(self.latest, now),
        }
    }
}

/// One operation on a record of turns, with the clock reading it was made at.
pub enum TrackerOp {
    Processing(u64, u128),
    Processed(u64, u128),
    Cleanup(u128),
}

impl TrackerView {
    /// The state after one operation.
    pub open spec fn step(self, op: TrackerOp) -> TrackerView {
        match op {
            TrackerOp::Processing(hash, now) => self.mark_processing(hash, now),
            TrackerOp::Processed(hash, now) => self.mark_processed(hash, now),
            TrackerOp::Cleanup(now) => self.clean(now),
        }
    }

    /// The state after a sequence of operations, in order.
    pub open spec fn run(self, ops: Seq<TrackerOp>) -> TrackerView
        decreases ops.len(),
    {
        if ops.len() == 0 {
            self
        } else {
            self.run(ops.drop_last()).step(ops.last())
        }
    }
}

/// Operation `i` of `ops`, run from `v`, is a cleanup that forgets the turn
/// `hash`: just before it the turn was answered (and not in work again), and
/// the cleanup's time is a full retention period or more after that answer.
pub open spec fn forgets_at(v: TrackerView, ops: Seq<TrackerOp>, i: int, hash: u64) -> bool {
    let before = v.run(ops.take(i));
    match ops[i] {
        TrackerOp::Cleanup(now) => {
            &&& before.processed.contains_key(hash)
            &&& !before.processing.contains_key(hash)
            &&& !retained(before.processed[hash], now)
        },
        _ => false,
    }
}

/// The operations on a record of turns.
pub trait TurnTracking {
    /// Whether the turn with this hash is in work or was answered recently.
    fn is_tracked(&self, hash: u64) -> bool;

    /// Records that the turn with this hash was put in work.
    fn processing(&mut self, hash: u64);

    /// Records that the turn with this hash was answered.
    fn processed(&mut self, hash: u64);

    /// Forgets the answered turns that are past the retention period.
    fn cleanup(&mut self);
}

/// A record of the turns in work and of the turns answered recently, each
/// with the clock reading, in nanoseconds since the tracker was made, of
/// when it got there. The clock never goes back: a reading is never taken
/// below the latest one.
pub struct TurnTracker {
    processing_turns: HashMap<u64, u128>,
    processed_turns: HashMap<u64, u128>,
    start: Instant,
    latest: u128,
}

impl View for TurnTracker {
    type V = TrackerView;

    closed spec fn view(&self) -> TrackerView {
        TrackerView {
            processing: self.processing_turns@,
            processed: self.processed_turns@,
            latest: self.latest,
        }
    }
}

impl TurnTracker {
    /// A tracker with no turns.
    pub fn new() -> (tracker: TurnTracker)
        ensures
            tracker@ == TrackerView::empty(),
            tracker@.wf(),
    {
        let tracker = TurnTracker {
            processing_turns: HashMap::new(),
            processed_turns: HashMap::new(),
            start: clock_now(),
            latest: 0,
        };
        assert(tracker@.processing == TrackerView::empty().processing);
        assert(tracker@.processed == TrackerView::empty().processed);
        tracker
    }

    /// The nanoseconds since the tracker was made, and never less than the
    /// latest reading (`Instant` is monotonic; this keeps it so here).
    fn now_nanos(&self) -> (now: u128)
        ensures
            now >= self@.latest,
    {
        let d = elapsed_since(&self.start);
        let raw = whole_nanos(&d);
        if raw > self.latest {
            raw
        } else {
            self.latest
        }
    }

    fn advance_latest(&mut self, now: u128)
        ensures
            final(self).processing_turns == old(self).processing_turns,
            final(self).processed_turns == old(self).processed_turns,
            final(self).latest == later(old(self).latest, now),
    {
        if now > self.latest {
            self.latest = now;
        }
    }

    /// Records that the turn `hash` was put in work at `now`.
    pub fn processing_at(&mut self, hash: u64, now: u128)
        ensures
            final(self)@ == old(self)@.mark_processing(hash, now),
            old(self)@.wf() ==> final(self)@.wf(),
    {
        self.processing_turns.insert(hash, now);
        self.advance_latest(now);
        proof {
            if old(self)@.wf() {
                lemma_steps_keep_wf(old(self)@, hash, now);
            }
        }
    }

    /// Records that the turn `hash` was answered at `now`.
    pub fn processed_at(&mut self, hash: u64, now: u128)
        ensures
            final(self)@ == old(self)@.mark_processed(hash, now),
            old(self)@.wf() ==> final(self)@.wf(),
    {
        self.processing_turns.remove(&hash);
        self.processed_turns.insert(hash, now);
        self.advance_latest(now);
        proof {
            if old(self)@.wf() {
                lemma_steps_keep_wf(old(self)@, hash, now);
            }
        }
    }

    /// Forgets, at `now`, the answered turns that are past the retention
    /// period.
    pub fn cleanup_at(&mut self, now: u128)
        ensures
            final(self)@ == old(self)@.clean(now),
            old(self)@.wf() ==> final(self)@.wf(),
    {
        cleanup_old_hashes(&mut self.processed_turns, now);
        self.advance_latest(now);
        proof {
            if old(self)@.wf() {
                lemma_steps_keep_wf(old(self)@, 0, now);
            }
        }
    }
}

impl TurnTracking for TurnTracker {
    fn is_tracked(&self, hash: u64) -> (known: bool)
        ensures
            known == self@.is_tracked(hash),
    {
        self.processing_turns.contains_key(&hash) || self.processed_turns.contains_key(&hash)
    }

    /// Stamps the turn with the tracker's clock, which is no earlier than
    /// the latest reading.
    fn processing(&mut self, hash: u64)
        ensures
            final(self)@.processing[hash] >= old(self)@.latest,
            final(self)@ == old(self)@.mark_processing(hash, final(self)@.processing[hash]),
            old(self)@.wf() ==> final(self)@.wf(),
    {
        let now = self.now_nanos();
        self.processing_at(hash, now);
    }

    /// Stamps the turn with the tracker's clock, which is no earlier than
    /// the latest reading.
    fn processed(&mut self, hash: u64)
        ensures
            final(self)@.processed[hash] >= old(self)@.latest,
            final(self)@ == old(self)@.mark_processed(hash, final(self)@.processed[hash]),
            old(self)@.wf() ==> final(self)@.wf(),
    {
        let now = self.now_nanos();
        self.processed_at(hash, now);
    }

    /// Cleans at the time that the tracker's clock gives, which is no
    /// earlier than the latest reading, and so no earlier than any stamp.
    fn cleanup(&mut self)
        ensures
            exists|now: u128| now >= old(self)@.latest && final(self)@ == old(self)@.clean(now),
            old(self)@.wf() ==> final(self)@.wf(),
    {
        let now = self.now_nanos();
        self.cleanup_at(now);
    }
}

/// A tracked turn becomes untracked only through a cleanup made a full
/// retention period or more after the turn was last answered, and never
/// while it is in work: over any sequence of operations, if the turn was
/// tracked at the start and is not at the end, one of the operations is such
/// a cleanup.
pub proof fn lemma_untracked_only_by_expiry(v: TrackerView, ops: Seq<TrackerOp>, hash: u64)
    requires
        v.is_tracked(hash),
        !v.run(ops).is_tracked(hash),
    ensures
        exists|i: int| 0 <= i < ops.len() && #[trigger] forgets_at(v, ops, i, hash),
    decreases ops.len(),
{
    if ops.len() == 0 {
        assert(false);
    } else {
        let d = ops.drop_last();
        let prev = v.run(d);
        let i = ops.len() - 1;
        if prev.is_tracked(hash) {
            assert(ops.take(i) =~= d);
            assert(ops[i] == ops.last());
            assert(forgets_at(v, ops, i, hash));
        } else {
            lemma_untracked_only_by_expiry(v, d, hash);
            let j = choose|j: int| 0 <= j < d.len() && #[trigger] forgets_at(v, d, j, hash);
            assert(d.take(j) =~= ops.take(j));
            assert(d[j] == ops[j]);
            assert(forgets_at(v, ops, j, hash));
        }
    }
}

/// With the tracker's clock, which never goes back, a cleanup forgets every
/// answered turn (not in work) whose stamp is a full retention period or more
/// before the latest reading.
pub proof fn lemma_cleanup_forgets_old_answers(v: TrackerView, now: u128, hash: u64)
    requires
        now >= v.latest,
        v.processed.contains_key(hash),
        !v.processing.contains_key(hash),
        v.processed[hash] + HASH_RETENTION_NANOS <= v.latest,
    ensures
        !v.clean(now).is_tracked(hash),
{
}

/// Every operation keeps each stamp no later than the latest clock reading.
pub proof fn lemma_steps_keep_wf(v: TrackerView, hash: u64, now: u128)
    requires
        v.wf(),
    ensures
        v.mark_processing(hash, now).wf(),
        v.mark_processed(hash, now).wf(),
        v.clean(now).wf(),
{
}

/// A turn that was put in work is tracked.
pub proof fn lemma_processing_is_tracked(v: TrackerView, hash: u64, now: u128)
    ensures
        v.mark_processing(hash, now).is_tracked(hash),
{
}

/// A turn that was answered is tracked, is no longer in work, and carries
/// the time it was answered at.
pub proof fn lemma_processed_is_tracked(v: TrackerView, hash: u64, now: u128)
    ensures
        v.mark_processed(hash, now).is_tracked(hash),
        !v.mark_processed(hash, now).processing.contains_key(hash),
        v.mark_processed(hash, now).processed[hash] == now,
{
}

/// Putting a turn in work or answering it never makes another turn
/// untracked.
pub proof fn lemma_marking_keeps_tracked(v: TrackerView, hash: u64, now: u128, other: u64)
    requires
        v.is_tracked(other),
    ensures
        v.mark_processing(hash, now).is_tracked(other),
        v.mark_processed(hash, now).is_tracked(other),
{
}

/// Cleaning leaves the turns in work alone: a turn in work stays tracked.
pub proof fn lemma_cleanup_keeps_work(v: TrackerView, now: u128, hash: u64)
    requires
        v.processing.contains_key(hash),
    ensures
        v.clean(now).processing == v.processing,
        v.clean(now).is_tracked(hash),
{
}

/// An answered turn survives a cleaning exactly when it is within the
/// retention period, and keeps its stamp.
pub proof fn lemma_cleanup_by_age(v: TrackerView, now: u128, hash: u64)
    requires
        v.processed.contains_key(hash),
    ensures
        v.clean(now).processed.contains_key(hash) <==> retained(v.processed[hash], now),
        v.clean(now).processed.contains_key(hash) ==> v.clean(now).processed[hash]
            == v.processed[hash],
{
}

/// An answered turn past the retention period, and not in work again, is no
/// longer tracked after a cleaning.
pub proof fn lemma_expired_turn_forgotten(v: TrackerView, now: u128, hash: u64)
    requires
        v.processed.contains_key(hash),
        !retained(v.processed[hash], now),
        !v.processing.contains_key(hash),
    ensures
        !v.clean(now).is_tracked(hash),
{
}

/// Cleaning twice at the same time is cleaning once.
pub proof fn lemma_cleanup_idempotent(v: TrackerView, now: u128)
    ensures
        v.clean(now).clean(now) == v.clean(now),
{
    assert(v.clean(now).clean(now).processed =~= v.clean(now).processed);
}

/// A cleaning at a later time undoes nothing that an earlier one did: cleaning
/// at `earlier` and then at `later` is cleaning at `later`.
pub proof fn lemma_cleanup_later_subsumes(v: TrackerView, earlier: u128, later: u128)
    requires
        earlier <= later,
    ensures
        v.clean(earlier).clean(later) == v.clean(later),
{
    assert(v.clean(earlier).clean(later).processed =~= v.clean(later).processed);
}

} // verus!
