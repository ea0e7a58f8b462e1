//! The hold queue: bounced messages parked under single-use handles.
//!
//! - A handle is minted when a message bounces, never before, and no handle is
//!   minted twice.
//! - A handle that has left the queue never comes back.
//! - A message is dead from its deadline on, whether or not it has been swept.
//! - A message whose delivery is under way is left alone by everything but the
//!   delivery.
//!
//! Time is passed in, so that each of these can be stated.

use vstd::prelude::*;
use std::hash::{BuildHasher, DefaultHasher, Hasher, RandomState};
use crate::clock::{Duration, Instant, Timestamp};
use crate::contradictionary::copy_opt;
use crate::no_rly::judge::{ReasonView, RejectReason};
use crate::table::{self, Key, Table};
use crate::text;

verus! {

// ── Handles ─────────────────────────────────────────────────────────────────

/// A single-use claim ticket for one bounced message, such as `nr-3f92-7`.
///
/// A handle is a token of consent, not of secrecy: it has a meaning only in the
/// queue that minted it.
#[derive(Debug, PartialEq, Eq, Hash, PartialOrd, Ord)]
pub struct HoldHandle(pub String);

impl View for HoldHandle {
    type V = Seq<char>;

    open spec fn view(&self) -> Seq<char> {
        self.0@
    }
}

impl Clone for HoldHandle {
    fn clone(&self) -> (r: Self)
        ensures
            r == *self,
    {
        HoldHandle(self.0.clone())
    }
}

impl Key for HoldHandle {
    type Id = Seq<char>;

    open spec fn id(&self) -> Seq<char> {
        self@
    }

    fn same(&self, other: &Self) -> (r: bool) {
        self.0 == other.0
    }
}

impl HoldHandle {
    /// Wraps a string for lookup. That alone grants nothing: the handle means
    /// something only where it is live in a queue.
    pub fn new(s: &str) -> (r: Self)
        ensures
            r@ == s@,
    {
        HoldHandle(s.to_owned())
    }

    /// The handle as a string.
    pub fn as_str(&self) -> (r: &str)
        ensures
            r@ == self@,
    {
        self.0.as_str()
    }
}

impl From<String> for HoldHandle {
    fn from(s: String) -> (r: Self) {
        HoldHandle(s)
    }
}

impl vstd::std_specs::convert::FromSpecImpl<String> for HoldHandle {
    open spec fn obeys_from_spec() -> bool {
        true
    }

    open spec fn from_spec(s: String) -> HoldHandle {
        HoldHandle(s)
    }
}

/// The handle that a queue with this nonce mints as its `n`th.
pub open spec fn handle_text(nonce: nat, n: nat) -> Seq<char> {
    "nr-"@ + text::hex4(nonce) + "-"@ + text::decimal(n)
}

/// A queue mints no handle twice.
pub proof fn law_handles_are_unique(nonce: nat, a: nat, b: nat)
    requires
        handle_text(nonce, a) == handle_text(nonce, b),
    ensures
        a == b,
{
    let prefix = "nr-"@ + text::hex4(nonce) + "-"@;
    assert(handle_text(nonce, a).skip(prefix.len() as int) =~= text::decimal(a));
    assert(handle_text(nonce, b).skip(prefix.len() as int) =~= text::decimal(b));
    text::lemma_decimal_injective(a, b);
}

// ── Held messages ───────────────────────────────────────────────────────────

/// One bounced message in the queue.
#[derive(Debug)]
pub struct Held<T> {
    /// What is held: a release sends exactly this.
    pub payload: T,
    /// Why it bounced.
    pub reason: RejectReason,
    /// The handle that this bounce chains from, where a rephrase bounced again.
    pub parent: Option<HoldHandle>,
    /// When it bounced, for the journal.
    pub bounced_at: Timestamp,
    /// When it bounced, for measuring latency.
    pub bounced_instant: Instant,
    /// From when on the entry is dead.
    pub deadline: Instant,
    /// Whether a delivery of the entry is under way.
    pub in_flight: bool,
    /// The messages that an earlier, partial delivery has posted.
    pub sent_ids: Vec<u64>,
    /// The whole text, where a partial delivery has cut the payload down to the
    /// part not delivered yet.
    pub original_message: Option<String>,
    /// The first text, where a replacement was accepted and its delivery failed.
    pub withdrawn_original: Option<String>,
}

/// A [`Held`] as a value.
#[verifier::ext_equal]
pub struct HeldView<T> {
    pub payload: T,
    pub reason: Seq<ReasonView>,
    pub parent: Option<Seq<char>>,
    pub bounced_at: Timestamp,
    pub bounced_instant: Instant,
    pub deadline: Instant,
    pub in_flight: bool,
    pub sent_ids: Seq<u64>,
    pub original_message: Option<Seq<char>>,
    pub withdrawn_original: Option<Seq<char>>,
}

/// The text of an optional handle.
pub open spec fn handle_opt(handle: Option<HoldHandle>) -> Option<Seq<char>> {
    match handle {
        Some(h) => Some(h@),
        None => None,
    }
}

impl<T> View for Held<T> {
    type V = HeldView<T>;

    open spec fn view(&self) -> HeldView<T> {
        HeldView {
            payload: self.payload,
            reason: self.reason@,
            parent: handle_opt(self.parent),
            bounced_at: self.bounced_at,
            bounced_instant: self.bounced_instant,
            deadline: self.deadline,
            in_flight: self.in_flight,
            sent_ids: self.sent_ids@,
            original_message: text::text_opt(self.original_message),
            withdrawn_original: text::text_opt(self.withdrawn_original),
        }
    }
}

impl<T> HeldView<T> {
    /// Whether the deadline has come.
    pub open spec fn expired(self, now: Instant) -> bool {
        now.nanos >= self.deadline.nanos
    }

    /// The time since the bounce.
    pub open spec fn latency(self, now: Instant) -> Duration {
        now.since(self.bounced_instant)
    }

    /// The time left until the deadline.
    pub open spec fn left(self, now: Instant) -> Duration {
        self.deadline.since(now)
    }
}

/// A copy of a vector of ids.
pub fn copy_ids(ids: &Vec<u64>) -> (r: Vec<u64>)
    ensures
        r@ == ids@,
{
    let mut out: Vec<u64> = Vec::new();
    let mut i: usize = 0;
    while i < ids.len()
        invariant
            i <= ids@.len(),
            out@ == ids@.take(i as int),
        decreases ids@.len() - i,
    {
        out.push(ids[i]);
        assert(ids@.take(i + 1) =~= ids@.take(i as int).push(ids@[i as int]));
        i = i + 1;
    }
    assert(ids@.take(ids@.len() as int) =~= ids@);
    out
}

/// A copy of an optional handle.
pub fn copy_handle_opt(h: &Option<HoldHandle>) -> (r: Option<HoldHandle>)
    ensures
        r == *h,
{
    match h {
        Some(x) => Some(x.clone()),
        None => None,
    }
}

impl<T: Clone> Clone for Held<T> {
    fn clone(&self) -> (r: Self)
        ensures
            r@ == (HeldView { payload: r.payload, ..self@ }),
            cloned(self.payload, r.payload),
    {
        Held {
            payload: self.payload.clone(),
            reason: self.reason.clone(),
            parent: copy_handle_opt(&self.parent),
            bounced_at: self.bounced_at,
            bounced_instant: self.bounced_instant,
            deadline: self.deadline,
            in_flight: self.in_flight,
            sent_ids: copy_ids(&self.sent_ids),
            original_message: copy_opt(&self.original_message),
            withdrawn_original: copy_opt(&self.withdrawn_original),
        }
    }
}

impl<T> Held<T> {
    /// The time since the bounce.
    pub fn latency(&self, now: Instant) -> (r: Duration)
        ensures
            r == self@.latency(now),
    {
        now.saturating_duration_since(self.bounced_instant)
    }

    /// The time left until the entry expires, zero where it has expired.
    pub fn expires_in(&self, now: Instant) -> (r: Duration)
        ensures
            r == self@.left(now),
    {
        self.deadline.saturating_duration_since(now)
    }

    /// Whether the entry's deadline has come.
    pub fn is_expired(&self, now: Instant) -> (r: bool)
        ensures
            r == self@.expired(now),
    {
        now.nanos >= self.deadline.nanos
    }
}

/// Why [`HoldQueue::claim`] or [`HoldQueue::reserve`] hands nothing back.
#[derive(Debug)]
pub enum ClaimError<T> {
    /// The handle is not live, or its delivery is under way.
    Unknown,
    /// The deadline had come. The entry has been taken out and is handed over,
    /// so that its expiry can be recorded.
    Expired(Box<Held<T>>),
}

// ── The queue as a value ────────────────────────────────────────────────────

/// A queue as a value: what it has minted, and what is live in it.
#[verifier::ext_equal]
#[verifier::reject_recursive_types(T)]
pub struct QueueView<T> {
    /// The number that tells this queue's handles from another's.
    pub nonce: nat,
    /// How many handles have been minted.
    pub minted: nat,
    /// The live entries by handle.
    pub entries: Map<Seq<char>, HeldView<T>>,
}

/// Whether `id` is one of the handles that the queue has minted.
pub open spec fn was_minted<T>(q: QueueView<T>, id: Seq<char>) -> bool {
    exists|n: nat| 1 <= n <= q.minted && id == #[trigger] handle_text(q.nonce, n)
}

/// Every live handle has been minted by the queue.
pub open spec fn queue_wf<T>(q: QueueView<T>) -> bool {
    forall|id: Seq<char>| #[trigger] q.entries.contains_key(id) ==> was_minted(q, id)
}

/// The deadline of a message that bounces at `now`. A time to live past the end
/// of the clock is cut to a year, or else to nothing.
pub open spec fn deadline_of(now: Instant, ttl: Duration) -> Instant {
    match now.later(ttl) {
        Some(deadline) => deadline,
        None => match now.later(Duration { nanos: 31_536_000_000_000_000 }) {
            Some(deadline) => deadline,
            None => now,
        },
    }
}

/// The handle that the queue mints next.
pub open spec fn next_handle<T>(q: QueueView<T>) -> Seq<char> {
    handle_text(q.nonce, q.minted + 1)
}

/// The queue after it has minted a handle and parked `entry` under it.
pub open spec fn after_hold<T>(q: QueueView<T>, entry: HeldView<T>) -> QueueView<T> {
    QueueView { minted: q.minted + 1, entries: q.entries.insert(next_handle(q), entry), ..q }
}

/// The queue without `id`.
pub open spec fn after_removal<T>(q: QueueView<T>, id: Seq<char>) -> QueueView<T> {
    QueueView { entries: q.entries.remove(id), ..q }
}

/// The queue with `entry` in the place of what is live under `id`; the same
/// queue where nothing is.
pub open spec fn after_change<T>(q: QueueView<T>, id: Seq<char>, entry: HeldView<T>) -> QueueView<T> {
    if q.entries.contains_key(id) {
        QueueView { entries: q.entries.insert(id, entry), ..q }
    } else {
        q
    }
}

/// Whether an entry leaves a queue that is swept at `due`, or emptied: one whose
/// delivery is under way never does.
pub open spec fn leaves<T>(entry: HeldView<T>, due: Option<Instant>) -> bool {
    !entry.in_flight && (due matches Some(now) ==> entry.expired(now))
}

/// The queue after a sweep at `due`, or after it has been emptied.
pub open spec fn after_sweep<T>(q: QueueView<T>, due: Option<Instant>) -> QueueView<T> {
    QueueView {
        entries: Map::new(
            |id: Seq<char>| q.entries.contains_key(id) && !leaves(q.entries[id], due),
            |id: Seq<char>| q.entries[id],
        ),
        ..q
    }
}

/// A step of the queue.
#[verifier::reject_recursive_types(T)]
pub enum QueueStep<T> {
    /// A message is parked under a new handle.
    Hold(HeldView<T>),
    /// A handle is consumed, or its entry expires or is evicted.
    Remove(Seq<char>),
    /// The entry of a live handle changes.
    Change(Seq<char>, HeldView<T>),
    /// What has expired leaves, or everything does.
    Sweep(Option<Instant>),
}

/// The queue after one step.
pub open spec fn after_step<T>(q: QueueView<T>, step: QueueStep<T>) -> QueueView<T> {
    match step {
        QueueStep::Hold(entry) => after_hold(q, entry),
        QueueStep::Remove(id) => after_removal(q, id),
        QueueStep::Change(id, entry) => after_change(q, id, entry),
        QueueStep::Sweep(due) => after_sweep(q, due),
    }
}

/// The queue after a sequence of steps.
pub open spec fn after_steps<T>(q: QueueView<T>, steps: Seq<QueueStep<T>>) -> QueueView<T>
    decreases steps.len(),
{
    if steps.len() == 0 {
        q
    } else {
        after_step(after_steps(q, steps.drop_last()), steps.last())
    }
}

/// Every step keeps the queue well-formed, mints no handle anew and brings no
/// handle back: whatever is live afterwards was live before or is new.
pub proof fn lemma_step<T>(q: QueueView<T>, step: QueueStep<T>)
    requires
        queue_wf(q),
    ensures
        queue_wf(after_step(q, step)),
        after_step(q, step).nonce == q.nonce,
        after_step(q, step).minted >= q.minted,
        forall|id: Seq<char>|
            was_minted(q, id) && !q.entries.contains_key(id)
                ==> !#[trigger] after_step(q, step).entries.contains_key(id),
        forall|id: Seq<char>| #[trigger] was_minted(q, id) ==> was_minted(after_step(q, step), id),
        !q.entries.contains_key(next_handle(q)),
{
    let after = after_step(q, step);
    assert forall|id: Seq<char>| #[trigger] was_minted(q, id) implies was_minted(after, id) by {
        let n = choose|n: nat| 1 <= n <= q.minted && id == #[trigger] handle_text(q.nonce, n);
        assert(id == handle_text(after.nonce, n));
    }
    assert(!was_minted(q, next_handle(q))) by {
        if was_minted(q, next_handle(q)) {
            let n = choose|n: nat|
                1 <= n <= q.minted && next_handle(q) == #[trigger] handle_text(q.nonce, n);
            law_handles_are_unique(q.nonce, n, q.minted + 1);
        }
    }
    assert forall|id: Seq<char>| #[trigger] after.entries.contains_key(id) implies was_minted(
        after,
        id,
    ) by {
        if q.entries.contains_key(id) {
            assert(was_minted(q, id));
        } else {
            assert(id == handle_text(after.nonce, after.minted));
        }
    }
}

/// A handle that was minted and is no longer live never becomes live again,
/// whatever happens to the queue: it can be used at most once.
pub proof fn law_dead_handles_stay_dead<T>(
    q: QueueView<T>,
    steps: Seq<QueueStep<T>>,
    id: Seq<char>,
)
    requires
        queue_wf(q),
        was_minted(q, id),
        !q.entries.contains_key(id),
    ensures
        !after_steps(q, steps).entries.contains_key(id),
        queue_wf(after_steps(q, steps)),
        was_minted(after_steps(q, steps), id),
    decreases steps.len(),
{
    if steps.len() > 0 {
        law_dead_handles_stay_dead(q, steps.drop_last(), id);
        lemma_step(after_steps(q, steps.drop_last()), steps.last());
    }
}

/// An entry whose delivery is under way outlives every sweep and every
/// emptying of the queue, unchanged.
pub proof fn law_in_flight_entries_survive_sweeps<T>(
    q: QueueView<T>,
    id: Seq<char>,
    due: Option<Instant>,
)
    requires
        q.entries.contains_key(id),
        q.entries[id].in_flight,
    ensures
        after_sweep(q, due).entries.contains_key(id),
        after_sweep(q, due).entries[id] == q.entries[id],
{
}

// ── The queue ───────────────────────────────────────────────────────────────

/// Bounced messages in memory, each under its single-use handle.
pub struct HoldQueue<T> {
    entries: Table<HoldHandle, Held<T>>,
    nonce: u16,
    seq: u64,
}

/// `std::hash::RandomState::new`: new keys, of which nothing is known.
pub assume_specification[ RandomState::new ]() -> (r: RandomState);

/// `std::hash::BuildHasher::build_hasher` of `std::hash::RandomState`: a hasher
/// that starts from the keys, of which nothing is known.
#[verifier::external_body]
fn seeded_hasher(state: &RandomState) -> (r: DefaultHasher) {
    state.build_hasher()
}

/// A number that chance decides on.
fn random_nonce() -> (r: u16) {
    let state: RandomState = RandomState::new();
    let hasher: DefaultHasher = seeded_hasher(&state);
    hasher.finish() as u16
}

/// The values of a map of held messages.
pub open spec fn held_views<T>(m: Map<Seq<char>, Held<T>>) -> Map<Seq<char>, HeldView<T>> {
    m.map_values(|h: Held<T>| h@)
}

impl<T> View for HoldQueue<T> {
    type V = QueueView<T>;

    closed spec fn view(&self) -> QueueView<T> {
        QueueView {
            nonce: self.nonce as nat,
            minted: self.seq as nat,
            entries: held_views(self.entries.map()),
        }
    }
}

impl<T> HoldQueue<T> {
    /// The queue's invariant.
    pub closed spec fn wf(&self) -> bool {
        self.entries.wf() && queue_wf(self@)
    }

    /// An empty queue with a random nonce.
    pub fn new() -> (r: Self)
        ensures
            r.wf(),
            r@.minted == 0,
            r@.entries == Map::<Seq<char>, HeldView<T>>::empty(),
    {
        HoldQueue::with_nonce(random_nonce())
    }

    /// An empty queue with a given nonce.
    pub fn with_nonce(nonce: u16) -> (r: Self)
        ensures
            r.wf(),
            r@ == (QueueView {
                nonce: nonce as nat,
                minted: 0,
                entries: Map::<Seq<char>, HeldView<T>>::empty(),
            }),
    {
        let r: HoldQueue<T> = HoldQueue { entries: Table::new(), nonce, seq: 0 };
        assert(r@.entries =~= Map::<Seq<char>, HeldView<T>>::empty());
        r
    }

    /// Parks a message that bounces now and mints its handle.
    pub fn hold(
        &mut self,
        payload: T,
        reason: RejectReason,
        parent: Option<HoldHandle>,
        ttl: Duration,
        now: Instant,
    ) -> (r: HoldHandle)
        requires
            old(self).wf(),
            old(self)@.minted < u64::MAX,
        ensures
            final(self).wf(),
            r@ == next_handle(old(self)@),
            !old(self)@.entries.contains_key(r@),
            exists|bounced_at: Timestamp| #[trigger]
                is_fresh(
                    old(self)@,
                    final(self)@,
                    payload,
                    reason@,
                    handle_opt(parent),
                    bounced_at,
                    ttl,
                    now,
                ),
    {
        let bounced_at: Timestamp = Timestamp::now();
        let ghost before = self@;
        let r: HoldHandle = self.hold_at(payload, reason, parent, bounced_at, ttl, now);
        assert(is_fresh(
            before,
            self@,
            payload,
            reason@,
            handle_opt(parent),
            bounced_at,
            ttl,
            now,
        ));
        r
    }

    /// Parks a message that bounced at `bounced_at` and mints its handle. The
    /// time to live is the entry's own: it does not change afterwards.
    pub fn hold_at(
        &mut self,
        payload: T,
        reason: RejectReason,
        parent: Option<HoldHandle>,
        bounced_at: Timestamp,
        ttl: Duration,
        now: Instant,
    ) -> (r: HoldHandle)
        requires
            old(self).wf(),
            old(self)@.minted < u64::MAX,
        ensures
            final(self).wf(),
            r@ == next_handle(old(self)@),
            !old(self)@.entries.contains_key(r@),
            final(self)@ == after_hold(
                old(self)@,
                fresh_entry(payload, reason@, handle_opt(parent), bounced_at, ttl, now),
            ),
    {
        let ghost before = self@;
        let deadline: Instant = match now.checked_add(ttl) {
            Some(deadline) => deadline,
            None => match now.checked_add(Duration::from_secs(365 * 24 * 3600)) {
                Some(deadline) => deadline,
                None => now,
            },
        };
        let entry: Held<T> = Held {
            payload,
            reason,
            parent,
            bounced_at,
            bounced_instant: now,
            deadline,
            in_flight: false,
            sent_ids: Vec::new(),
            original_message: None,
            withdrawn_original: None,
        };
        self.seq = self.seq + 1;
        let mut name: String = "nr-".to_owned();
        let nonce: String = text::hex4_string(self.nonce);
        name.append(nonce.as_str());
        name.append("-");
        let number: String = text::decimal_string(self.seq);
        name.append(number.as_str());
        let handle: HoldHandle = HoldHandle(name);
        let key: HoldHandle = handle.clone();
        proof {
            lemma_step(before, QueueStep::Hold(entry@));
            assert(handle@ == next_handle(before));
            assert(before.entries.contains_key(key.id()) == self.entries.map().contains_key(
                key.id(),
            ));
        }
        self.entries.push(key, entry);
        proof {
            assert(self@.entries =~= before.entries.insert(handle@, entry@));
            assert(self@ == after_hold(before, entry@));
        }
        handle
    }

    /// Takes a live entry out.
    fn take(&mut self, handle: &HoldHandle) -> (r: Option<(HoldHandle, Held<T>)>)
        requires
            old(self).wf(),
        ensures
            final(self).wf(),
            match r {
                Some((key, entry)) => {
                    &&& old(self)@.entries.contains_key(handle@)
                    &&& key@ == handle@
                    &&& entry@ == old(self)@.entries[handle@]
                    &&& was_minted(final(self)@, key@)
                },
                None => !old(self)@.entries.contains_key(handle@),
            },
            final(self)@ == after_removal(old(self)@, handle@),
    {
        let ghost before = self@;
        proof {
            lemma_step(before, QueueStep::Remove(handle@));
        }
        match self.entries.find(handle) {
            Some(i) => {
                let (key, entry) = self.entries.remove_at(i);
                assert(self@.entries =~= before.entries.remove(handle@));
                assert(was_minted(before, handle@));
                assert(self@ == after_removal(before, handle@));
                Some((key, entry))
            },
            None => {
                assert(self@.entries =~= before.entries.remove(handle@));
                None
            },
        }
    }

    /// Puts an entry back under the handle that it was taken from.
    fn put(&mut self, key: HoldHandle, entry: Held<T>)
        requires
            old(self).wf(),
            !old(self)@.entries.contains_key(key@),
            was_minted(old(self)@, key@),
        ensures
            final(self).wf(),
            final(self)@ == (QueueView {
                entries: old(self)@.entries.insert(key@, entry@),
                ..old(self)@
            }),
    {
        let ghost before = self@;
        assert(before.entries.contains_key(key.id()) == self.entries.map().contains_key(key.id()));
        self.entries.push(key, entry);
        proof {
            assert(self@.entries =~= before.entries.insert(key@, entry@));
            assert forall|id: Seq<char>| #[trigger] self@.entries.contains_key(id) implies was_minted(
                self@,
                id,
            ) by {
                assert(was_minted(before, id));
                let n = choose|n: nat|
                    1 <= n <= before.minted && id == #[trigger] handle_text(before.nonce, n);
                assert(id == handle_text(self@.nonce, n));
            }
        }
    }

    /// A live entry, without consuming its handle: whoever acts on it calls
    /// [`HoldQueue::settle`] when that has worked. An entry past its deadline is
    /// taken out and reported as expired. One whose delivery is under way is as good as
    /// unknown.
    pub fn claim(&mut self, handle: &HoldHandle, now: Instant) -> (r: Result<
        Held<T>,
        ClaimError<T>,
    >) where T: Clone
        requires
            old(self).wf(),
        ensures
            final(self).wf(),
            match r {
                Ok(entry) => {
                    &&& reservable(old(self)@, handle@, now)
                    &&& snapshot_of(old(self)@.entries[handle@], entry)
                    &&& final(self)@ == old(self)@
                },
                Err(ClaimError::Unknown) => {
                    &&& !old(self)@.entries.contains_key(handle@)
                        || old(self)@.entries[handle@].in_flight
                    &&& final(self)@ == old(self)@
                },
                Err(ClaimError::Expired(entry)) => {
                    &&& old(self)@.entries.contains_key(handle@)
                    &&& !old(self)@.entries[handle@].in_flight
                    &&& old(self)@.entries[handle@].expired(now)
                    &&& entry@ == old(self)@.entries[handle@]
                    &&& final(self)@ == after_removal(old(self)@, handle@)
                },
            },
    {
        match self.entries.find(handle) {
            None => {
                return Err(ClaimError::Unknown);
            },
            Some(i) => {
                let entry: &Held<T> = self.entries.value_at(i);
                if entry.in_flight {
                    return Err(ClaimError::Unknown);
                }
                if !entry.is_expired(now) {
                    return Ok(entry.clone());
                }
            },
        }
        match self.take(handle) {
            Some((_, entry)) => Err(ClaimError::Expired(Box::new(entry))),
            None => Err(ClaimError::Unknown),
        }
    }

    /// Reserves a live entry for a delivery: hands out a copy and marks the
    /// entry, so that nothing else touches it until the delivery is over. A
    /// handle whose delivery is under way is as good as unknown.
    pub fn reserve(&mut self, handle: &HoldHandle, now: Instant) -> (r: Result<
        Held<T>,
        ClaimError<T>,
    >) where T: Clone
        requires
            old(self).wf(),
        ensures
            final(self).wf(),
            match r {
                Ok(entry) => {
                    &&& reservable(old(self)@, handle@, now)
                    &&& snapshot_of(
                        HeldView { in_flight: true, ..old(self)@.entries[handle@] },
                        entry,
                    )
                    &&& final(self)@ == after_change(
                        old(self)@,
                        handle@,
                        HeldView { in_flight: true, ..old(self)@.entries[handle@] },
                    )
                },
                Err(ClaimError::Unknown) => {
                    &&& !old(self)@.entries.contains_key(handle@)
                        || old(self)@.entries[handle@].in_flight
                    &&& final(self)@ == old(self)@
                },
                Err(ClaimError::Expired(entry)) => {
                    &&& old(self)@.entries.contains_key(handle@)
                    &&& !old(self)@.entries[handle@].in_flight
                    &&& old(self)@.entries[handle@].expired(now)
                    &&& entry@ == old(self)@.entries[handle@]
                    &&& final(self)@ == after_removal(old(self)@, handle@)
                },
            },
    {
        let ghost before = self@;
        match self.take(handle) {
            None => {
                assert(self@.entries =~= before.entries);
                Err(ClaimError::Unknown)
            },
            Some((key, mut entry)) => {
                if entry.in_flight {
                    self.put(key, entry);
                    assert(self@.entries =~= before.entries);
                    return Err(ClaimError::Unknown);
                }
                if entry.is_expired(now) {
                    return Err(ClaimError::Expired(Box::new(entry)));
                }
                entry.in_flight = true;
                let copy: Held<T> = entry.clone();
                self.put(key, entry);
                assert(self@.entries =~= before.entries.insert(handle@, entry@));
                Ok(copy)
            },
        }
    }

    /// Ends a reservation without consuming the handle. Nothing happens where
    /// the handle is gone.
    pub fn release_reservation(&mut self, handle: &HoldHandle)
        requires
            old(self).wf(),
        ensures
            final(self).wf(),
            final(self)@ == after_change(
                old(self)@,
                handle@,
                HeldView { in_flight: false, ..old(self)@.entries[handle@] },
            ),
    {
        let ghost before = self@;
        match self.take(handle) {
            None => {
                assert(self@.entries =~= before.entries);
            },
            Some((key, mut entry)) => {
                entry.in_flight = false;
                self.put(key, entry);
                assert(self@.entries =~= before.entries.insert(handle@, entry@));
            },
        }
    }

    /// Records a partial delivery, so that a retry goes on where it stopped:
    /// the payload becomes `remainder`, the new message ids are added, the whole
    /// text is kept (once), and the reservation ends. Nothing happens where the
    /// handle is gone.
    pub fn record_partial(
        &mut self,
        handle: &HoldHandle,
        remainder: T,
        newly_sent: Vec<u64>,
        full_message: String,
    )
        requires
            old(self).wf(),
        ensures
            final(self).wf(),
            final(self)@ == after_change(
                old(self)@,
                handle@,
                partly_sent(old(self)@.entries[handle@], remainder, newly_sent@, full_message@),
            ),
    {
        let ghost before = self@;
        match self.take(handle) {
            None => {
                assert(self@.entries =~= before.entries);
            },
            Some((key, mut entry)) => {
                let ghost was = entry@;
                if entry.original_message.is_none() {
                    entry.original_message = Some(full_message);
                }
                let mut sent: Vec<u64> = newly_sent;
                entry.sent_ids.append(&mut sent);
                entry.payload = remainder;
                entry.in_flight = false;
                assert(entry@ == partly_sent(was, remainder, newly_sent@, full_message@));
                self.put(key, entry);
                assert(self@.entries =~= before.entries.insert(handle@, entry@));
            },
        }
    }

    /// Consumes a handle after its payload was acted on.
    pub fn settle(&mut self, handle: &HoldHandle) -> (r: Option<Held<T>>)
        requires
            old(self).wf(),
        ensures
            final(self).wf(),
            final(self)@ == after_removal(old(self)@, handle@),
            match r {
                Some(entry) => old(self)@.entries.contains_key(handle@) && entry@
                    == old(self)@.entries[handle@],
                None => !old(self)@.entries.contains_key(handle@),
            },
    {
        match self.take(handle) {
            Some((_, entry)) => Some(entry),
            None => None,
        }
    }

    /// Replaces a live entry's payload and nothing else of it; tells whether the
    /// handle is live.
    pub fn update_payload(&mut self, handle: &HoldHandle, payload: T) -> (r: bool)
        requires
            old(self).wf(),
        ensures
            final(self).wf(),
            r == old(self)@.entries.contains_key(handle@),
            final(self)@ == after_change(
                old(self)@,
                handle@,
                HeldView { payload, ..old(self)@.entries[handle@] },
            ),
    {
        let ghost before = self@;
        match self.take(handle) {
            None => {
                assert(self@.entries =~= before.entries);
                false
            },
            Some((key, mut entry)) => {
                entry.payload = payload;
                self.put(key, entry);
                assert(self@.entries =~= before.entries.insert(handle@, entry@));
                true
            },
        }
    }

    /// Gives a live entry another deadline. Nothing happens where the handle is
    /// gone.
    pub fn refresh_deadline(&mut self, handle: &HoldHandle, deadline: Instant)
        requires
            old(self).wf(),
        ensures
            final(self).wf(),
            final(self)@ == after_change(
                old(self)@,
                handle@,
                HeldView { deadline, ..old(self)@.entries[handle@] },
            ),
    {
        let ghost before = self@;
        match self.take(handle) {
            None => {
                assert(self@.entries =~= before.entries);
            },
            Some((key, mut entry)) => {
                entry.deadline = deadline;
                self.put(key, entry);
                assert(self@.entries =~= before.entries.insert(handle@, entry@));
            },
        }
    }

    /// Keeps (once) the text that a replacement took the place of. Nothing
    /// happens where the handle is gone or a text is already kept.
    pub fn set_withdrawn_original(&mut self, handle: &HoldHandle, original: String)
        requires
            old(self).wf(),
        ensures
            final(self).wf(),
            final(self)@ == after_change(
                old(self)@,
                handle@,
                withdrawn(old(self)@.entries[handle@], original@),
            ),
    {
        let ghost before = self@;
        match self.take(handle) {
            None => {
                assert(self@.entries =~= before.entries);
            },
            Some((key, mut entry)) => {
                let ghost was = entry@;
                if entry.withdrawn_original.is_none() {
                    entry.withdrawn_original = Some(original);
                }
                assert(entry@ == withdrawn(was, original@));
                self.put(key, entry);
                assert(self@.entries =~= before.entries.insert(handle@, entry@));
            },
        }
    }

    /// Forgets the whole text of a message that was partly sent: another text takes
    /// its place. Nothing happens where the handle is gone.
    pub fn forget_original_message(&mut self, handle: &HoldHandle)
        requires
            old(self).wf(),
        ensures
            final(self).wf(),
            final(self)@ == after_change(
                old(self)@,
                handle@,
                HeldView { original_message: None, ..old(self)@.entries[handle@] },
            ),
    {
        let ghost before = self@;
        match self.take(handle) {
            None => {
                assert(self@.entries =~= before.entries);
            },
            Some((key, mut entry)) => {
                entry.original_message = None;
                self.put(key, entry);
                assert(self@.entries =~= before.entries.insert(handle@, entry@));
            },
        }
    }

    /// Takes out the entry closest to its deadline, of those whose delivery is
    /// not under way.
    pub fn evict_next_expiring(&mut self) -> (r: Option<(HoldHandle, Held<T>)>)
        requires
            old(self).wf(),
        ensures
            final(self).wf(),
            match r {
                Some((handle, entry)) => {
                    &&& old(self)@.entries.contains_key(handle@)
                    &&& entry@ == old(self)@.entries[handle@]
                    &&& next_to_expire(old(self)@, handle@)
                    &&& final(self)@ == after_removal(old(self)@, handle@)
                },
                None => {
                    &&& forall|id: Seq<char>| #[trigger]
                        old(self)@.entries.contains_key(id) ==> old(self)@.entries[id].in_flight
                    &&& final(self)@ == old(self)@
                },
            },
    {
        let ghost before = self@;
        let ghost seq = self.entries.seq();
        let mut best: Option<usize> = None;
        let mut i: usize = 0;
        while i < self.entries.len()
            invariant
                self.wf(),
                self@ == before,
                seq == self.entries.seq(),
                i <= seq.len(),
                best matches Some(b) ==> {
                    &&& b < i
                    &&& !seq[b as int].1.in_flight
                    &&& forall|k: int|
                        0 <= k < i && !(#[trigger] seq[k]).1.in_flight ==> seq[b as int].1.deadline.nanos
                            <= seq[k].1.deadline.nanos
                },
                best is None ==> forall|k: int| 0 <= k < i ==> (#[trigger] seq[k]).1.in_flight,
            decreases seq.len() - i,
        {
            let candidate: &Held<T> = self.entries.value_at(i);
            if !candidate.in_flight {
                match best {
                    None => {
                        best = Some(i);
                    },
                    Some(b) => {
                        if candidate.deadline.nanos < self.entries.value_at(b).deadline.nanos {
                            best = Some(i);
                        }
                    },
                }
            }
            i = i + 1;
        }
        proof {
            assert forall|id: Seq<char>| #[trigger] before.entries.contains_key(id) implies 0
                <= table::position(seq, id) < seq.len() && seq[table::position(seq, id)].1@
                == before.entries[id] by {
                table::lemma_present(seq, id);
            }
        }
        match best {
            None => None,
            Some(b) => {
                proof {
                    table::lemma_position(seq, b as int);
                    lemma_step(before, QueueStep::Remove(seq[b as int].0@));
                }
                let (handle, entry) = self.entries.remove_at(b);
                assert(self@.entries =~= before.entries.remove(handle@));
                assert(self@ == after_removal(before, handle@));
                Some((handle, entry))
            },
        }
    }

    /// Takes out every entry past its deadline, save those whose delivery is
    /// under way.
    pub fn sweep_expired(&mut self, now: Instant) -> (r: Vec<(HoldHandle, Held<T>)>)
        requires
            old(self).wf(),
        ensures
            final(self).wf(),
            final(self)@ == after_sweep(old(self)@, Some(now)),
            swept(old(self)@, Some(now), r@),
    {
        self.take_leaving(Some(now))
    }

    /// Takes out every entry, save those whose delivery is under way.
    pub fn drain(&mut self) -> (r: Vec<(HoldHandle, Held<T>)>)
        requires
            old(self).wf(),
        ensures
            final(self).wf(),
            final(self)@ == after_sweep(old(self)@, None),
            swept(old(self)@, None, r@),
    {
        self.take_leaving(None)
    }

    fn take_leaving(&mut self, due: Option<Instant>) -> (r: Vec<(HoldHandle, Held<T>)>)
        requires
            old(self).wf(),
        ensures
            final(self).wf(),
            final(self)@ == after_sweep(old(self)@, due),
            swept(old(self)@, due, r@),
    {
        let ghost before = self@;
        let mut out: Vec<(HoldHandle, Held<T>)> = Vec::new();
        let mut i: usize = 0;
        while i < self.entries.len()
            invariant
                self.entries.wf(),
                queue_wf(before),
                self@.nonce == before.nonce,
                self@.minted == before.minted,
                i <= self.entries.seq().len(),
                forall|k: int| 0 <= k < i ==> !leaves((#[trigger] self.entries.seq()[k]).1@, due),
                forall|id: Seq<char>| #[trigger]
                    self@.entries.contains_key(id) ==> before.entries.contains_key(id)
                        && self@.entries[id] == before.entries[id] && !among(out@, id),
                forall|id: Seq<char>| #[trigger]
                    before.entries.contains_key(id) ==> self@.entries.contains_key(id) || among(
                        out@,
                        id,
                    ),
                forall|k: int|
                    0 <= k < out@.len() ==> {
                        &&& before.entries.contains_key((#[trigger] out@[k]).0@)
                        &&& before.entries[out@[k].0@] == out@[k].1@
                        &&& leaves(out@[k].1@, due)
                    },
                table::distinct(out@),
            decreases self.entries.seq().len() - i,
        {
            let goes: bool = {
                let entry: &Held<T> = self.entries.value_at(i);
                !entry.in_flight && match due {
                    Some(now) => entry.is_expired(now),
                    None => true,
                }
            };
            if goes {
                let ghost mid = self@;
                let ghost had = out@;
                let ghost at = self.entries.seq();
                let (key, entry) = self.entries.remove_at(i);
                assert(self@.entries =~= mid.entries.remove(key@));
                assert(mid.entries.contains_key(key@) && mid.entries[key@] == entry@);
                assert forall|k: int| 0 <= k < i implies !leaves(
                    (#[trigger] self.entries.seq()[k]).1@,
                    due,
                ) by {
                    assert(self.entries.seq()[k] == at[k]);
                }
                out.push((key, entry));
                proof {
                    assert forall|a: int, b: int| 0 <= a < b < out@.len() implies (#[trigger] out@[a]).0.id()
                        != (#[trigger] out@[b]).0.id() by {
                        if b == had.len() {
                            assert(had[a] == out@[a]);
                            if had[a].0@ == key@ {
                                assert(among(had, key@));
                            }
                        } else {
                            assert(had[a] == out@[a] && had[b] == out@[b]);
                        }
                    }
                    assert(out@[had.len() as int].0@ == key@);
                    assert forall|id: Seq<char>| among(had, id) implies #[trigger] among(
                        out@,
                        id,
                    ) by {
                        let k = choose|k: int|
                            0 <= k < had.len() && (#[trigger] had[k]).0@ == id;
                        assert(out@[k] == had[k]);
                    }
                    assert forall|id: Seq<char>| #[trigger] self@.entries.contains_key(id) implies
                        before.entries.contains_key(id) && self@.entries[id] == before.entries[id]
                        && !among(out@, id) by {
                        assert(mid.entries.contains_key(id) && id != key@);
                        if among(out@, id) {
                            let k = choose|k: int|
                                0 <= k < out@.len() && (#[trigger] out@[k]).0@ == id;
                            assert(k < had.len());
                            assert(had[k].0@ == id);
                            assert(among(had, id));
                        }
                    }
                    assert(among(out@, key@));
                    assert forall|id: Seq<char>| #[trigger] before.entries.contains_key(id) implies
                        self@.entries.contains_key(id) || among(out@, id) by {
                        if id != key@ && mid.entries.contains_key(id) {
                            assert(self@.entries.contains_key(id));
                        }
                    }
                }
            } else {
                i = i + 1;
            }
        }
        proof {
            let seq = self.entries.seq();
            assert forall|id: Seq<char>| #[trigger] self@.entries.contains_key(id) implies !leaves(
                self@.entries[id],
                due,
            ) by {
                table::lemma_present(seq, id);
                let p = table::position(seq, id);
                table::lemma_position(seq, p);
            }
            assert forall|id: Seq<char>| before.entries.contains_key(id) && leaves(
                before.entries[id],
                due,
            ) implies #[trigger] among(out@, id) by {
                if self@.entries.contains_key(id) {
                }
            }
            assert forall|id: Seq<char>| #[trigger] among(out@, id) implies leaves(
                before.entries[id],
                due,
            ) by {
                let k = choose|k: int| 0 <= k < out@.len() && (#[trigger] out@[k]).0@ == id;
            }
            assert forall|id: Seq<char>| #[trigger] self@.entries.contains_key(id) <==> after_sweep(
                before,
                due,
            ).entries.contains_key(id) by {
                if before.entries.contains_key(id) && !leaves(before.entries[id], due) {
                    assert(!among(out@, id));
                }
            }
            assert(self@.entries =~= after_sweep(before, due).entries);
            lemma_step(before, QueueStep::Sweep(due));
            assert(self@ == after_sweep(before, due));
        }
        out
    }

    /// The number of live entries.
    pub fn len(&self) -> (r: usize)
        requires
            self.wf(),
        ensures
            self@.entries.dom().finite(),
            r == self@.entries.dom().len(),
    {
        proof {
            table::lemma_map_len(self.entries.seq());
            assert(self@.entries.dom() =~= self.entries.map().dom());
        }
        self.entries.len()
    }

    /// Whether nothing is held.
    pub fn is_empty(&self) -> (r: bool)
        requires
            self.wf(),
        ensures
            r == (self@.entries == Map::<Seq<char>, HeldView<T>>::empty()),
    {
        proof {
            table::lemma_map_len(self.entries.seq());
            assert(self@.entries.dom() =~= self.entries.map().dom());
            if self.entries.seq().len() == 0 {
                assert(self@.entries =~= Map::<Seq<char>, HeldView<T>>::empty());
            } else {
                assert(self@.entries != Map::<Seq<char>, HeldView<T>>::empty()) by {
                    table::lemma_position(self.entries.seq(), 0);
                    assert(self@.entries.contains_key(self.entries.seq()[0].0@));
                }
            }
        }
        self.entries.len() == 0
    }
}

impl<T> Default for HoldQueue<T> {
    fn default() -> (r: Self)
        ensures
            r.wf(),
            r@.minted == 0,
            r@.entries == Map::<Seq<char>, HeldView<T>>::empty(),
    {
        HoldQueue::new()
    }
}

/// The entry of a message that bounces at `now`.
pub open spec fn fresh_entry<T>(
    payload: T,
    reason: Seq<ReasonView>,
    parent: Option<Seq<char>>,
    bounced_at: Timestamp,
    ttl: Duration,
    now: Instant,
) -> HeldView<T> {
    HeldView {
        payload,
        reason,
        parent,
        bounced_at,
        bounced_instant: now,
        deadline: deadline_of(now, ttl),
        in_flight: false,
        sent_ids: Seq::empty(),
        original_message: None,
        withdrawn_original: None,
    }
}

/// Whether `after` is `before` with a message parked that bounced at `bounced_at`.
pub open spec fn is_fresh<T>(
    before: QueueView<T>,
    after: QueueView<T>,
    payload: T,
    reason: Seq<ReasonView>,
    parent: Option<Seq<char>>,
    bounced_at: Timestamp,
    ttl: Duration,
    now: Instant,
) -> bool {
    after == after_hold(before, fresh_entry(payload, reason, parent, bounced_at, ttl, now))
}

/// Whether `copy` is `entry` with a clone of its payload.
pub open spec fn snapshot_of<T: Clone>(entry: HeldView<T>, copy: Held<T>) -> bool {
    &&& copy@ == (HeldView { payload: copy.payload, ..entry })
    &&& cloned(entry.payload, copy.payload)
}

/// Whether a handle can be reserved for a delivery at `now`.
pub open spec fn reservable<T>(q: QueueView<T>, id: Seq<char>, now: Instant) -> bool {
    q.entries.contains_key(id) && !q.entries[id].in_flight && !q.entries[id].expired(now)
}

/// An entry after a partial delivery.
pub open spec fn partly_sent<T>(
    entry: HeldView<T>,
    remainder: T,
    newly_sent: Seq<u64>,
    full_message: Seq<char>,
) -> HeldView<T> {
    HeldView {
        payload: remainder,
        in_flight: false,
        sent_ids: entry.sent_ids + newly_sent,
        original_message: match entry.original_message {
            Some(text) => Some(text),
            None => Some(full_message),
        },
        ..entry
    }
}

/// An entry that keeps the text which a replacement took the place of.
pub open spec fn withdrawn<T>(entry: HeldView<T>, original: Seq<char>) -> HeldView<T> {
    HeldView {
        withdrawn_original: match entry.withdrawn_original {
            Some(text) => Some(text),
            None => Some(original),
        },
        ..entry
    }
}

/// Whether `id` is live, not being delivered, and no such entry has an earlier deadline.
pub open spec fn next_to_expire<T>(q: QueueView<T>, id: Seq<char>) -> bool {
    &&& q.entries.contains_key(id)
    &&& !q.entries[id].in_flight
    &&& forall|other: Seq<char>| #[trigger]
        q.entries.contains_key(other) && !q.entries[other].in_flight
            ==> q.entries[id].deadline.nanos <= q.entries[other].deadline.nanos
}

/// Whether a handle is among the entries that were taken out.
pub open spec fn among<T>(out: Seq<(HoldHandle, Held<T>)>, id: Seq<char>) -> bool {
    exists|k: int| 0 <= k < out.len() && (#[trigger] out[k]).0@ == id
}

/// Whether `out` holds exactly the entries that leave, each once.
pub open spec fn swept<T>(
    q: QueueView<T>,
    due: Option<Instant>,
    out: Seq<(HoldHandle, Held<T>)>,
) -> bool {
    &&& table::distinct(out)
    &&& forall|k: int|
        0 <= k < out.len() ==> {
            &&& q.entries.contains_key((#[trigger] out[k]).0@)
            &&& q.entries[out[k].0@] == out[k].1@
            &&& leaves(out[k].1@, due)
        }
    &&& forall|id: Seq<char>|
        q.entries.contains_key(id) && leaves(q.entries[id], due) ==> #[trigger] among(out, id)
}

/// Whatever has happened to a queue, its live handles were minted by it.
pub proof fn law_live_handles_were_minted<T>(queue: HoldQueue<T>)
    requires
        queue.wf(),
    ensures
        queue_wf(queue@),
{
}

// ── What holds of held messages ─────────────────────────────────────────────

/// A message is held as long as it is to be held, and not a moment longer: it is alive
/// until the time that was set has passed since it bounced, and dead from then on.
pub proof fn law_messages_are_held_their_time<T>(
    payload: T,
    reason: Seq<ReasonView>,
    parent: Option<Seq<char>>,
    bounced_at: Timestamp,
    ttl: Duration,
    now: Instant,
    then: Instant,
)
    requires
        now.nanos + ttl.nanos <= u128::MAX,
    ensures
        ({
            let entry = fresh_entry(payload, reason, parent, bounced_at, ttl, now);
            &&& entry.expired(then) <==> then.nanos >= now.nanos + ttl.nanos
            &&& entry.left(now) == ttl
            &&& entry.expired(then) <==> entry.left(then).nanos == 0
            &&& then.nanos >= now.nanos ==> entry.latency(then).nanos == then.nanos - now.nanos
        }),
{
}

/// A time that no clock will reach is a year.
pub proof fn law_endless_holds_last_a_year(now: Instant, ttl: Duration)
    requires
        now.nanos + ttl.nanos > u128::MAX,
        now.nanos + 31_536_000_000_000_000 <= u128::MAX,
    ensures
        deadline_of(now, ttl).nanos == now.nanos + 31_536_000_000_000_000,
{
}

/// A message that is parked is the one that bounced, for the reason that it bounced for.
/// Nothing of it has been sent and nobody is sending it. It has a handle of its own, and
/// no other message is touched.
pub proof fn law_parking_keeps_the_message<T>(
    q: QueueView<T>,
    payload: T,
    reason: Seq<ReasonView>,
    parent: Option<Seq<char>>,
    bounced_at: Timestamp,
    ttl: Duration,
    now: Instant,
    other: Seq<char>,
)
    requires
        queue_wf(q),
    ensures
        ({
            let after = after_hold(
                q,
                fresh_entry(payload, reason, parent, bounced_at, ttl, now),
            );
            let id = next_handle(q);
            &&& !q.entries.contains_key(id)
            &&& after.entries.contains_key(id)
            &&& after.entries[id].payload == payload
            &&& after.entries[id].reason == reason
            &&& after.entries[id].parent == parent
            &&& after.entries[id].bounced_at == bounced_at
            &&& after.entries[id].bounced_instant == now
            &&& !after.entries[id].in_flight
            &&& after.entries[id].sent_ids.len() == 0
            &&& after.entries[id].original_message is None
            &&& after.entries[id].withdrawn_original is None
            &&& other != id ==> (after.entries.contains_key(other) <==> q.entries.contains_key(
                other,
            )) && after.entries[other] == q.entries[other]
            &&& after.minted == q.minted + 1
            &&& after.nonce == q.nonce
        }),
{
    let entry = fresh_entry(payload, reason, parent, bounced_at, ttl, now);
    lemma_step(q, QueueStep::Hold(entry));
}

/// A message can be taken for delivery while it is live, nobody is delivering it and its
/// time is not up; and at no other time.
pub proof fn law_live_messages_can_be_taken<T>(q: QueueView<T>, id: Seq<char>, now: Instant)
    ensures
        reservable(q, id, now) <==> q.entries.contains_key(id) && !q.entries[id].in_flight
            && now.nanos < q.entries[id].deadline.nanos,
{
}

/// A message that is taken cannot be taken again, whenever it is tried, until it is given
/// back; and giving it back leaves everything as it was.
pub proof fn law_giving_back_undoes_taking<T>(
    q: QueueView<T>,
    id: Seq<char>,
    now: Instant,
    then: Instant,
)
    requires
        reservable(q, id, now),
    ensures
        ({
            let taken = after_change(q, id, HeldView { in_flight: true, ..q.entries[id] });
            let back = after_change(taken, id, HeldView { in_flight: false, ..taken.entries[id] });
            &&& !reservable(taken, id, then)
            &&& taken.entries[id].payload == q.entries[id].payload
            &&& back == q
        }),
{
    let taken = after_change(q, id, HeldView { in_flight: true, ..q.entries[id] });
    let back = after_change(taken, id, HeldView { in_flight: false, ..taken.entries[id] });
    assert(back.entries[id] == q.entries[id]);
    assert(back.entries =~= q.entries);
}

/// What is done to one message is done to no other, and what is done to a message that is
/// not there is done to none.
pub proof fn law_changes_touch_one_message<T>(
    q: QueueView<T>,
    id: Seq<char>,
    entry: HeldView<T>,
    other: Seq<char>,
)
    requires
        other != id,
    ensures
        after_change(q, id, entry).entries.contains_key(other) <==> q.entries.contains_key(other),
        after_change(q, id, entry).entries[other] == q.entries[other],
        after_change(q, id, entry).entries.contains_key(id) <==> q.entries.contains_key(id),
        q.entries.contains_key(id) ==> after_change(q, id, entry).entries[id] == entry,
        !q.entries.contains_key(id) ==> after_change(q, id, entry) == q,
        !after_removal(q, id).entries.contains_key(id),
        after_removal(q, id).entries.contains_key(other) <==> q.entries.contains_key(other),
        q.entries.contains_key(other) ==> after_removal(q, id).entries[other] == q.entries[other],
        after_removal(q, id).minted == q.minted,
{
}

/// A sweep takes the messages whose time is up, but for those that are being delivered,
/// and leaves all others as they are. A queue that is closed takes out every message but
/// those.
pub proof fn law_sweeps_take_what_is_due<T>(q: QueueView<T>, now: Instant, id: Seq<char>)
    ensures
        after_sweep(q, Some(now)).entries.contains_key(id) <==> q.entries.contains_key(id) && (
        q.entries[id].in_flight || now.nanos < q.entries[id].deadline.nanos),
        after_sweep(q, None).entries.contains_key(id) <==> q.entries.contains_key(id)
            && q.entries[id].in_flight,
        after_sweep(q, Some(now)).entries.contains_key(id) ==> after_sweep(
            q,
            Some(now),
        ).entries[id] == q.entries[id],
        after_sweep(q, None).entries.contains_key(id) ==> after_sweep(q, None).entries[id]
            == q.entries[id],
        after_sweep(q, Some(now)).minted == q.minted,
{
}

/// Nothing is lost in a sweep: each message either stays or is handed out, and not both.
pub proof fn law_sweeps_lose_nothing<T>(
    q: QueueView<T>,
    due: Option<Instant>,
    out: Seq<(HoldHandle, Held<T>)>,
    id: Seq<char>,
)
    requires
        swept(q, due, out),
        q.entries.contains_key(id),
    ensures
        among(out, id) <==> !after_sweep(q, due).entries.contains_key(id),
        among(out, id) ==> exists|k: int|
            0 <= k < out.len() && (#[trigger] out[k]).0@ == id && out[k].1@ == q.entries[id],
        q.entries[id].in_flight ==> !among(out, id),
{
    if among(out, id) {
        let k = choose|k: int| 0 <= k < out.len() && (#[trigger] out[k]).0@ == id;
        assert(leaves(out[k].1@, due));
    }
}

/// What was sent of a message is added to what was sent before, the rest waits for the
/// next try, and the first full text is not forgotten. Its reason, its parent and its
/// deadline stay as they were.
pub proof fn law_partial_deliveries_are_remembered<T>(
    entry: HeldView<T>,
    remainder: T,
    newly_sent: Seq<u64>,
    full_message: Seq<char>,
)
    ensures
        ({
            let after = partly_sent(entry, remainder, newly_sent, full_message);
            &&& after.payload == remainder
            &&& !after.in_flight
            &&& after.sent_ids == entry.sent_ids + newly_sent
            &&& entry.original_message is Some ==> after.original_message == entry.original_message
            &&& entry.original_message is None ==> after.original_message == Some(full_message)
            &&& after.deadline == entry.deadline
            &&& after.reason == entry.reason
            &&& after.parent == entry.parent
            &&& after.bounced_instant == entry.bounced_instant
            &&& after.withdrawn_original == entry.withdrawn_original
        }),
{
}

/// The first text that was withdrawn is the one that is kept, however often it is
/// replaced, and nothing else of the message changes by that.
pub proof fn law_first_withdrawn_text_is_kept<T>(
    entry: HeldView<T>,
    first: Seq<char>,
    second: Seq<char>,
)
    ensures
        withdrawn(withdrawn(entry, first), second) == withdrawn(entry, first),
        entry.withdrawn_original is None ==> withdrawn(entry, first).withdrawn_original == Some(
            first,
        ),
        entry.withdrawn_original is Some ==> withdrawn(entry, first) == entry,
        withdrawn(entry, first).payload == entry.payload,
        withdrawn(entry, first).in_flight == entry.in_flight,
        withdrawn(entry, first).deadline == entry.deadline,
{
}

/// The message that makes room for others is one that nobody is delivering, and no such
/// message has less time left.
pub proof fn law_the_next_to_expire_makes_room<T>(q: QueueView<T>, id: Seq<char>, other: Seq<char>)
    requires
        next_to_expire(q, id),
    ensures
        q.entries.contains_key(id) && !q.entries[id].in_flight,
        q.entries.contains_key(other) && q.entries[other].deadline.nanos
            < q.entries[id].deadline.nanos ==> q.entries[other].in_flight,
{
}

} // verus!
