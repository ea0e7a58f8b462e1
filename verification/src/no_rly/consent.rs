//! The consent gate: from a bounce to its release, its replacement or its end.
//!
//! A handle yields at most one successful send. A delivery first reserves its
//! entry; while it is under way nothing else can touch the entry, and a second
//! attempt finds the handle dead. A delivery that works consumes the handle; one
//! that fails leaves it live, because consuming it would strand the message.
//!
//! The consent gate decides and keeps the books. What it cannot do itself, posting to
//! Discord, happens between [`ConsentGate::begin`] and one of the functions that
//! take the reservation back.

use vstd::prelude::*;
use crate::clock::{Duration, Instant, Timestamp};
use crate::contradictionary::{copy_diary, DiaryRecord};
use crate::no_rly::journal::{self, BounceRecord, BounceView, Outcome, ResolvedBounce};
use crate::no_rly::judge::{self, OutboundJudge, ReasonView, RejectReason, Verdict};
use crate::no_rly::queue::{
    self, copy_ids, ClaimError, Held, HeldView, HoldHandle, HoldQueue, QueueView,
};
use crate::table::Key;
use crate::text;

verus! {

// ── Requests ────────────────────────────────────────────────────────────────

/// A code fence that was open where a message was cut.
#[derive(Debug, PartialEq, Eq)]
pub struct FenceContext {
    /// The line that opened the fence.
    pub opening: String,
}

impl Clone for FenceContext {
    fn clone(&self) -> (r: Self)
        ensures
            r == *self,
    {
        FenceContext { opening: self.opening.clone() }
    }
}

/// Everything that sending a reply takes.
#[derive(Debug, PartialEq, Eq)]
pub struct ReplyRequest {
    /// The channel.
    pub channel_id: u64,
    /// The text.
    pub content: String,
    /// The message that is replied to.
    pub reply_to_message_id: Option<u64>,
    /// Whether the reply pings nobody.
    pub suppress_ping: bool,
    /// Notes for the diary that wait until the whole message is out.
    pub pending_diary_records: Vec<DiaryRecord>,
    /// The fence that is open before `content`, after a partial delivery.
    pub fence_context: Option<FenceContext>,
}

/// A [`ReplyRequest`] as a value.
#[verifier::ext_equal]
pub struct RequestView {
    pub channel_id: u64,
    pub content: Seq<char>,
    pub reply_to_message_id: Option<u64>,
    pub suppress_ping: bool,
    pub pending_diary_records: Seq<DiaryRecord>,
    pub fence_context: Option<FenceContext>,
}

impl View for ReplyRequest {
    type V = RequestView;

    open spec fn view(&self) -> RequestView {
        RequestView {
            channel_id: self.channel_id,
            content: self.content@,
            reply_to_message_id: self.reply_to_message_id,
            suppress_ping: self.suppress_ping,
            pending_diary_records: self.pending_diary_records@,
            fence_context: self.fence_context,
        }
    }
}

fn copy_fence(fence: &Option<FenceContext>) -> (r: Option<FenceContext>)
    ensures
        r == *fence,
{
    match fence {
        Some(f) => Some(f.clone()),
        None => None,
    }
}

impl Clone for ReplyRequest {
    fn clone(&self) -> (r: Self)
        ensures
            r@ == self@,
    {
        ReplyRequest {
            channel_id: self.channel_id,
            content: self.content.clone(),
            reply_to_message_id: self.reply_to_message_id,
            suppress_ping: self.suppress_ping,
            pending_diary_records: copy_diary(&self.pending_diary_records),
            fence_context: copy_fence(&self.fence_context),
        }
    }
}

/// A delivery that failed, with what is needed to go on from there.
#[derive(Debug, PartialEq, Eq)]
pub struct DeliverError {
    /// What went wrong, for the construct.
    pub message: String,
    /// The messages that had been posted by then.
    pub sent_ids: Vec<u64>,
    /// The text that has not been posted. `None` where nothing was.
    pub undelivered: Option<String>,
    /// Notes for the diary that wait for the rest.
    pub diary_records: Vec<DiaryRecord>,
    /// The fence that is open before the undelivered text.
    pub fence_context: Option<FenceContext>,
}

/// A [`DeliverError`] as a value.
#[verifier::ext_equal]
pub struct DeliverErrorView {
    pub message: Seq<char>,
    pub sent_ids: Seq<u64>,
    pub undelivered: Option<Seq<char>>,
    pub diary_records: Seq<DiaryRecord>,
    pub fence_context: Option<FenceContext>,
}

impl View for DeliverError {
    type V = DeliverErrorView;

    open spec fn view(&self) -> DeliverErrorView {
        DeliverErrorView {
            message: self.message@,
            sent_ids: self.sent_ids@,
            undelivered: text::text_opt(self.undelivered),
            diary_records: self.diary_records@,
            fence_context: self.fence_context,
        }
    }
}

impl DeliverError {
    /// A failure before anything was posted.
    pub fn total(message: String) -> (r: Self)
        ensures
            r@ == (DeliverErrorView {
                message: message@,
                sent_ids: Seq::empty(),
                undelivered: None,
                diary_records: Seq::empty(),
                fence_context: None,
            }),
    {
        DeliverError {
            message,
            sent_ids: Vec::new(),
            undelivered: None,
            diary_records: Vec::new(),
            fence_context: None,
        }
    }
}

/// Whoever posts a reply and returns the ids of the messages posted.
pub trait DeliverReply {
    /// Tries to post the reply.
    fn deliver(&self, request: &ReplyRequest) -> (r: Result<Vec<u64>, DeliverError>);
}

/// What a delivery came to, as a value.
pub open spec fn delivery_view(r: Result<Vec<u64>, DeliverError>) -> Result<
    Seq<u64>,
    DeliverErrorView,
> {
    match r {
        Ok(ids) => Ok(ids@),
        Err(e) => Err(e@),
    }
}

/// Whether posting a request can come to this.
pub open spec fn posts<D: DeliverReply>(
    deliver: &D,
    request: ReplyRequest,
    delivery: Result<Vec<u64>, DeliverError>,
) -> bool {
    call_ensures(D::deliver, (deliver, &request), delivery)
}

/// Whether a request of this value was handed over for posting, and came to this.
pub open spec fn posted<D: DeliverReply>(
    deliver: &D,
    request: RequestView,
    delivery: Result<Seq<u64>, DeliverErrorView>,
) -> bool {
    exists|q: ReplyRequest, d: Result<Vec<u64>, DeliverError>| #[trigger]
        posts(deliver, q, d) && q@ == request && delivery_view(d) == delivery
}

/// Whether judging a text can come to this verdict.
pub open spec fn judges<J: OutboundJudge>(judge: &J, content: &str, verdict: Verdict) -> bool {
    call_ensures(J::judge, (judge, content), verdict)
}

/// Whether a text was handed to the judge, and the verdict was this.
pub open spec fn judged<J: OutboundJudge>(
    judge: &J,
    content: Seq<char>,
    verdict: Option<Seq<ReasonView>>,
) -> bool {
    exists|s: &str, v: Verdict| #[trigger] judges(judge, s, v) && s@ == content && v@ == verdict
}

// ── Results ─────────────────────────────────────────────────────────────────

/// What a bounce hands to the construct.
#[derive(Debug, PartialEq, Eq)]
pub struct BounceTicket {
    /// The single-use handle.
    pub handle: HoldHandle,
    /// Why the message bounced.
    pub reason: RejectReason,
    /// How long the handle lives.
    pub expires_in: Duration,
    /// The handle that this bounce chains from.
    pub parent: Option<HoldHandle>,
}

/// A release that worked.
#[derive(Debug, PartialEq, Eq)]
pub struct Released {
    /// The messages posted.
    pub message_ids: Vec<u64>,
    /// How long the decision took, in milliseconds.
    pub latency_ms: u64,
}

/// A rephrase that worked.
#[derive(Debug, PartialEq, Eq)]
pub enum Rephrased {
    /// The replacement passed and was posted.
    Sent {
        /// The messages posted.
        message_ids: Vec<u64>,
    },
    /// The replacement bounced too; the old handle is dead.
    ReBounced(BounceTicket),
}

/// Why an action on a handle did not go through.
#[derive(Debug, PartialEq, Eq)]
pub enum RejectedHandle {
    /// The handle is not live, or its delivery is under way.
    Unknown(HoldHandle),
    /// The handle had expired, which is now in the journal.
    Expired {
        /// The dead handle.
        handle: HoldHandle,
        /// Why the message had bounced.
        reason: RejectReason,
    },
    /// The delivery failed; the handle is still live.
    SendFailed {
        /// The handle.
        handle: HoldHandle,
        /// What went wrong.
        error: String,
        /// How long the handle still lives.
        expires_in: Duration,
    },
}

impl RejectedHandle {
    /// The message for the construct.
    pub open spec fn message(&self) -> Seq<char> {
        match self {
            RejectedHandle::Unknown(handle) => "unknown or already-used handle: "@ + handle@,
            RejectedHandle::Expired { handle, reason: _ } => "handle "@ + handle@
                + " expired before action; the held message was journaled as expired"@,
            RejectedHandle::SendFailed { handle, error, expires_in } => "send failed: "@ + error@
                + " (handle "@ + handle@ + " still live for "@ + text::decimal(
                expires_in.whole_secs(),
            ) + "s)"@,
        }
    }

    /// The message for the construct.
    pub fn to_string(&self) -> (r: String)
        ensures
            r@ == self.message(),
    {
        match self {
            RejectedHandle::Unknown(handle) => {
                let mut out: String = "unknown or already-used handle: ".to_owned();
                out.append(handle.as_str());
                out
            },
            RejectedHandle::Expired { handle, reason: _ } => {
                let mut out: String = "handle ".to_owned();
                out.append(handle.as_str());
                out.append(" expired before action; the held message was journaled as expired");
                out
            },
            RejectedHandle::SendFailed { handle, error, expires_in } => {
                let mut out: String = "send failed: ".to_owned();
                out.append(error.as_str());
                out.append(" (handle ");
                out.append(handle.as_str());
                out.append(" still live for ");
                let secs: String = text::decimal_wide(expires_in.as_secs());
                out.append(secs.as_str());
                out.append("s)");
                out
            },
        }
    }
}

// ── The consent gate as a value ─────────────────────────────────────────────────────

/// The consent gate as a value: what is held, and what has been journaled.
#[verifier::ext_equal]
pub struct GateView {
    pub queue: QueueView<RequestView>,
    pub journal: Seq<BounceView>,
}

/// A held request with its payload as a value.
pub open spec fn seen(entry: HeldView<ReplyRequest>) -> HeldView<RequestView> {
    HeldView {
        payload: entry.payload@,
        reason: entry.reason,
        parent: entry.parent,
        bounced_at: entry.bounced_at,
        bounced_instant: entry.bounced_instant,
        deadline: entry.deadline,
        in_flight: entry.in_flight,
        sent_ids: entry.sent_ids,
        original_message: entry.original_message,
        withdrawn_original: entry.withdrawn_original,
    }
}

/// A queue of requests with the payloads as values.
pub open spec fn seen_queue(q: QueueView<ReplyRequest>) -> QueueView<RequestView> {
    QueueView {
        nonce: q.nonce,
        minted: q.minted,
        entries: q.entries.map_values(|e: HeldView<ReplyRequest>| seen(e)),
    }
}

/// Whether some record of the journal is about this handle.
pub open spec fn resolved(journal: Seq<BounceView>, id: Seq<char>) -> bool {
    exists|i: int| 0 <= i < journal.len() && (#[trigger] journal[i]).handle == id
}

/// The consent gate's books balance: of the handles minted, each is either live or told
/// of in the journal, never both, and the journal tells of each once.
pub open spec fn balanced(g: GateView) -> bool {
    &&& queue::queue_wf(g.queue)
    &&& forall|id: Seq<char>| #[trigger]
        queue::was_minted(g.queue, id) ==> g.queue.entries.contains_key(id) || resolved(
            g.journal,
            id,
        )
    &&& forall|i: int|
        0 <= i < g.journal.len() ==> queue::was_minted(g.queue, (#[trigger] g.journal[i]).handle)
            && !g.queue.entries.contains_key(g.journal[i].handle)
    &&& forall|i: int, j: int|
        0 <= i < j < g.journal.len() ==> (#[trigger] g.journal[i]).handle != (
        #[trigger] g.journal[j]).handle
}

/// The text that the construct let go of: the whole of what was held.
pub open spec fn held_text(entry: HeldView<RequestView>) -> Seq<char> {
    match entry.original_message {
        Some(text) => text,
        None => entry.payload.content,
    }
}

/// A record about a held request.
pub open spec fn resolution(
    id: Seq<char>,
    entry: HeldView<RequestView>,
    outcome: Outcome,
    message: Seq<char>,
    replacement: Option<Seq<char>>,
    now: Instant,
    at: Timestamp,
) -> BounceView {
    BounceView {
        handle: id,
        parent: entry.parent,
        message: text::truncated(message, journal::JOURNAL_MAX_MESSAGE_LEN as nat),
        reason: entry.reason,
        outcome,
        replacement: journal::kept_text(replacement),
        bounced_at: entry.bounced_at,
        resolved_at: at,
        latency_ms: entry.latency(now).millis_u64(),
    }
}

/// The record of a request that expired at `now`, is evicted or is drained.
pub open spec fn expiry(
    id: Seq<char>,
    entry: HeldView<RequestView>,
    now: Instant,
    at: Timestamp,
) -> BounceView {
    resolution(id, entry, Outcome::Expired, held_text(entry), None, now, at)
}

/// The record of a release. Where a replacement had been accepted before, the
/// record tells of the first text and of what went out in its place.
pub open spec fn release_record(
    id: Seq<char>,
    entry: HeldView<RequestView>,
    now: Instant,
    at: Timestamp,
) -> BounceView {
    match entry.withdrawn_original {
        Some(original) => resolution(
            id,
            entry,
            Outcome::Rephrased,
            original,
            Some(held_text(entry)),
            now,
            at,
        ),
        None => resolution(id, entry, Outcome::Released, held_text(entry), None, now, at),
    }
}

/// The record of a replacement: the very first text, and what took its place.
pub open spec fn rephrase_record(
    id: Seq<char>,
    entry: HeldView<RequestView>,
    replacement: Seq<char>,
    now: Instant,
    at: Timestamp,
) -> BounceView {
    let original = match entry.withdrawn_original {
        Some(text) => text,
        None => held_text(entry),
    };
    resolution(id, entry, Outcome::Rephrased, original, Some(replacement), now, at)
}

/// What is left to send where a delivery got part of the way: some messages
/// were posted, and some text was not.
pub open spec fn remainder_of(e: DeliverErrorView) -> Option<Seq<char>> {
    if e.sent_ids.len() > 0 {
        e.undelivered
    } else {
        None
    }
}

/// A request cut down to what a partial delivery has left over.
pub open spec fn cut_down(request: RequestView, e: DeliverErrorView, rest: Seq<char>) -> RequestView {
    RequestView {
        content: rest,
        pending_diary_records: e.diary_records,
        fence_context: e.fence_context,
        ..request
    }
}

/// The consent gate after a handle is consumed and its record written.
pub open spec fn after_resolution(g: GateView, id: Seq<char>, record: BounceView) -> GateView {
    GateView { queue: queue::after_removal(g.queue, id), journal: g.journal.push(record) }
}

/// The consent gate after the delivery of a reserved entry, as it was held.
pub open spec fn after_release(
    g: GateView,
    id: Seq<char>,
    entry: HeldView<RequestView>,
    delivery: Result<Seq<u64>, DeliverErrorView>,
    now: Instant,
    at: Timestamp,
) -> GateView {
    match delivery {
        Ok(_) => after_resolution(g, id, release_record(id, entry, now, at)),
        Err(e) => GateView {
            queue: queue::after_change(
                g.queue,
                id,
                match remainder_of(e) {
                    Some(rest) => queue::partly_sent(
                        entry,
                        cut_down(entry.payload, e, rest),
                        e.sent_ids,
                        held_text(entry),
                    ),
                    None => HeldView { in_flight: false, ..entry },
                },
            ),
            ..g
        },
    }
}

/// The request that carries a replacement: only the text changes.
pub open spec fn rephrased_request(request: RequestView, replacement: Seq<char>) -> RequestView {
    RequestView { content: replacement, fence_context: None, ..request }
}

/// The deadline of a handle whose replacement was cleared but not delivered.
pub open spec fn renewed_deadline(now: Instant, ttl: Duration) -> Instant {
    match now.later(ttl) {
        Some(deadline) => deadline,
        None => now,
    }
}

/// A reserved entry after the delivery of its replacement failed: it holds the
/// replacement from now on, keeps the whole of the first text, and gets a new
/// deadline.
pub open spec fn after_failed_replacement(
    entry: HeldView<RequestView>,
    replacement: Seq<char>,
    e: DeliverErrorView,
    ttl: Duration,
    now: Instant,
) -> HeldView<RequestView> {
    let kept = HeldView {
        original_message: None,
        ..queue::withdrawn(entry, held_text(entry))
    };
    let request = rephrased_request(entry.payload, replacement);
    let held = match remainder_of(e) {
        Some(rest) => queue::partly_sent(kept, cut_down(request, e, rest), e.sent_ids, replacement),
        None => HeldView { payload: request, in_flight: false, ..kept },
    };
    HeldView { deadline: renewed_deadline(now, ttl), ..held }
}

/// The consent gate after the delivery of a reserved entry's replacement.
pub open spec fn after_rephrase(
    g: GateView,
    id: Seq<char>,
    entry: HeldView<RequestView>,
    replacement: Seq<char>,
    delivery: Result<Seq<u64>, DeliverErrorView>,
    ttl: Duration,
    now: Instant,
    at: Timestamp,
) -> GateView {
    match delivery {
        Ok(_) => after_resolution(g, id, rephrase_record(id, entry, replacement, now, at)),
        Err(e) => GateView {
            queue: queue::after_change(
                g.queue,
                id,
                after_failed_replacement(entry, replacement, e, ttl, now),
            ),
            ..g
        },
    }
}

/// The consent gate after the replacement of a reserved entry bounced in turn.
pub open spec fn after_rebounce(
    g: GateView,
    id: Seq<char>,
    entry: HeldView<RequestView>,
    replacement: Seq<char>,
    reason: Seq<ReasonView>,
    ttl: Duration,
    now: Instant,
    at: Timestamp,
) -> GateView {
    GateView {
        queue: queue::after_hold(
            queue::after_removal(g.queue, id),
            queue::fresh_entry(
                rephrased_request(entry.payload, replacement),
                reason,
                Some(id),
                at,
                ttl,
                now,
            ),
        ),
        journal: g.journal.push(rephrase_record(id, entry, replacement, now, at)),
    }
}

/// The consent gate after entries were taken out as expired, one after another.
pub open spec fn after_expiries(
    g: GateView,
    ids: Seq<Seq<char>>,
    now: Instant,
    at: Timestamp,
) -> GateView
    decreases ids.len(),
{
    if ids.len() == 0 {
        g
    } else {
        let before = after_expiries(g, ids.drop_last(), now, at);
        after_resolution(
            before,
            ids.last(),
            expiry(ids.last(), before.queue.entries[ids.last()], now, at),
        )
    }
}

/// How many messages a gate may hold: at least one.
pub open spec fn capacity(max_pending: usize) -> nat {
    if max_pending == 0 {
        1
    } else {
        max_pending as nat
    }
}

/// Whether no held message can be evicted.
pub open spec fn all_in_flight(q: QueueView<RequestView>) -> bool {
    forall|id: Seq<char>| #[trigger] q.entries.contains_key(id) ==> q.entries[id].in_flight
}

/// Whether evicting `ids` in this order makes room in the consent gate: each is the next
/// to expire when its turn comes, none goes while there is room, and it ends
/// with room for one more, or with nothing left that could go.
pub open spec fn makes_room(
    g: GateView,
    ids: Seq<Seq<char>>,
    max_pending: usize,
    now: Instant,
    at: Timestamp,
) -> bool {
    &&& forall|k: int|
        0 <= k < ids.len() ==> {
            let before = #[trigger] after_expiries(g, ids.take(k), now, at).queue;
            queue::next_to_expire(before, ids[k]) && before.entries.dom().len() >= capacity(
                max_pending,
            )
        }
    &&& {
        let end = after_expiries(g, ids, now, at).queue;
        end.entries.dom().len() < capacity(max_pending) || all_in_flight(end)
    }
}

// ── Laws ────────────────────────────────────────────────────────────────────

/// Consuming a live handle and writing its record keeps the books balanced.
pub proof fn law_resolution_balances(g: GateView, id: Seq<char>, record: BounceView)
    requires
        balanced(g),
        g.queue.entries.contains_key(id),
        record.handle == id,
    ensures
        balanced(after_resolution(g, id, record)),
{
    let after = after_resolution(g, id, record);
    queue::lemma_step(g.queue, queue::QueueStep::Remove(id));
    assert(queue::was_minted(g.queue, id));
    assert forall|h: Seq<char>| #[trigger] queue::was_minted(after.queue, h) implies
        after.queue.entries.contains_key(h) || resolved(after.journal, h) by {
        let n = choose|n: nat|
            1 <= n <= after.queue.minted && h == #[trigger] queue::handle_text(
                after.queue.nonce,
                n,
            );
        assert(h == queue::handle_text(g.queue.nonce, n));
        assert(queue::was_minted(g.queue, h));
        if h == id {
            assert(after.journal[g.journal.len() as int].handle == h);
        } else if resolved(g.journal, h) {
            let i = choose|i: int| 0 <= i < g.journal.len() && (#[trigger] g.journal[i]).handle == h;
            assert(after.journal[i].handle == h);
        }
    }
    assert forall|i: int| 0 <= i < after.journal.len() implies queue::was_minted(
        after.queue,
        (#[trigger] after.journal[i]).handle,
    ) && !after.queue.entries.contains_key(after.journal[i].handle) by {
        if i < g.journal.len() {
            assert(after.journal[i] == g.journal[i]);
            assert(queue::was_minted(g.queue, g.journal[i].handle));
        }
    }
    assert forall|i: int, j: int| 0 <= i < j < after.journal.len() implies (
    #[trigger] after.journal[i]).handle != (#[trigger] after.journal[j]).handle by {
        assert(after.journal[i] == g.journal[i]);
        if j < g.journal.len() {
            assert(after.journal[j] == g.journal[j]);
        }
    }
}

/// Changing the entry of a live handle keeps the books balanced.
pub proof fn law_change_balances(g: GateView, id: Seq<char>, entry: HeldView<RequestView>)
    requires
        balanced(g),
    ensures
        balanced(GateView { queue: queue::after_change(g.queue, id, entry), ..g }),
{
    let after = GateView { queue: queue::after_change(g.queue, id, entry), ..g };
    queue::lemma_step(g.queue, queue::QueueStep::Change(id, entry));
    assert forall|h: Seq<char>| #[trigger] queue::was_minted(after.queue, h) implies
        after.queue.entries.contains_key(h) || resolved(after.journal, h) by {
        let n = choose|n: nat|
            1 <= n <= after.queue.minted && h == #[trigger] queue::handle_text(
                after.queue.nonce,
                n,
            );
        assert(h == queue::handle_text(g.queue.nonce, n));
        assert(queue::was_minted(g.queue, h));
    }
}

/// Holding a further message keeps the books balanced.
pub proof fn law_hold_balances(g: GateView, entry: HeldView<RequestView>)
    requires
        balanced(g),
    ensures
        balanced(GateView { queue: queue::after_hold(g.queue, entry), ..g }),
{
    let after = GateView { queue: queue::after_hold(g.queue, entry), ..g };
    queue::lemma_step(g.queue, queue::QueueStep::Hold(entry));
    assert forall|h: Seq<char>| #[trigger] queue::was_minted(after.queue, h) implies
        after.queue.entries.contains_key(h) || resolved(after.journal, h) by {
        let n = choose|n: nat|
            1 <= n <= after.queue.minted && h == #[trigger] queue::handle_text(
                after.queue.nonce,
                n,
            );
        if n <= g.queue.minted {
            assert(h == queue::handle_text(g.queue.nonce, n));
            assert(queue::was_minted(g.queue, h));
        } else {
            assert(h == queue::next_handle(g.queue));
        }
    }
    assert(!queue::was_minted(g.queue, queue::next_handle(g.queue))) by {
        if queue::was_minted(g.queue, queue::next_handle(g.queue)) {
            let n = choose|n: nat|
                1 <= n <= g.queue.minted && queue::next_handle(g.queue)
                    == #[trigger] queue::handle_text(g.queue.nonce, n);
            queue::law_handles_are_unique(g.queue.nonce, n, g.queue.minted + 1);
        }
    }
    assert forall|i: int| 0 <= i < after.journal.len() implies queue::was_minted(
        after.queue,
        (#[trigger] after.journal[i]).handle,
    ) && !after.queue.entries.contains_key(after.journal[i].handle) by {
        assert(queue::was_minted(g.queue, g.journal[i].handle));
    }
}

/// Once a replacement has been offered, the text that it replaces is never what
/// a later retry sends: from then on the handle holds the replacement, or what
/// is left to send of it. The whole of the text that was held first is kept for the
/// journal.
pub proof fn law_replacement_never_reverts(
    entry: HeldView<RequestView>,
    replacement: Seq<char>,
    e: DeliverErrorView,
    ttl: Duration,
    now: Instant,
)
    ensures
        ({
            let after = after_failed_replacement(entry, replacement, e, ttl, now);
            &&& after.payload.content == match remainder_of(e) {
                Some(rest) => rest,
                None => replacement,
            }
            &&& held_text(after) == replacement
            &&& after.withdrawn_original == Some(
                match entry.withdrawn_original {
                    Some(text) => text,
                    None => held_text(entry),
                },
            )
            &&& !after.in_flight
            &&& after.deadline == renewed_deadline(now, ttl)
        }),
{
}

/// Whatever became of it before, a held message that is in the end replaced is
/// journaled with the whole of the text that was held first and with the
/// replacement that went out: a replacement that was offered in between and not
/// delivered leaves no trace in the record.
pub proof fn law_first_text_outlives_failed_replacements(
    id: Seq<char>,
    entry: HeldView<RequestView>,
    failed: Seq<char>,
    e: DeliverErrorView,
    sent: Seq<char>,
    ttl: Duration,
    then: Instant,
    now: Instant,
    at: Timestamp,
)
    ensures
        ({
            let after = after_failed_replacement(entry, failed, e, ttl, then);
            &&& rephrase_record(id, after, sent, now, at) == rephrase_record(
                id,
                entry,
                sent,
                now,
                at,
            )
            &&& release_record(id, after, now, at) == rephrase_record(id, entry, failed, now, at)
            &&& expiry(id, after, now, at).message == text::truncated(
                failed,
                journal::JOURNAL_MAX_MESSAGE_LEN as nat,
            )
        }),
{
}

/// A release that gets part of the way and is then completed is journaled with
/// the whole text, and reports every message posted, in order, none twice.
pub proof fn law_partial_release_resumes(
    g: GateView,
    id: Seq<char>,
    entry: HeldView<RequestView>,
    e: DeliverErrorView,
    rest: Seq<char>,
    ids: Seq<u64>,
    now: Instant,
    at: Timestamp,
)
    requires
        g.queue.entries.contains_key(id),
        g.queue.entries[id] == entry,
        remainder_of(e) == Some(rest),
    ensures
        ({
            let first = after_release(g, id, entry, Err(e), now, at);
            let live = first.queue.entries[id];
            let again = HeldView { in_flight: true, ..live };
            let second = after_release(first, id, again, Ok(ids), now, at);
            &&& live.payload.content == rest
            &&& live.sent_ids == entry.sent_ids + e.sent_ids
            &&& held_text(again) == held_text(entry)
            &&& second.journal == g.journal.push(release_record(id, again, now, at))
            &&& !second.queue.entries.contains_key(id)
        }),
{
}

/// Taking live entries out one after another leaves the rest as they are, writes
/// one record for each, and keeps the books balanced.
pub proof fn law_expiries_balance(g: GateView, ids: Seq<Seq<char>>, now: Instant, at: Timestamp)
    requires
        balanced(g),
        ids.no_duplicates(),
        forall|k: int| 0 <= k < ids.len() ==> g.queue.entries.contains_key(#[trigger] ids[k]),
    ensures
        balanced(after_expiries(g, ids, now, at)),
        after_expiries(g, ids, now, at).queue.nonce == g.queue.nonce,
        after_expiries(g, ids, now, at).queue.minted == g.queue.minted,
        forall|id: Seq<char>| #[trigger]
            after_expiries(g, ids, now, at).queue.entries.contains_key(id)
                <==> g.queue.entries.contains_key(id) && !ids.contains(id),
        forall|id: Seq<char>| #[trigger]
            after_expiries(g, ids, now, at).queue.entries.contains_key(id) ==> after_expiries(
                g,
                ids,
                now,
                at,
            ).queue.entries[id] == g.queue.entries[id],
        after_expiries(g, ids, now, at).journal == g.journal + ids.map_values(
            |id: Seq<char>| expiry(id, g.queue.entries[id], now, at),
        ),
    decreases ids.len(),
{
    let record = |id: Seq<char>| expiry(id, g.queue.entries[id], now, at);
    if ids.len() == 0 {
        assert(g.journal + ids.map_values(record) =~= g.journal);
    } else {
        let front = ids.drop_last();
        let last = ids.last();
        assert forall|k: int| 0 <= k < front.len() implies g.queue.entries.contains_key(
            #[trigger] front[k],
        ) by {
            assert(front[k] == ids[k]);
        }
        law_expiries_balance(g, front, now, at);
        let before = after_expiries(g, front, now, at);
        assert(!front.contains(last)) by {
            if front.contains(last) {
                let k = choose|k: int| 0 <= k < front.len() && front[k] == last;
                assert(ids[k] == ids[ids.len() - 1]);
            }
        }
        assert(g.queue.entries.contains_key(ids[ids.len() - 1]));
        assert(before.queue.entries.contains_key(last));
        law_resolution_balances(before, last, expiry(last, before.queue.entries[last], now, at));
        assert forall|id: Seq<char>| ids.contains(id) <==> #[trigger] front.contains(id) || id
            == last by {
            if ids.contains(id) {
                let k = choose|k: int| 0 <= k < ids.len() && ids[k] == id;
                if k < front.len() {
                    assert(front[k] == id);
                }
            }
            if front.contains(id) {
                let k = choose|k: int| 0 <= k < front.len() && front[k] == id;
                assert(ids[k] == id);
            }
            assert(ids[ids.len() - 1] == last);
        }
        assert(g.journal + ids.map_values(record) =~= (g.journal + front.map_values(record)).push(
            record(last),
        ));
    }
}

// ── The consent gate ────────────────────────────────────────────────────────────────

/// A held request whose delivery is under way.
pub struct Reservation {
    handle: HoldHandle,
    entry: Held<ReplyRequest>,
}

impl Reservation {
    /// The handle that is reserved.
    pub closed spec fn id(&self) -> Seq<char> {
        self.handle@
    }

    /// The entry that is reserved.
    pub closed spec fn entry(&self) -> HeldView<RequestView> {
        seen(self.entry@)
    }

    /// Whether the consent gate still holds the entry for this reservation.
    pub open spec fn held_by(&self, g: GateView) -> bool {
        &&& g.queue.entries.contains_key(self.id())
        &&& g.queue.entries[self.id()] == self.entry()
        &&& self.entry().in_flight
    }

    /// What is to be posted.
    pub fn request(&self) -> (r: &ReplyRequest)
        ensures
            r@ == self.entry().payload,
    {
        &self.entry.payload
    }

    /// What is to be posted in its place.
    pub fn replacement(&self, content: &str) -> (r: ReplyRequest)
        ensures
            r@ == rephrased_request(self.entry().payload, content@),
    {
        let held: &ReplyRequest = &self.entry.payload;
        ReplyRequest {
            channel_id: held.channel_id,
            content: content.to_owned(),
            reply_to_message_id: held.reply_to_message_id,
            suppress_ping: held.suppress_ping,
            pending_diary_records: copy_diary(&held.pending_diary_records),
            fence_context: None,
        }
    }
}

/// The values of a sequence of records.
pub open spec fn record_views(records: Seq<BounceRecord>) -> Seq<BounceView> {
    records.map_values(|r: BounceRecord| r@)
}

/// The handles that `after` has journaled and `before` has not.
pub open spec fn newly_journaled(before: GateView, after: GateView) -> Seq<Seq<char>> {
    after.journal.skip(before.journal.len() as int).map_values(|r: BounceView| r.handle)
}

/// The consent gate.
pub struct ConsentGate {
    queue: HoldQueue<ReplyRequest>,
    outbox: Vec<BounceRecord>,
    written: Ghost<Seq<BounceView>>,
}

impl View for ConsentGate {
    type V = GateView;

    closed spec fn view(&self) -> GateView {
        GateView {
            queue: seen_queue(self.queue@),
            journal: self.written@ + record_views(self.outbox@),
        }
    }
}

proof fn lemma_seen_removal(q: QueueView<ReplyRequest>, id: Seq<char>)
    ensures
        seen_queue(queue::after_removal(q, id)) == queue::after_removal(seen_queue(q), id),
{
    assert(seen_queue(queue::after_removal(q, id)).entries =~= queue::after_removal(
        seen_queue(q),
        id,
    ).entries);
}

proof fn lemma_seen_change(
    q: QueueView<ReplyRequest>,
    id: Seq<char>,
    entry: HeldView<ReplyRequest>,
)
    ensures
        seen_queue(queue::after_change(q, id, entry)) == queue::after_change(
            seen_queue(q),
            id,
            seen(entry),
        ),
{
    assert(seen_queue(queue::after_change(q, id, entry)).entries =~= queue::after_change(
        seen_queue(q),
        id,
        seen(entry),
    ).entries);
}

proof fn lemma_seen_hold(q: QueueView<ReplyRequest>, entry: HeldView<ReplyRequest>)
    ensures
        seen_queue(queue::after_hold(q, entry)) == queue::after_hold(seen_queue(q), seen(entry)),
{
    assert(seen_queue(queue::after_hold(q, entry)).entries =~= queue::after_hold(
        seen_queue(q),
        seen(entry),
    ).entries);
}

proof fn lemma_seen_sweep(q: QueueView<ReplyRequest>, due: Option<Instant>)
    ensures
        seen_queue(queue::after_sweep(q, due)) == queue::after_sweep(seen_queue(q), due),
{
    assert(seen_queue(queue::after_sweep(q, due)).entries =~= queue::after_sweep(
        seen_queue(q),
        due,
    ).entries);
}

/// A clone of a request is the same request.
proof fn lemma_request_cloned(a: ReplyRequest, b: ReplyRequest)
    requires
        cloned(a, b),
    ensures
        a@ == b@,
{
}

fn resolve(
    handle: &HoldHandle,
    entry: &Held<ReplyRequest>,
    outcome: Outcome,
    message: &str,
    replacement: Option<&str>,
    now: Instant,
    at: Timestamp,
) -> (r: BounceRecord)
    ensures
        r@ == resolution(
            handle@,
            seen(entry@),
            outcome,
            message@,
            text::str_opt(replacement),
            now,
            at,
        ),
{
    let parent: Option<&str> = match &entry.parent {
        Some(p) => Some(p.as_str()),
        None => None,
    };
    let bounce: ResolvedBounce = ResolvedBounce {
        handle: handle.as_str(),
        parent,
        message,
        reason: entry.reason.clone(),
        outcome,
        replacement,
        bounced_at: entry.bounced_at,
        latency_ms: entry.latency(now).as_millis_u64(),
    };
    bounce.into_record_at(at)
}

fn whole_text(entry: &Held<ReplyRequest>) -> (r: &str)
    ensures
        r@ == held_text(seen(entry@)),
{
    match &entry.original_message {
        Some(text) => text.as_str(),
        None => entry.payload.content.as_str(),
    }
}

fn expire(handle: &HoldHandle, entry: &Held<ReplyRequest>, now: Instant, at: Timestamp) -> (r:
    BounceRecord)
    ensures
        r@ == expiry(handle@, seen(entry@), now, at),
{
    resolve(handle, entry, Outcome::Expired, whole_text(entry), None, now, at)
}

fn journal_release(
    handle: &HoldHandle,
    entry: &Held<ReplyRequest>,
    now: Instant,
    at: Timestamp,
) -> (r: BounceRecord)
    ensures
        r@ == release_record(handle@, seen(entry@), now, at),
{
    let sent: &str = whole_text(entry);
    match &entry.withdrawn_original {
        Some(original) => resolve(
            handle,
            entry,
            Outcome::Rephrased,
            original.as_str(),
            Some(sent),
            now,
            at,
        ),
        None => resolve(handle, entry, Outcome::Released, sent, None, now, at),
    }
}

fn journal_rephrase(
    handle: &HoldHandle,
    entry: &Held<ReplyRequest>,
    replacement: &str,
    now: Instant,
    at: Timestamp,
) -> (r: BounceRecord)
    ensures
        r@ == rephrase_record(handle@, seen(entry@), replacement@, now, at),
{
    let original: &str = match &entry.withdrawn_original {
        Some(text) => text.as_str(),
        None => whole_text(entry),
    };
    resolve(handle, entry, Outcome::Rephrased, original, Some(replacement), now, at)
}

fn all_ids(before: &Vec<u64>, ids: Vec<u64>) -> (r: Vec<u64>)
    ensures
        r@ == before@ + ids@,
{
    let mut out: Vec<u64> = copy_ids(before);
    let mut more: Vec<u64> = ids;
    out.append(&mut more);
    out
}

impl ConsentGate {
    /// The consent gate's invariant: its books balance.
    pub closed spec fn wf(&self) -> bool {
        self.queue.wf() && balanced(self@)
    }

    /// How many records of the journal have been handed over, from its beginning.
    pub closed spec fn handed_over(&self) -> nat {
        self.written@.len()
    }

    /// An empty gate.
    pub fn new() -> (r: Self)
        ensures
            r.wf(),
            r.handed_over() == 0,
            r@.queue.minted == 0,
            r@.queue.entries == Map::<Seq<char>, HeldView<RequestView>>::empty(),
            r@.journal == Seq::<BounceView>::empty(),
    {
        let queue: HoldQueue<ReplyRequest> = HoldQueue::new();
        let r: ConsentGate = ConsentGate { queue, outbox: Vec::new(), written: Ghost(Seq::empty()) };
        assert(r@.queue.entries =~= Map::<Seq<char>, HeldView<RequestView>>::empty());
        assert(r@.journal =~= Seq::<BounceView>::empty());
        r
    }

    /// How many messages are held.
    pub fn pending(&self) -> (r: usize)
        requires
            self.wf(),
        ensures
            self@.queue.entries.dom().finite(),
            r == self@.queue.entries.dom().len(),
    {
        assert(self@.queue.entries.dom() =~= self.queue@.entries.dom());
        self.queue.len()
    }

    /// Hands over the records that have not been handed over yet, to be written to
    /// the journal's file. What the journal tells does not change by that.
    pub fn take_records(&mut self) -> (r: Vec<BounceRecord>)
        requires
            old(self).wf(),
        ensures
            final(self).wf(),
            final(self)@ == old(self)@,
            old(self).handed_over() <= old(self)@.journal.len(),
            record_views(r@) == old(self)@.journal.skip(old(self).handed_over() as int),
            final(self).handed_over() == old(self)@.journal.len(),
    {
        let ghost before = self@;
        let mut out: Vec<BounceRecord> = Vec::new();
        std::mem::swap(&mut out, &mut self.outbox);
        self.written = Ghost(before.journal);
        proof {
            assert(record_views(self.outbox@) =~= Seq::empty());
            assert(self@.journal =~= before.journal);
            assert(self@ == before);
            assert(record_views(out@) =~= before.journal.skip(old(self).handed_over() as int));
        }
        out
    }

    fn note(&mut self, record: BounceRecord)
        ensures
            final(self).queue == old(self).queue,
            final(self).handed_over() == old(self).handed_over(),
            final(self)@ == (GateView {
                journal: old(self)@.journal.push(record@),
                ..old(self)@
            }),
    {
        let ghost before = self.outbox@;
        self.outbox.push(record);
        assert(record_views(self.outbox@) =~= record_views(before).push(record@));
        assert(self@.journal =~= old(self)@.journal.push(record@));
    }

    /// Parks a message that bounced and hands out its ticket. A gate that is full
    /// first gives up the messages that are closest to their deadlines, which are
    /// journaled as expired. A capacity of zero counts as one.
    pub fn bounce(
        &mut self,
        request: ReplyRequest,
        reason: RejectReason,
        ttl: Duration,
        max_pending: usize,
        now: Instant,
        at: Timestamp,
    ) -> (r: BounceTicket)
        requires
            old(self).wf(),
            old(self)@.queue.minted < u64::MAX,
        ensures
            final(self).wf(),
            final(self).handed_over() == old(self).handed_over(),
            bounced_with(
                old(self)@,
                final(self)@,
                request@,
                reason@,
                ttl,
                max_pending,
                now,
                at,
            ),
            old(self)@.queue.entries.dom().len() < capacity(max_pending) ==> final(self)@ == (GateView {
                queue: queue::after_hold(
                    old(self)@.queue,
                    queue::fresh_entry(request@, reason@, None, at, ttl, now),
                ),
                ..old(self)@
            }),
            r.handle@ == queue::next_handle(old(self)@.queue),
            r.reason@ == reason@,
            r.expires_in == ttl,
            r.parent is None,
    {
        let ghost g0 = self@;
        let cap: usize = if max_pending == 0 {
            1
        } else {
            max_pending
        };
        let ghost mut ids: Seq<Seq<char>> = Seq::empty();
        proof {
            law_expiries_balance(g0, ids, now, at);
            assert(g0.journal + ids.map_values(
                |id: Seq<char>| expiry(id, g0.queue.entries[id], now, at),
            ) =~= g0.journal);
            assert(self@.queue.entries.dom() =~= self.queue@.entries.dom());
        }
        let mut done: bool = self.queue.len() < cap;
        while !done
            invariant
                self.wf(),
                self.handed_over() == old(self).handed_over(),
                balanced(g0),
                cap == capacity(max_pending),
                self@ == after_expiries(g0, ids, now, at),
                self@.queue.minted == g0.queue.minted,
                self@.queue.nonce == g0.queue.nonce,
                self@.queue.entries.dom() == self.queue@.entries.dom(),
                self.queue@.entries.dom().finite(),
                ids.no_duplicates(),
                forall|k: int|
                    0 <= k < ids.len() ==> g0.queue.entries.contains_key(#[trigger] ids[k]),
                forall|k: int|
                    0 <= k < ids.len() ==> {
                        let before = #[trigger] after_expiries(g0, ids.take(k), now, at).queue;
                        queue::next_to_expire(before, ids[k]) && before.entries.dom().len()
                            >= capacity(max_pending)
                    },
                !done ==> self@.queue.entries.dom().len() >= cap,
                done ==> self@.queue.entries.dom().len() < cap || all_in_flight(self@.queue),
            decreases
                    self.queue@.entries.dom().len(),
                    if done {
                        0int
                    } else {
                        1int
                    },
        {
            let ghost mid = self@;
            let ghost q = self.queue@;
            match self.queue.evict_next_expiring() {
                None => {
                    proof {
                        assert forall|id: Seq<char>| #[trigger]
                            mid.queue.entries.contains_key(id) implies mid.queue.entries[id].in_flight by {
                            assert(q.entries.contains_key(id));
                        }
                    }
                    done = true;
                },
                Some((handle, entry)) => {
                    let ghost id = handle@;
                    proof {
                        lemma_seen_removal(q, id);
                        assert(mid.queue.entries[id] == seen(entry@));
                        assert forall|other: Seq<char>| #[trigger]
                            mid.queue.entries.contains_key(other)
                                && !mid.queue.entries[other].in_flight implies mid.queue.entries[id].deadline.nanos
                            <= mid.queue.entries[other].deadline.nanos by {
                            assert(q.entries.contains_key(other));
                        }
                        assert(queue::next_to_expire(mid.queue, id));
                        law_resolution_balances(mid, id, expiry(id, mid.queue.entries[id], now, at));
                    }
                    let record: BounceRecord = expire(&handle, &entry, now, at);
                    self.note(record);
                    proof {
                        let next = ids.push(id);
                        law_expiries_balance(g0, ids, now, at);
                        assert(!ids.contains(id));
                        assert(next.drop_last() =~= ids);
                        assert(self@ == after_resolution(
                            mid,
                            id,
                            expiry(id, mid.queue.entries[id], now, at),
                        ));
                        assert forall|k: int| 0 <= k < next.len() implies {
                            let before = #[trigger] after_expiries(g0, next.take(k), now, at).queue;
                            queue::next_to_expire(before, next[k]) && before.entries.dom().len()
                                >= capacity(max_pending)
                        } by {
                            if k < ids.len() {
                                assert(next.take(k) =~= ids.take(k));
                                assert(next[k] == ids[k]);
                            } else {
                                assert(next.take(k) =~= ids);
                            }
                        }
                        ids = next;
                        assert(self@.queue.entries.dom() =~= self.queue@.entries.dom());
                    }
                    done = self.queue.len() < cap;
                },
            }
        }
        proof {
            if g0.queue.entries.dom().len() < capacity(max_pending) && ids.len() > 0 {
                assert(ids.take(0) =~= Seq::empty());
                assert(after_expiries(g0, ids.take(0), now, at) == g0);
            }
        }
        let ghost room = self@;
        let ghost q = self.queue@;
        let ticket_reason: RejectReason = reason.clone();
        let handle: HoldHandle = self.queue.hold_at(request, reason, None, at, ttl, now);
        proof {
            law_expiries_balance(g0, ids, now, at);
            lemma_seen_hold(q, queue::fresh_entry(request, reason@, None, at, ttl, now));
            law_hold_balances(room, queue::fresh_entry(request@, reason@, None, at, ttl, now));
            let record = |id: Seq<char>| expiry(id, g0.queue.entries[id], now, at);
            assert(newly_journaled(g0, self@) =~= ids) by {
                assert(self@.journal == g0.journal + ids.map_values(record));
                assert(self@.journal.skip(g0.journal.len() as int) =~= ids.map_values(record));
            }
        }
        BounceTicket { handle, reason: ticket_reason, expires_in: ttl, parent: None }
    }

    /// Reserves a live handle for a delivery. One that has expired is journaled
    /// as such.
    pub fn begin(&mut self, handle: &HoldHandle, now: Instant, at: Timestamp) -> (r: Result<
        Reservation,
        RejectedHandle,
    >)
        requires
            old(self).wf(),
        ensures
            final(self).wf(),
            final(self).handed_over() == old(self).handed_over(),
            match r {
                Ok(reservation) => {
                    &&& queue::reservable(old(self)@.queue, handle@, now)
                    &&& reservation.id() == handle@
                    &&& reservation.entry() == (HeldView {
                        in_flight: true,
                        ..old(self)@.queue.entries[handle@]
                    })
                    &&& reservation.held_by(final(self)@)
                    &&& final(self)@ == (GateView {
                        queue: queue::after_change(
                            old(self)@.queue,
                            handle@,
                            reservation.entry(),
                        ),
                        ..old(self)@
                    })
                },
                Err(rejected) => refused(old(self)@, final(self)@, handle@, rejected, now, at),
            },
    {
        let ghost g0 = self@;
        let ghost q = self.queue@;
        match self.queue.reserve(handle, now) {
            Ok(entry) => {
                proof {
                    let was = q.entries[handle@];
                    lemma_request_cloned(was.payload, entry.payload);
                    lemma_seen_change(q, handle@, HeldView { in_flight: true, ..was });
                    law_change_balances(g0, handle@, seen(entry@));
                    assert(seen(entry@) == (HeldView {
                        in_flight: true,
                        ..g0.queue.entries[handle@]
                    }));
                }
                Ok(Reservation { handle: handle.clone(), entry })
            },
            Err(ClaimError::Unknown) => Err(RejectedHandle::Unknown(handle.clone())),
            Err(ClaimError::Expired(entry)) => {
                let record: BounceRecord = expire(handle, &entry, now, at);
                proof {
                    lemma_seen_removal(q, handle@);
                    law_resolution_balances(g0, handle@, record@);
                }
                self.note(record);
                Err(RejectedHandle::Expired { handle: handle.clone(), reason: entry.reason.clone() })
            },
        }
    }

    /// Ends the delivery of a held message. Where it worked, the handle is
    /// consumed and the release journaled; where it failed, the handle stays
    /// live, holding what has not been posted.
    pub fn finish_release(
        &mut self,
        reservation: Reservation,
        delivery: Result<Vec<u64>, DeliverError>,
        now: Instant,
        at: Timestamp,
    ) -> (r: Result<Released, RejectedHandle>)
        requires
            old(self).wf(),
            reservation.held_by(old(self)@),
        ensures
            final(self).wf(),
            final(self).handed_over() == old(self).handed_over(),
            final(self)@ == after_release(
                old(self)@,
                reservation.id(),
                reservation.entry(),
                delivery_view(delivery),
                now,
                at,
            ),
            release_reply(reservation.id(), reservation.entry(), delivery_view(delivery), now, r),
    {
        let ghost g0 = self@;
        let ghost q = self.queue@;
        let Reservation { handle, entry } = reservation;
        match delivery {
            Ok(ids) => {
                let record: BounceRecord = journal_release(&handle, &entry, now, at);
                proof {
                    lemma_seen_removal(q, handle@);
                    law_resolution_balances(g0, handle@, record@);
                }
                self.queue.settle(&handle);
                self.note(record);
                Ok(
                    Released {
                        message_ids: all_ids(&entry.sent_ids, ids),
                        latency_ms: entry.latency(now).as_millis_u64(),
                    },
                )
            },
            Err(error) => {
                let ghost e = error@;
                let expires_in: Duration = entry.expires_in(now);
                let DeliverError { message, sent_ids, undelivered, diary_records, fence_context } =
                    error;
                let ghost wanted = after_release(g0, handle@, seen(entry@), Err(e), now, at);
                let partial: bool = sent_ids.len() > 0;
                match undelivered {
                    Some(remainder) if partial => {
                        let full: String = whole_text(&entry).to_owned();
                        let held: &ReplyRequest = &entry.payload;
                        let rest: ReplyRequest = ReplyRequest {
                            channel_id: held.channel_id,
                            content: remainder,
                            reply_to_message_id: held.reply_to_message_id,
                            suppress_ping: held.suppress_ping,
                            pending_diary_records: diary_records,
                            fence_context,
                        };
                        proof {
                            let next = queue::partly_sent(
                                q.entries[handle@],
                                rest,
                                sent_ids@,
                                full@,
                            );
                            lemma_seen_change(q, handle@, next);
                            assert(seen(next) == queue::partly_sent(
                                seen(entry@),
                                cut_down(seen(entry@).payload, e, remainder@),
                                e.sent_ids,
                                held_text(seen(entry@)),
                            ));
                            law_change_balances(g0, handle@, seen(next));
                        }
                        self.queue.record_partial(&handle, rest, sent_ids, full);
                    },
                    _ => {
                        proof {
                            let next = HeldView { in_flight: false, ..q.entries[handle@] };
                            lemma_seen_change(q, handle@, next);
                            law_change_balances(g0, handle@, seen(next));
                            assert(remainder_of(e) is None);
                            assert(seen(next) == (HeldView { in_flight: false, ..seen(entry@) }));
                        }
                        self.queue.release_reservation(&handle);
                    },
                }
                assert(self@ == wanted);
                Err(RejectedHandle::SendFailed { handle, error: message, expires_in })
            },
        }
    }

    /// Ends the delivery of a replacement that the judge cleared. Where it worked,
    /// the handle is consumed and the replacement journaled; where it failed, the
    /// handle stays live with a new deadline, and holds the replacement.
    pub fn finish_rephrase(
        &mut self,
        reservation: Reservation,
        replacement: &str,
        delivery: Result<Vec<u64>, DeliverError>,
        ttl: Duration,
        now: Instant,
        at: Timestamp,
    ) -> (r: Result<Rephrased, RejectedHandle>)
        requires
            old(self).wf(),
            reservation.held_by(old(self)@),
        ensures
            final(self).wf(),
            final(self).handed_over() == old(self).handed_over(),
            final(self)@ == after_rephrase(
                old(self)@,
                reservation.id(),
                reservation.entry(),
                replacement@,
                delivery_view(delivery),
                ttl,
                now,
                at,
            ),
            rephrase_reply(reservation.id(), reservation.entry(), delivery_view(delivery), ttl, r),
    {
        let ghost g0 = self@;
        let ghost q = self.queue@;
        let request: ReplyRequest = reservation.replacement(replacement);
        let Reservation { handle, entry } = reservation;
        match delivery {
            Ok(ids) => {
                let record: BounceRecord = journal_rephrase(&handle, &entry, replacement, now, at);
                proof {
                    lemma_seen_removal(q, handle@);
                    law_resolution_balances(g0, handle@, record@);
                }
                self.queue.settle(&handle);
                self.note(record);
                Ok(Rephrased::Sent { message_ids: all_ids(&entry.sent_ids, ids) })
            },
            Err(error) => {
                let ghost e = error@;
                let DeliverError { message, sent_ids, undelivered, diary_records, fence_context } =
                    error;
                let ghost was = q.entries[handle@];
                let ghost first = held_text(seen(entry@));
                let ghost kept = HeldView {
                    original_message: None,
                    ..queue::withdrawn(was, first)
                };
                let ghost wanted = after_failed_replacement(
                    seen(entry@),
                    replacement@,
                    e,
                    ttl,
                    now,
                );
                let original: String = match &entry.withdrawn_original {
                    Some(text) => text.clone(),
                    None => whole_text(&entry).to_owned(),
                };
                self.queue.set_withdrawn_original(&handle, original);
                self.queue.forget_original_message(&handle);
                assert(self.queue@.entries =~= queue::after_change(q, handle@, kept).entries);
                let partial: bool = sent_ids.len() > 0;
                let ghost held: HeldView<ReplyRequest>;
                match undelivered {
                    Some(remainder) if partial => {
                        let rest: ReplyRequest = ReplyRequest {
                            channel_id: request.channel_id,
                            content: remainder,
                            reply_to_message_id: request.reply_to_message_id,
                            suppress_ping: request.suppress_ping,
                            pending_diary_records: diary_records,
                            fence_context,
                        };
                        proof {
                            held = queue::partly_sent(
                                kept,
                                rest,
                                sent_ids@,
                                request.content@,
                            );
                            assert(rest@ == cut_down(request@, e, remainder@));
                        }
                        self.queue.record_partial(&handle, rest, sent_ids, request.content);
                        assert(self.queue@.entries =~= queue::after_change(
                            q,
                            handle@,
                            held,
                        ).entries);
                    },
                    _ => {
                        proof {
                            held = HeldView { payload: request, in_flight: false, ..kept };
                            assert(remainder_of(e) is None);
                        }
                        self.queue.update_payload(&handle, request);
                        self.queue.release_reservation(&handle);
                        assert(self.queue@.entries =~= queue::after_change(
                            q,
                            handle@,
                            held,
                        ).entries);
                    },
                }
                let deadline: Instant = match now.checked_add(ttl) {
                    Some(deadline) => deadline,
                    None => now,
                };
                self.queue.refresh_deadline(&handle, deadline);
                proof {
                    let next = HeldView { deadline, ..held };
                    assert(self.queue@.entries =~= queue::after_change(q, handle@, next).entries);
                    assert(self.queue@ == queue::after_change(q, handle@, next));
                    assert(seen(next) == wanted);
                    lemma_seen_change(q, handle@, next);
                    law_change_balances(g0, handle@, wanted);
                }
                Err(RejectedHandle::SendFailed { handle, error: message, expires_in: ttl })
            },
        }
    }

    /// Parks a replacement that bounced in turn, under a new handle that chains to
    /// the old one. The old handle is consumed: its text is never sent.
    pub fn rebounce(
        &mut self,
        reservation: Reservation,
        replacement: &str,
        reason: RejectReason,
        ttl: Duration,
        now: Instant,
        at: Timestamp,
    ) -> (r: BounceTicket)
        requires
            old(self).wf(),
            reservation.held_by(old(self)@),
            old(self)@.queue.minted < u64::MAX,
        ensures
            final(self).wf(),
            final(self).handed_over() == old(self).handed_over(),
            final(self)@ == after_rebounce(
                old(self)@,
                reservation.id(),
                reservation.entry(),
                replacement@,
                reason@,
                ttl,
                now,
                at,
            ),
            r.handle@ == queue::next_handle(old(self)@.queue),
            r.reason@ == reason@,
            r.expires_in == ttl,
            queue::handle_opt(r.parent) == Some(reservation.id()),
    {
        let ghost g0 = self@;
        let ghost q = self.queue@;
        let request: ReplyRequest = reservation.replacement(replacement);
        let Reservation { handle, entry } = reservation;
        let record: BounceRecord = journal_rephrase(&handle, &entry, replacement, now, at);
        let ticket_reason: RejectReason = reason.clone();
        proof {
            lemma_seen_removal(q, handle@);
            law_resolution_balances(g0, handle@, record@);
        }
        self.queue.settle(&handle);
        self.note(record);
        let ghost mid = self@;
        let ghost mid_q = self.queue@;
        let new_handle: HoldHandle = self.queue.hold_at(
            request,
            reason,
            Some(handle.clone()),
            at,
            ttl,
            now,
        );
        proof {
            let fresh = queue::fresh_entry(request, reason@, Some(handle@), at, ttl, now);
            lemma_seen_hold(mid_q, fresh);
            law_hold_balances(mid, seen(fresh));
        }
        BounceTicket {
            handle: new_handle,
            reason: ticket_reason,
            expires_in: ttl,
            parent: Some(handle),
        }
    }

    /// Releases a held message: posts it as it is held.
    pub fn release<D: DeliverReply>(
        &mut self,
        deliver: &D,
        handle: &HoldHandle,
        now: Instant,
        at: Timestamp,
    ) -> (r: Result<Released, RejectedHandle>)
        requires
            old(self).wf(),
        ensures
            final(self).wf(),
            final(self).handed_over() == old(self).handed_over(),
            if queue::reservable(old(self)@.queue, handle@, now) {
                exists|delivery: Result<Seq<u64>, DeliverErrorView>|
                    posted(deliver, old(self)@.queue.entries[handle@].payload, delivery)
                        && #[trigger] released_with(
                        old(self)@,
                        final(self)@,
                        handle@,
                        delivery,
                        now,
                        at,
                        r,
                    )
            } else {
                r matches Err(rejected) && refused(
                    old(self)@,
                    final(self)@,
                    handle@,
                    rejected,
                    now,
                    at,
                )
            },
    {
        let ghost g0 = self@;
        match self.begin(handle, now, at) {
            Err(rejected) => Err(rejected),
            Ok(reservation) => {
                let request: &ReplyRequest = reservation.request();
                let delivery: Result<Vec<u64>, DeliverError> = deliver.deliver(request);
                let ghost outcome = delivery_view(delivery);
                let ghost entry = reservation.entry();
                let ghost mid = self@;
                assert(posts(deliver, *request, delivery));
                assert(posted(deliver, g0.queue.entries[handle@].payload, outcome));
                let r: Result<Released, RejectedHandle> = self.finish_release(
                    reservation,
                    delivery,
                    now,
                    at,
                );
                proof {
                    lemma_after_reservation(g0, mid, handle@, entry);
                    assert(released_with(g0, self@, handle@, outcome, now, at, r));
                }
                r
            },
        }
    }

    /// Rephrases a held message: judges the replacement, and posts it or parks it
    /// in turn. Either way the text that was held is not what is sent.
    pub fn rephrase<D: DeliverReply, J: OutboundJudge>(
        &mut self,
        deliver: &D,
        judge: &J,
        handle: &HoldHandle,
        replacement: &str,
        ttl: Duration,
        now: Instant,
        at: Timestamp,
    ) -> (r: Result<Rephrased, RejectedHandle>)
        requires
            old(self).wf(),
            old(self)@.queue.minted < u64::MAX,
        ensures
            final(self).wf(),
            final(self).handed_over() == old(self).handed_over(),
            if queue::reservable(old(self)@.queue, handle@, now) {
                ||| exists|delivery: Result<Seq<u64>, DeliverErrorView>|
                    judged(judge, replacement@, None) && posted(
                        deliver,
                        rephrased_request(
                            old(self)@.queue.entries[handle@].payload,
                            replacement@,
                        ),
                        delivery,
                    ) && #[trigger] rephrased_with(
                        old(self)@,
                        final(self)@,
                        handle@,
                        replacement@,
                        delivery,
                        ttl,
                        now,
                        at,
                        r,
                    )
                ||| exists|reason: Seq<ReasonView>|
                    judged(judge, replacement@, Some(reason)) && #[trigger] rebounced_with(
                        old(self)@,
                        final(self)@,
                        handle@,
                        replacement@,
                        reason,
                        ttl,
                        now,
                        at,
                        r,
                    )
            } else {
                r matches Err(rejected) && refused(
                    old(self)@,
                    final(self)@,
                    handle@,
                    rejected,
                    now,
                    at,
                )
            },
    {
        let ghost g0 = self@;
        match self.begin(handle, now, at) {
            Err(rejected) => Err(rejected),
            Ok(reservation) => {
                let ghost entry = reservation.entry();
                let ghost mid = self@;
                proof {
                    lemma_after_reservation(g0, mid, handle@, entry);
                }
                let verdict: Verdict = judge.judge(replacement);
                assert(judges(judge, replacement, verdict));
                assert(judged(judge, replacement@, verdict@));
                match verdict {
                    Verdict::Clear => {
                        let request: ReplyRequest = reservation.replacement(replacement);
                        let delivery: Result<Vec<u64>, DeliverError> = deliver.deliver(&request);
                        let ghost outcome = delivery_view(delivery);
                        assert(posts(deliver, request, delivery));
                        assert(posted(deliver, request@, outcome));
                        let r: Result<Rephrased, RejectedHandle> = self.finish_rephrase(
                            reservation,
                            replacement,
                            delivery,
                            ttl,
                            now,
                            at,
                        );
                        assert(rephrased_with(
                            g0,
                            self@,
                            handle@,
                            replacement@,
                            outcome,
                            ttl,
                            now,
                            at,
                            r,
                        ));
                        r
                    },
                    Verdict::Bounce(reason) => {
                        let ghost why = reason@;
                        let ticket: BounceTicket = self.rebounce(
                            reservation,
                            replacement,
                            reason,
                            ttl,
                            now,
                            at,
                        );
                        let r: Result<Rephrased, RejectedHandle> = Ok(Rephrased::ReBounced(ticket));
                        assert(rebounced_with(
                            g0,
                            self@,
                            handle@,
                            replacement@,
                            why,
                            ttl,
                            now,
                            at,
                            r,
                        ));
                        r
                    },
                }
            },
        }
    }

    /// Takes out the messages past their deadlines and journals each as expired;
    /// tells how many there were.
    pub fn expire_due(&mut self, now: Instant, at: Timestamp) -> (r: usize)
        requires
            old(self).wf(),
        ensures
            final(self).wf(),
            final(self).handed_over() == old(self).handed_over(),
            expired_exactly(old(self)@, final(self)@, Some(now), now, at),
            r == newly_journaled(old(self)@, final(self)@).len(),
    {
        let ghost q = self.queue@;
        let expired: Vec<(HoldHandle, Held<ReplyRequest>)> = self.queue.sweep_expired(now);
        self.journal_all(expired, Ghost(q), Some(now), now, at)
    }

    /// Takes out every message whose delivery is not under way and journals it as
    /// expired; tells how many there were. Called when the process ends.
    pub fn drain_shutdown(&mut self, now: Instant, at: Timestamp) -> (r: usize)
        requires
            old(self).wf(),
        ensures
            final(self).wf(),
            final(self).handed_over() == old(self).handed_over(),
            expired_exactly(old(self)@, final(self)@, None, now, at),
            r == newly_journaled(old(self)@, final(self)@).len(),
    {
        let ghost q = self.queue@;
        let drained: Vec<(HoldHandle, Held<ReplyRequest>)> = self.queue.drain();
        self.journal_all(drained, Ghost(q), None, now, at)
    }

    fn journal_all(
        &mut self,
        out: Vec<(HoldHandle, Held<ReplyRequest>)>,
        Ghost(q): Ghost<QueueView<ReplyRequest>>,
        due: Option<Instant>,
        now: Instant,
        at: Timestamp,
    ) -> (r: usize)
        requires
            old(self).queue.wf(),
            balanced(GateView { queue: seen_queue(q), journal: old(self)@.journal }),
            old(self).queue@ == queue::after_sweep(q, due),
            queue::swept(q, due, out@),
        ensures
            final(self).wf(),
            final(self).handed_over() == old(self).handed_over(),
            ({
                let g0 = GateView { queue: seen_queue(q), journal: old(self)@.journal };
                expired_exactly(g0, final(self)@, due, now, at) && r == newly_journaled(
                    g0,
                    final(self)@,
                ).len()
            }),
    {
        let ghost g0 = GateView { queue: seen_queue(q), journal: self@.journal };
        let ghost ids = out@.map_values(|e: (HoldHandle, Held<ReplyRequest>)| e.0@);
        let ghost record = |id: Seq<char>| expiry(id, g0.queue.entries[id], now, at);
        let ghost swept_queue = self.queue;
        let mut i: usize = 0;
        assert(g0.journal + ids.take(0).map_values(record) =~= g0.journal);
        while i < out.len()
            invariant
                i <= out@.len(),
                self.queue == swept_queue,
                self.handed_over() == old(self).handed_over(),
                self@.queue == seen_queue(swept_queue@),
                g0.queue == seen_queue(q),
                queue::swept(q, due, out@),
                ids == out@.map_values(|e: (HoldHandle, Held<ReplyRequest>)| e.0@),
                record == (|id: Seq<char>| expiry(id, g0.queue.entries[id], now, at)),
                self@.journal == g0.journal + ids.take(i as int).map_values(record),
            decreases out@.len() - i,
        {
            let (handle, entry): &(HoldHandle, Held<ReplyRequest>) = &out[i];
            let item: BounceRecord = expire(handle, entry, now, at);
            self.note(item);
            proof {
                assert(q.entries.contains_key(out@[i as int].0@));
                assert(ids[i as int] == handle@);
                assert(item@ == record(ids[i as int]));
                assert(g0.journal + ids.take(i + 1).map_values(record) =~= (g0.journal + ids.take(
                    i as int,
                ).map_values(record)).push(record(ids[i as int])));
            }
            i = i + 1;
        }
        proof {
            assert(ids.take(ids.len() as int) =~= ids);
            assert(ids.no_duplicates()) by {
                assert forall|a: int, b: int| 0 <= a < ids.len() && 0 <= b < ids.len() && a
                    != b implies ids[a] != ids[b] by {
                    if a < b {
                        assert(out@[a].0.id() != out@[b].0.id());
                    } else {
                        assert(out@[b].0.id() != out@[a].0.id());
                    }
                }
            }
            assert forall|k: int| 0 <= k < ids.len() implies g0.queue.entries.contains_key(
                #[trigger] ids[k],
            ) by {
                assert(q.entries.contains_key(out@[k].0@));
            }
            law_expiries_balance(g0, ids, now, at);
            lemma_seen_sweep(q, due);
            let end = after_expiries(g0, ids, now, at);
            assert forall|id: Seq<char>| ids.contains(id) <==> #[trigger] g0.queue.entries.contains_key(
                id,
            ) && queue::leaves(g0.queue.entries[id], due) by {
                if ids.contains(id) {
                    let k = choose|k: int| 0 <= k < ids.len() && ids[k] == id;
                    assert(q.entries.contains_key(out@[k].0@));
                }
                if g0.queue.entries.contains_key(id) && queue::leaves(g0.queue.entries[id], due) {
                    assert(q.entries.contains_key(id) && queue::leaves(q.entries[id], due));
                    assert(queue::among(out@, id));
                    let k = choose|k: int| 0 <= k < out@.len() && (#[trigger] out@[k]).0@ == id;
                    assert(ids[k] == id);
                }
            }
            assert(end.queue.entries =~= queue::after_sweep(g0.queue, due).entries);
            assert(self@.journal == end.journal);
            assert(self@ == end);
            assert(self@.journal.skip(g0.journal.len() as int) =~= ids.map_values(record));
            assert(newly_journaled(g0, self@) =~= ids);
        }
        out.len()
    }
}

/// Reserving an entry changes nothing about it but that it is reserved, so that
/// what is done with it afterwards can be told from before.
proof fn lemma_after_reservation(
    g: GateView,
    mid: GateView,
    id: Seq<char>,
    entry: HeldView<RequestView>,
)
    requires
        g.queue.entries.contains_key(id),
        entry == (HeldView { in_flight: true, ..g.queue.entries[id] }),
        mid == (GateView { queue: queue::after_change(g.queue, id, entry), ..g }),
    ensures
        forall|record: BounceView| #[trigger]
            after_resolution(mid, id, record) == after_resolution(g, id, record),
        forall|next: HeldView<RequestView>| #[trigger]
            queue::after_change(mid.queue, id, next) == queue::after_change(g.queue, id, next),
        queue::after_removal(mid.queue, id) == queue::after_removal(g.queue, id),
{
    assert(mid.queue.entries.remove(id) =~= g.queue.entries.remove(id));
    assert forall|record: BounceView| #[trigger] after_resolution(mid, id, record)
        == after_resolution(g, id, record) by {
        assert(after_resolution(mid, id, record).queue == after_resolution(g, id, record).queue);
    }
    assert forall|next: HeldView<RequestView>| #[trigger]
        queue::after_change(mid.queue, id, next) == queue::after_change(g.queue, id, next) by {
        assert(mid.queue.entries.insert(id, next) =~= g.queue.entries.insert(id, next));
    }
}

/// What an action on a handle that cannot be reserved comes to: one that is not
/// live or is being delivered is unknown, and nothing changes; one that has
/// expired is journaled.
pub open spec fn refused(
    before: GateView,
    after: GateView,
    id: Seq<char>,
    rejected: RejectedHandle,
    now: Instant,
    at: Timestamp,
) -> bool {
    match rejected {
        RejectedHandle::Unknown(handle) => {
            &&& handle@ == id
            &&& !before.queue.entries.contains_key(id) || before.queue.entries[id].in_flight
            &&& after == before
        },
        RejectedHandle::Expired { handle, reason } => {
            &&& handle@ == id
            &&& before.queue.entries.contains_key(id)
            &&& !before.queue.entries[id].in_flight
            &&& before.queue.entries[id].expired(now)
            &&& reason@ == before.queue.entries[id].reason
            &&& after == after_resolution(
                before,
                id,
                expiry(id, before.queue.entries[id], now, at),
            )
        },
        RejectedHandle::SendFailed { .. } => false,
    }
}

/// What the construct is told of the delivery of a held message.
pub open spec fn release_reply(
    id: Seq<char>,
    entry: HeldView<RequestView>,
    delivery: Result<Seq<u64>, DeliverErrorView>,
    now: Instant,
    r: Result<Released, RejectedHandle>,
) -> bool {
    match delivery {
        Ok(ids) => r matches Ok(released) && released.message_ids@ == entry.sent_ids + ids
            && released.latency_ms == entry.latency(now).millis_u64(),
        Err(e) => r matches Err(RejectedHandle::SendFailed { handle, error, expires_in })
            && handle@ == id && error@ == e.message && expires_in == entry.left(now),
    }
}

/// What the construct is told of the delivery of a replacement.
pub open spec fn rephrase_reply(
    id: Seq<char>,
    entry: HeldView<RequestView>,
    delivery: Result<Seq<u64>, DeliverErrorView>,
    ttl: Duration,
    r: Result<Rephrased, RejectedHandle>,
) -> bool {
    match delivery {
        Ok(ids) => r matches Ok(Rephrased::Sent { message_ids }) && message_ids@ == entry.sent_ids
            + ids,
        Err(e) => r matches Err(RejectedHandle::SendFailed { handle, error, expires_in })
            && handle@ == id && error@ == e.message && expires_in == ttl,
    }
}

/// Whether a release of `id` went as it does where the delivery comes to this.
pub open spec fn released_with(
    before: GateView,
    after: GateView,
    id: Seq<char>,
    delivery: Result<Seq<u64>, DeliverErrorView>,
    now: Instant,
    at: Timestamp,
    r: Result<Released, RejectedHandle>,
) -> bool {
    let entry = HeldView { in_flight: true, ..before.queue.entries[id] };
    after == after_release(before, id, entry, delivery, now, at) && release_reply(
        id,
        entry,
        delivery,
        now,
        r,
    )
}

/// Whether a rephrase of `id` went as it does where the replacement is cleared
/// and its delivery comes to this.
pub open spec fn rephrased_with(
    before: GateView,
    after: GateView,
    id: Seq<char>,
    replacement: Seq<char>,
    delivery: Result<Seq<u64>, DeliverErrorView>,
    ttl: Duration,
    now: Instant,
    at: Timestamp,
    r: Result<Rephrased, RejectedHandle>,
) -> bool {
    let entry = HeldView { in_flight: true, ..before.queue.entries[id] };
    after == after_rephrase(before, id, entry, replacement, delivery, ttl, now, at)
        && rephrase_reply(id, entry, delivery, ttl, r)
}

/// Whether a message was parked as it has to be: room was made for it, and it is
/// held under the next handle.
pub open spec fn bounced_with(
    before: GateView,
    after: GateView,
    request: RequestView,
    reason: Seq<ReasonView>,
    ttl: Duration,
    max_pending: usize,
    now: Instant,
    at: Timestamp,
) -> bool {
    let ids = newly_journaled(before, after);
    let room = after_expiries(before, ids, now, at);
    &&& makes_room(before, ids, max_pending, now, at)
    &&& after == (GateView {
        queue: queue::after_hold(
            room.queue,
            queue::fresh_entry(request, reason, None, at, ttl, now),
        ),
        ..room
    })
}

/// Whether a rephrase of `id` went as it does where the replacement bounces for
/// this reason.
pub open spec fn rebounced_with(
    before: GateView,
    after: GateView,
    id: Seq<char>,
    replacement: Seq<char>,
    reason: Seq<ReasonView>,
    ttl: Duration,
    now: Instant,
    at: Timestamp,
    r: Result<Rephrased, RejectedHandle>,
) -> bool {
    let entry = HeldView { in_flight: true, ..before.queue.entries[id] };
    &&& after == after_rebounce(before, id, entry, replacement, reason, ttl, now, at)
    &&& r matches Ok(Rephrased::ReBounced(ticket))
    &&& ticket.handle@ == queue::next_handle(before.queue)
    &&& ticket.reason@ == reason
    &&& ticket.expires_in == ttl
    &&& queue::handle_opt(ticket.parent) == Some(id)
}

/// Whether exactly the messages that leave were taken out, each journaled as
/// expired.
pub open spec fn expired_exactly(
    before: GateView,
    after: GateView,
    due: Option<Instant>,
    now: Instant,
    at: Timestamp,
) -> bool {
    let ids = newly_journaled(before, after);
    &&& ids.no_duplicates()
    &&& forall|id: Seq<char>|
        ids.contains(id) <==> #[trigger] before.queue.entries.contains_key(id) && queue::leaves(
            before.queue.entries[id],
            due,
        )
    &&& after == after_expiries(before, ids, now, at)
}

// ── What holds of every gate ────────────────────────────────────────────────

/// Of the messages that a gate ever held, each is either still held or told of in
/// the journal, never both, and the journal tells of each once.
pub proof fn law_every_bounce_is_accounted_for(gate: ConsentGate)
    requires
        gate.wf(),
    ensures
        balanced(gate@),
{
}

/// A handle that the journal tells of can be acted on no more, at any time.
pub proof fn law_used_handles_are_dead(g: GateView, id: Seq<char>, now: Instant)
    requires
        balanced(g),
        resolved(g.journal, id),
    ensures
        !g.queue.entries.contains_key(id),
        !queue::reservable(g.queue, id, now),
{
}

/// While a delivery of a held message is under way, no other action can take the
/// handle.
pub proof fn law_one_delivery_at_a_time(reservation: Reservation, g: GateView, now: Instant)
    requires
        reservation.held_by(g),
    ensures
        !queue::reservable(g.queue, reservation.id(), now),
{
}

/// A held message that goes out is gone: its handle is dead, and the journal tells of it
/// once, with the text that went out. It was released, unless a replacement had been
/// accepted before: then it was rephrased, and the journal tells of both texts. No other
/// message is touched.
pub proof fn law_released_messages_are_told_of(
    g: GateView,
    id: Seq<char>,
    entry: HeldView<RequestView>,
    ids: Seq<u64>,
    now: Instant,
    at: Timestamp,
    other: Seq<char>,
)
    ensures
        ({
            let after = after_release(g, id, entry, Ok(ids), now, at);
            let record = after.journal.last();
            &&& !after.queue.entries.contains_key(id)
            &&& after.journal.len() == g.journal.len() + 1
            &&& after.journal.drop_last() == g.journal
            &&& record.handle == id
            &&& record.reason == entry.reason
            &&& record.parent == entry.parent
            &&& record.resolved_at == at
            &&& entry.withdrawn_original is None ==> record.outcome == Outcome::Released
                && record.replacement is None
            &&& entry.withdrawn_original is Some ==> record.outcome == Outcome::Rephrased
                && record.replacement is Some
            &&& entry.withdrawn_original is None && entry.original_message is None
                && entry.payload.content.len() <= 2000 ==> record.message == entry.payload.content
            &&& entry.withdrawn_original matches Some(first) ==> (first.len() <= 2000
                ==> record.message == first)
            &&& other != id ==> (after.queue.entries.contains_key(other)
                <==> g.queue.entries.contains_key(other))
            &&& other != id && g.queue.entries.contains_key(other) ==> after.queue.entries[other]
                == g.queue.entries[other]
        }),
{
    let after = after_release(g, id, entry, Ok(ids), now, at);
    assert(after.journal.drop_last() =~= g.journal);
}

/// A held message that cannot be sent stays held, under the same handle, with the same
/// deadline and, where nothing of it went out, as it was; and the journal is not told.
pub proof fn law_failed_releases_lose_nothing(
    g: GateView,
    id: Seq<char>,
    entry: HeldView<RequestView>,
    e: DeliverErrorView,
    now: Instant,
    at: Timestamp,
)
    requires
        g.queue.entries.contains_key(id),
    ensures
        ({
            let after = after_release(g, id, entry, Err(e), now, at);
            let left = after.queue.entries[id];
            &&& after.queue.entries.contains_key(id)
            &&& after.journal == g.journal
            &&& !left.in_flight
            &&& left.deadline == entry.deadline
            &&& left.reason == entry.reason
            &&& left.payload.channel_id == entry.payload.channel_id
            &&& left.payload.reply_to_message_id == entry.payload.reply_to_message_id
            &&& left.payload.suppress_ping == entry.payload.suppress_ping
            &&& e.sent_ids.len() == 0 ==> left == (HeldView { in_flight: false, ..entry })
            &&& e.sent_ids.len() > 0 && e.undelivered is Some ==> left.payload.content
                == e.undelivered->0 && left.sent_ids == entry.sent_ids + e.sent_ids
        }),
{
}

/// A replacement changes the text of a message and nothing of where it goes.
pub proof fn law_replacements_go_the_same_way(request: RequestView, replacement: Seq<char>)
    ensures
        ({
            let after = rephrased_request(request, replacement);
            &&& after.content == replacement
            &&& after.channel_id == request.channel_id
            &&& after.reply_to_message_id == request.reply_to_message_id
            &&& after.suppress_ping == request.suppress_ping
            &&& after.pending_diary_records == request.pending_diary_records
            &&& after.fence_context is None
        }),
{
}

/// A message whose replacement goes out is gone, and the journal tells of it once, as
/// rephrased: of the very first text and of what took its place.
pub proof fn law_rephrased_messages_are_told_of(
    g: GateView,
    id: Seq<char>,
    entry: HeldView<RequestView>,
    replacement: Seq<char>,
    ids: Seq<u64>,
    ttl: Duration,
    now: Instant,
    at: Timestamp,
)
    requires
        replacement.len() <= 2000,
    ensures
        ({
            let after = after_rephrase(g, id, entry, replacement, Ok(ids), ttl, now, at);
            let record = after.journal.last();
            &&& !after.queue.entries.contains_key(id)
            &&& after.journal.drop_last() == g.journal
            &&& after.journal.len() == g.journal.len() + 1
            &&& record.handle == id
            &&& record.outcome == Outcome::Rephrased
            &&& record.replacement == Some(replacement)
            &&& record.reason == entry.reason
            &&& entry.withdrawn_original is None && entry.original_message is None
                && entry.payload.content.len() <= 2000 ==> record.message == entry.payload.content
        }),
{
    let after = after_rephrase(g, id, entry, replacement, Ok(ids), ttl, now, at);
    assert(after.journal.drop_last() =~= g.journal);
}

/// A replacement that bounces in turn is held under a new handle, which names the old one
/// as its parent; the old one is dead, and the journal tells of it as rephrased.
pub proof fn law_bounced_replacements_are_held(
    g: GateView,
    id: Seq<char>,
    entry: HeldView<RequestView>,
    replacement: Seq<char>,
    reason: Seq<ReasonView>,
    ttl: Duration,
    now: Instant,
    at: Timestamp,
)
    requires
        queue::queue_wf(g.queue),
        g.queue.entries.contains_key(id),
    ensures
        ({
            let after = after_rebounce(g, id, entry, replacement, reason, ttl, now, at);
            let fresh = queue::next_handle(g.queue);
            &&& fresh != id
            &&& !after.queue.entries.contains_key(id)
            &&& after.queue.entries.contains_key(fresh)
            &&& after.queue.entries[fresh].payload.content == replacement
            &&& after.queue.entries[fresh].payload.channel_id == entry.payload.channel_id
            &&& after.queue.entries[fresh].payload.reply_to_message_id
                == entry.payload.reply_to_message_id
            &&& after.queue.entries[fresh].parent == Some(id)
            &&& after.queue.entries[fresh].reason == reason
            &&& !after.queue.entries[fresh].in_flight
            &&& after.journal.drop_last() == g.journal
            &&& after.journal.last().handle == id
            &&& after.journal.last().outcome == Outcome::Rephrased
            &&& after.journal.last().reason == entry.reason
        }),
{
    let after = after_rebounce(g, id, entry, replacement, reason, ttl, now, at);
    let fresh = queue::next_handle(g.queue);
    queue::lemma_step(
        g.queue,
        queue::QueueStep::Hold(
            queue::fresh_entry(
                rephrased_request(entry.payload, replacement),
                reason,
                Some(id),
                at,
                ttl,
                now,
            ),
        ),
    );
    assert(after.journal.drop_last() =~= g.journal);
}

/// A message whose time is up is told of as expired, with its text as it last stood and
/// no replacement.
pub proof fn law_expired_messages_are_told_of(
    id: Seq<char>,
    entry: HeldView<RequestView>,
    now: Instant,
    at: Timestamp,
)
    ensures
        ({
            let record = expiry(id, entry, now, at);
            &&& record.handle == id
            &&& record.outcome == Outcome::Expired
            &&& record.replacement is None
            &&& record.reason == entry.reason
            &&& record.parent == entry.parent
            &&& record.resolved_at == at
            &&& record.bounced_at == entry.bounced_at
            &&& entry.original_message is None && entry.payload.content.len() <= 2000
                ==> record.message == entry.payload.content
            &&& entry.original_message matches Some(whole) ==> (whole.len() <= 2000
                ==> record.message == whole)
        }),
{
}

/// An action on a handle is refused only where it cannot be taken: nothing changes where
/// the handle is not live or is being delivered, and a message whose time is up is told
/// of as expired and is gone.
pub proof fn law_refusals_have_their_reasons(
    before: GateView,
    after: GateView,
    id: Seq<char>,
    rejected: RejectedHandle,
    now: Instant,
    at: Timestamp,
)
    requires
        refused(before, after, id, rejected, now, at),
    ensures
        !queue::reservable(before.queue, id, now),
        rejected is Unknown ==> after == before && (!before.queue.entries.contains_key(id)
            || before.queue.entries[id].in_flight),
        rejected is Expired ==> {
            &&& before.queue.entries.contains_key(id)
            &&& now.nanos >= before.queue.entries[id].deadline.nanos
            &&& !after.queue.entries.contains_key(id)
            &&& after.journal.len() == before.journal.len() + 1
            &&& after.journal.last().handle == id
            &&& after.journal.last().outcome == Outcome::Expired
        },
        !(rejected is SendFailed),
{
}

/// The construct is told of every message that was posted of what it released, of those
/// of earlier tries as well; and of a failure with the time that is left.
pub proof fn law_releases_tell_of_every_message(
    id: Seq<char>,
    entry: HeldView<RequestView>,
    delivery: Result<Seq<u64>, DeliverErrorView>,
    now: Instant,
    r: Result<Released, RejectedHandle>,
)
    requires
        release_reply(id, entry, delivery, now, r),
    ensures
        r is Ok <==> delivery is Ok,
        r matches Ok(released) ==> released.message_ids@ == entry.sent_ids + delivery->Ok_0,
        r matches Err(e) ==> e is SendFailed && e->SendFailed_handle@ == id
            && e->SendFailed_expires_in == entry.left(now),
{
}

/// A replacement that was posted is told of by every message, and one that failed by the
/// time that it has from then on.
pub proof fn law_rephrases_tell_of_every_message(
    id: Seq<char>,
    entry: HeldView<RequestView>,
    delivery: Result<Seq<u64>, DeliverErrorView>,
    ttl: Duration,
    r: Result<Rephrased, RejectedHandle>,
)
    requires
        rephrase_reply(id, entry, delivery, ttl, r),
    ensures
        r is Ok <==> delivery is Ok,
        r matches Ok(rephrased) ==> (rephrased matches Rephrased::Sent { message_ids }
            && message_ids@ == entry.sent_ids + delivery->Ok_0),
        r matches Err(e) ==> e is SendFailed && e->SendFailed_handle@ == id
            && e->SendFailed_expires_in == ttl,
{
}

/// There is room for as many messages as are allowed, and for one in any case.
pub proof fn law_there_is_room_for_one(max_pending: usize)
    ensures
        capacity(max_pending) >= 1,
        max_pending > 0 ==> capacity(max_pending) == max_pending,
        capacity(0) == 1,
{
}

/// A replacement that was cleared but could not be posted has the whole of its time again.
pub proof fn law_renewed_deadlines_are_whole(now: Instant, ttl: Duration)
    ensures
        now.nanos + ttl.nanos <= u128::MAX ==> renewed_deadline(now, ttl).nanos == now.nanos
            + ttl.nanos,
{
}

proof fn lemma_expiries_keep_the_count(
    g: GateView,
    ids: Seq<Seq<char>>,
    now: Instant,
    at: Timestamp,
)
    ensures
        after_expiries(g, ids, now, at).queue.nonce == g.queue.nonce,
        after_expiries(g, ids, now, at).queue.minted == g.queue.minted,
        after_expiries(g, ids, now, at).journal.len() == g.journal.len() + ids.len(),
    decreases ids.len(),
{
    if ids.len() > 0 {
        lemma_expiries_keep_the_count(g, ids.drop_last(), now, at);
    }
}

proof fn lemma_in_flight_outlive_expiries(
    g: GateView,
    ids: Seq<Seq<char>>,
    max_pending: usize,
    now: Instant,
    at: Timestamp,
    id: Seq<char>,
    n: int,
)
    requires
        makes_room(g, ids, max_pending, now, at),
        g.queue.entries.contains_key(id),
        g.queue.entries[id].in_flight,
        0 <= n <= ids.len(),
    ensures
        after_expiries(g, ids.take(n), now, at).queue.entries.contains_key(id),
        after_expiries(g, ids.take(n), now, at).queue.entries[id] == g.queue.entries[id],
    decreases n,
{
    if n > 0 {
        lemma_in_flight_outlive_expiries(g, ids, max_pending, now, at, id, n - 1);
        let before = after_expiries(g, ids.take(n - 1), now, at);
        assert(ids.take(n).drop_last() =~= ids.take(n - 1));
        assert(ids.take(n).last() == ids[n - 1]);
        assert(queue::next_to_expire(before.queue, ids[n - 1]));
    }
}

/// A message that bounces is held, with its text and for its reason, whatever has to make
/// room for it; and no message that is being delivered makes room.
pub proof fn law_bounced_messages_are_held(
    before: GateView,
    after: GateView,
    request: RequestView,
    reason: Seq<ReasonView>,
    ttl: Duration,
    max_pending: usize,
    now: Instant,
    at: Timestamp,
    id: Seq<char>,
)
    requires
        queue::queue_wf(before.queue),
        bounced_with(before, after, request, reason, ttl, max_pending, now, at),
    ensures
        ({
            let fresh = queue::next_handle(before.queue);
            &&& after.queue.entries.contains_key(fresh)
            &&& after.queue.entries[fresh].payload == request
            &&& after.queue.entries[fresh].reason == reason
            &&& after.queue.entries[fresh].parent is None
            &&& !after.queue.entries[fresh].in_flight
            &&& now.nanos + ttl.nanos <= u128::MAX ==> after.queue.entries[fresh].deadline.nanos
                == now.nanos + ttl.nanos
            &&& before.queue.entries.contains_key(id) && before.queue.entries[id].in_flight
                ==> after.queue.entries.contains_key(id) && after.queue.entries[id]
                == before.queue.entries[id]
        }),
{
    let ids = newly_journaled(before, after);
    let room = after_expiries(before, ids, now, at);
    let entry = queue::fresh_entry(request, reason, None::<Seq<char>>, at, ttl, now);
    lemma_expiries_keep_the_count(before, ids, now, at);
    assert(queue::next_handle(room.queue) == queue::next_handle(before.queue));
    queue::lemma_step(before.queue, queue::QueueStep::Hold(entry));
    if before.queue.entries.contains_key(id) && before.queue.entries[id].in_flight {
        lemma_in_flight_outlive_expiries(
            before,
            ids,
            max_pending,
            now,
            at,
            id,
            ids.len() as int,
        );
        assert(ids.take(ids.len() as int) =~= ids);
    }
}

/// When messages expire, exactly those go whose time is up and that nobody is delivering,
/// and the journal tells of each of them once, as expired; at the end, all
/// go that nobody is delivering. The others stay as they are.
pub proof fn law_only_what_is_due_expires(
    before: GateView,
    after: GateView,
    now: Instant,
    at: Timestamp,
    id: Seq<char>,
)
    requires
        balanced(before),
        before.queue.entries.contains_key(id),
    ensures
        expired_exactly(before, after, Some(now), now, at) ==> {
            &&& after.queue.entries.contains_key(id) <==> before.queue.entries[id].in_flight
                || now.nanos < before.queue.entries[id].deadline.nanos
            &&& after.queue.entries.contains_key(id) ==> after.queue.entries[id]
                == before.queue.entries[id]
            &&& !after.queue.entries.contains_key(id) ==> exists|i: int|
                0 <= i < after.journal.len() && (#[trigger] after.journal[i]).handle == id
                    && after.journal[i].outcome == Outcome::Expired
        },
        expired_exactly(before, after, None, now, at) ==> {
            &&& after.queue.entries.contains_key(id) <==> before.queue.entries[id].in_flight
            &&& !after.queue.entries.contains_key(id) ==> exists|i: int|
                0 <= i < after.journal.len() && (#[trigger] after.journal[i]).handle == id
                    && after.journal[i].outcome == Outcome::Expired
        },
{
    if expired_exactly(before, after, Some(now), now, at) {
        lemma_expired_told(before, after, Some(now), now, at, id);
    }
    if expired_exactly(before, after, None, now, at) {
        lemma_expired_told(before, after, None, now, at, id);
    }
}

proof fn lemma_expired_told(
    before: GateView,
    after: GateView,
    due: Option<Instant>,
    now: Instant,
    at: Timestamp,
    id: Seq<char>,
)
    requires
        balanced(before),
        before.queue.entries.contains_key(id),
        expired_exactly(before, after, due, now, at),
    ensures
        after.queue.entries.contains_key(id) <==> !queue::leaves(before.queue.entries[id], due),
        after.queue.entries.contains_key(id) ==> after.queue.entries[id]
            == before.queue.entries[id],
        !after.queue.entries.contains_key(id) ==> exists|i: int|
            0 <= i < after.journal.len() && (#[trigger] after.journal[i]).handle == id
                && after.journal[i].outcome == Outcome::Expired,
{
    let ids = newly_journaled(before, after);
    assert forall|k: int| 0 <= k < ids.len() implies before.queue.entries.contains_key(
        #[trigger] ids[k],
    ) by {
        assert(ids.contains(ids[k]));
    }
    law_expiries_balance(before, ids, now, at);
    if ids.contains(id) {
        let k = choose|k: int| 0 <= k < ids.len() && ids[k] == id;
        let told = ids.map_values(
            |id: Seq<char>| expiry(id, before.queue.entries[id], now, at),
        );
        let i = before.journal.len() + k;
        assert(after.journal == before.journal + told);
        assert(after.journal[i] == told[k]);
        assert(told[k] == expiry(id, before.queue.entries[id], now, at));
        assert(after.journal[i].handle == id);
    }
}

/// Nothing is sent away while there is room; and where there is none, room is made, unless
/// all that is held is being delivered.
pub proof fn law_room_is_made_only_where_there_is_none(
    g: GateView,
    ids: Seq<Seq<char>>,
    max_pending: usize,
    now: Instant,
    at: Timestamp,
)
    requires
        makes_room(g, ids, max_pending, now, at),
    ensures
        g.queue.entries.dom().len() < max_pending ==> ids.len() == 0,
        max_pending > 0 ==> after_expiries(g, ids, now, at).queue.entries.dom().len() < max_pending
            || forall|id: Seq<char>| #[trigger]
            after_expiries(g, ids, now, at).queue.entries.contains_key(id) ==> after_expiries(
                g,
                ids,
                now,
                at,
            ).queue.entries[id].in_flight,
        ids.len() > 0 ==> g.queue.entries.contains_key(ids[0]) && !g.queue.entries[ids[0]].in_flight,
        ids.len() > 0 ==> forall|id: Seq<char>| #[trigger]
            g.queue.entries.contains_key(id) && !g.queue.entries[id].in_flight
                ==> g.queue.entries[ids[0]].deadline.nanos <= g.queue.entries[id].deadline.nanos,
{
    if ids.len() > 0 {
        assert(ids.take(0).len() == 0);
        assert(after_expiries(g, ids.take(0), now, at) == g);
    }
}

/// A record tells when the message bounced, when that was settled, and how long it took.
pub proof fn law_records_tell_the_time(
    id: Seq<char>,
    entry: HeldView<RequestView>,
    outcome: Outcome,
    message: Seq<char>,
    replacement: Option<Seq<char>>,
    now: Instant,
    at: Timestamp,
)
    requires
        entry.bounced_instant.nanos <= now.nanos,
        now.nanos - entry.bounced_instant.nanos < 1_000_000 * 0x1_0000_0000_0000_0000,
    ensures
        resolution(id, entry, outcome, message, replacement, now, at).bounced_at == entry.bounced_at,
        resolution(id, entry, outcome, message, replacement, now, at).resolved_at == at,
        resolution(id, entry, outcome, message, replacement, now, at).latency_ms == (now.nanos
            - entry.bounced_instant.nanos) / 1_000_000,
        resolution(id, entry, outcome, message, replacement, now, at).parent == entry.parent,
        resolution(id, entry, outcome, message, replacement, now, at).reason == entry.reason,
        resolution(id, entry, outcome, message, replacement, now, at).outcome == outcome,
{
}

/// A release that was delivered is done with: the handle is gone, and the construct is told
/// of every message that went out. One that failed is not: the handle stays, and can be used
/// again, and nothing is journaled.
pub proof fn law_releases_end_with_their_delivery(
    before: GateView,
    after: GateView,
    id: Seq<char>,
    delivery: Result<Seq<u64>, DeliverErrorView>,
    now: Instant,
    at: Timestamp,
    r: Result<Released, RejectedHandle>,
)
    requires
        before.queue.entries.contains_key(id),
        released_with(before, after, id, delivery, now, at, r),
    ensures
        delivery is Ok <==> r is Ok,
        delivery is Ok <==> !after.queue.entries.contains_key(id),
        delivery matches Ok(ids) ==> r->Ok_0.message_ids@ == before.queue.entries[id].sent_ids + ids
            && after.journal.len() == before.journal.len() + 1,
        delivery is Err ==> after.journal == before.journal
            && !after.queue.entries[id].in_flight,
        delivery matches Err(e) ==> (remainder_of(e) matches Some(rest) ==> {
            let payload = after.queue.entries[id].payload;
            &&& payload.content == rest
            &&& payload.pending_diary_records == e.diary_records
            &&& payload.fence_context == e.fence_context
        }),
        forall|other: Seq<char>|
            other != id ==> (#[trigger] after.queue.entries.contains_key(other)
                <==> before.queue.entries.contains_key(other)),
{
}

/// A replacement that was delivered ends its handle; one that failed keeps it.
pub proof fn law_rephrases_end_with_their_delivery(
    before: GateView,
    after: GateView,
    id: Seq<char>,
    replacement: Seq<char>,
    delivery: Result<Seq<u64>, DeliverErrorView>,
    ttl: Duration,
    now: Instant,
    at: Timestamp,
    r: Result<Rephrased, RejectedHandle>,
)
    requires
        before.queue.entries.contains_key(id),
        rephrased_with(before, after, id, replacement, delivery, ttl, now, at, r),
    ensures
        delivery is Ok <==> r is Ok,
        delivery is Ok <==> !after.queue.entries.contains_key(id),
        delivery is Ok ==> after.journal.len() == before.journal.len() + 1,
        delivery is Err ==> after.journal == before.journal && !after.queue.entries[id].in_flight,
        delivery matches Err(e) ==> (remainder_of(e) is None ==>
            after.queue.entries[id].payload.content == replacement),
        delivery matches Err(e) ==> (remainder_of(e) matches Some(rest) ==>
            after.queue.entries[id].payload.content == rest
            && after.queue.entries[id].payload.pending_diary_records == e.diary_records
            && after.queue.entries[id].payload.fence_context == e.fence_context),
{
}

/// A text that was judged was handed to the judge as it is, and the verdict is the judge's.
pub proof fn law_judges_see_the_text<J: OutboundJudge>(
    judge: &J,
    content: Seq<char>,
    verdict: Option<Seq<ReasonView>>,
)
    requires
        judged(judge, content, verdict),
    ensures
        exists|s: &str, v: Verdict| #[trigger]
            call_ensures(J::judge, (judge, s), v) && s@ == content && v@ == verdict,
{
    let (s, v) = choose|s: &str, v: Verdict| #[trigger]
        judges(judge, s, v) && s@ == content && v@ == verdict;
    assert(judges(judge, s, v));
    assert(call_ensures(J::judge, (judge, s), v));
}

/// A replacement that bounces is held under a handle of its own, for as long as a message
/// is held, and the ticket says so: the old handle is gone.
pub proof fn law_bounced_replacements_have_their_ticket(
    before: GateView,
    after: GateView,
    id: Seq<char>,
    replacement: Seq<char>,
    reason: Seq<ReasonView>,
    ttl: Duration,
    now: Instant,
    at: Timestamp,
    r: Result<Rephrased, RejectedHandle>,
)
    requires
        queue::queue_wf(before.queue),
        before.queue.entries.contains_key(id),
        rebounced_with(before, after, id, replacement, reason, ttl, now, at, r),
    ensures
        r matches Ok(Rephrased::ReBounced(ticket)) && {
            &&& after.queue.entries.contains_key(ticket.handle@)
            &&& after.queue.entries[ticket.handle@].payload.content == replacement
            &&& after.queue.entries[ticket.handle@].reason == reason
            &&& ticket.reason@ == reason
            &&& ticket.expires_in == ttl
            &&& ticket.parent is Some && ticket.parent->0@ == id
            &&& ticket.handle@ != id
            &&& !after.queue.entries.contains_key(id)
        },
{
    let entry = HeldView { in_flight: true, ..before.queue.entries[id] };
    law_bounced_replacements_are_held(before, id, entry, replacement, reason, ttl, now, at);
}

} // verus!
