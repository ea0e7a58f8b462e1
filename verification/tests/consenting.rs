use std::cell::{Cell, RefCell};
use std::collections::VecDeque;

use dione::clock::{Duration, Instant, Timestamp};
use dione::contradictionary::{
    Action, Contradictionary, DiaryKind, DiaryRecord, Entry, MatchMode,
};
use dione::no_rly::consent::{
    ConsentGate, DeliverError, DeliverReply, FenceContext, RejectedHandle, Rephrased, ReplyRequest,
};
use dione::no_rly::journal::{BounceRecord, JournalRecord, JournalScan, Outcome, StatsFilter};
use dione::no_rly::judge::{AlwaysClear, ReasonEntry, RejectReason};
use dione::no_rly::queue::HoldHandle;

const MAX_PENDING: usize = 32;

fn ttl() -> Duration {
    Duration::from_secs(180)
}

fn start() -> Instant {
    Instant { nanos: 5_000_000_000 }
}

fn after(secs: u64) -> Instant {
    start().checked_add(Duration::from_secs(secs)).unwrap()
}

fn at() -> Timestamp {
    Timestamp::at(1_780_000_000, 0).unwrap()
}

/// Gives one scripted result per call and records every request.
struct MockDeliver {
    results: RefCell<VecDeque<Result<Vec<u64>, String>>>,
    requests: RefCell<Vec<ReplyRequest>>,
}

impl MockDeliver {
    fn scripted(results: Vec<Result<Vec<u64>, String>>) -> Self {
        Self {
            results: RefCell::new(results.into()),
            requests: RefCell::new(Vec::new()),
        }
    }

    fn ok() -> Self {
        Self::scripted(vec![Ok(vec![1001])])
    }

    fn requests(&self) -> Vec<ReplyRequest> {
        self.requests.borrow().clone()
    }
}

impl DeliverReply for MockDeliver {
    fn deliver(&self, request: &ReplyRequest) -> Result<Vec<u64>, DeliverError> {
        self.requests.borrow_mut().push(request.clone());
        self.results
            .borrow_mut()
            .pop_front()
            .unwrap_or(Ok(vec![9999]))
            .map_err(DeliverError::total)
    }
}

fn reason() -> RejectReason {
    RejectReason {
        matches: vec![ReasonEntry {
            pattern: "straightforward".into(),
            reason: Some("nothing ever is".into()),
        }],
    }
}

fn request(content: &str) -> ReplyRequest {
    ReplyRequest {
        channel_id: 42,
        content: content.into(),
        pending_diary_records: Vec::new(),
        fence_context: None,
        reply_to_message_id: Some(7),
        suppress_ping: true,
    }
}

fn judge() -> Contradictionary {
    Contradictionary::new(vec![Entry {
        pattern: "straightforward".into(),
        action: Action::Block,
        match_mode: MatchMode::Word,
        reason: Some("nothing ever is".into()),
    }])
}

fn diary(kind: DiaryKind, pattern: &str, content: &str) -> DiaryRecord {
    DiaryRecord {
        kind,
        pattern: pattern.into(),
        content: content.into(),
    }
}

/// A gate with everything that it has journaled so far.
struct Journaled {
    gate: ConsentGate,
    records: Vec<BounceRecord>,
}

impl Journaled {
    fn new() -> Self {
        Self {
            gate: ConsentGate::new(),
            records: Vec::new(),
        }
    }

    fn bounces(&mut self) -> &Vec<BounceRecord> {
        self.records.append(&mut self.gate.take_records());
        &self.records
    }
}

#[test]
fn release_sends_byte_identical_and_journals() {
    let mut g = Journaled::new();
    let deliver = MockDeliver::ok();
    let original = request("a straightforward plan");
    let ticket = g
        .gate
        .bounce(original.clone(), reason(), ttl(), MAX_PENDING, start(), at());
    assert_eq!(ticket.expires_in, ttl());
    assert_eq!(ticket.parent, None);

    let released = g
        .gate
        .release(&deliver, &ticket.handle, after(2), at())
        .expect("release must succeed");
    assert_eq!(released.message_ids, vec![1001]);
    assert_eq!(released.latency_ms, 2000);
    assert_eq!(
        deliver.requests(),
        vec![original],
        "release must send the exact held request — content, addressing, and all"
    );

    let bounces = g.bounces();
    assert_eq!(bounces.len(), 1);
    assert_eq!(bounces[0].outcome, Outcome::Released);
    assert_eq!(bounces[0].handle, ticket.handle);
    assert_eq!(bounces[0].message, "a straightforward plan");
    assert_eq!(bounces[0].latency_ms, 2000);
    assert_eq!(bounces[0].replacement, None);
}

#[test]
fn released_handle_is_dead() {
    let mut g = Journaled::new();
    let deliver = MockDeliver::scripted(vec![Ok(vec![1]), Ok(vec![2])]);
    let ticket = g
        .gate
        .bounce(request("msg"), reason(), ttl(), MAX_PENDING, start(), at());

    g.gate
        .release(&deliver, &ticket.handle, start(), at())
        .unwrap();
    match g.gate.release(&deliver, &ticket.handle, start(), at()) {
        Err(RejectedHandle::Unknown(_)) => {}
        other => panic!("second release must see a dead handle, got {other:?}"),
    }
    assert_eq!(deliver.requests().len(), 1, "no replay: one send, ever");
}

#[test]
fn expired_handle_cannot_release_and_is_journaled() {
    let mut g = Journaled::new();
    let deliver = MockDeliver::ok();
    let ticket = g
        .gate
        .bounce(request("msg"), reason(), ttl(), MAX_PENDING, start(), at());

    match g.gate.release(&deliver, &ticket.handle, after(181), at()) {
        Err(RejectedHandle::Expired { handle, .. }) => {
            assert_eq!(handle, ticket.handle);
        }
        other => panic!("expected Expired, got {other:?}"),
    }
    assert!(
        deliver.requests().is_empty(),
        "nothing may send past expiry"
    );

    let bounces = g.bounces();
    assert_eq!(bounces.len(), 1);
    assert_eq!(bounces[0].outcome, Outcome::Expired);
}

#[test]
fn failed_send_leaves_handle_live_for_retry() {
    let mut g = Journaled::new();
    let deliver = MockDeliver::scripted(vec![Err("discord hiccup".into()), Ok(vec![1002])]);
    let ticket = g
        .gate
        .bounce(request("msg"), reason(), ttl(), MAX_PENDING, start(), at());

    match g.gate.release(&deliver, &ticket.handle, start(), at()) {
        Err(RejectedHandle::SendFailed { error, .. }) => {
            assert_eq!(error, "discord hiccup");
        }
        other => panic!("expected SendFailed, got {other:?}"),
    }
    assert!(
        g.bounces().is_empty(),
        "a failed send is not an outcome — the bounce is still open"
    );

    let released = g
        .gate
        .release(&deliver, &ticket.handle, after(5), at())
        .expect("retry within the TTL must work");
    assert_eq!(released.message_ids, vec![1002]);

    let bounces = g.bounces();
    assert_eq!(bounces.len(), 1, "exactly one outcome per bounce");
    assert_eq!(bounces[0].outcome, Outcome::Released);
}

#[test]
fn failed_rephrase_delivery_retry_sends_replacement_not_original() {
    let mut g = Journaled::new();
    let deliver = MockDeliver::scripted(vec![Err("discord hiccup".into()), Ok(vec![1003])]);
    let ticket = g.gate.bounce(
        request("a straightforward plan"),
        reason(),
        ttl(),
        MAX_PENDING,
        start(),
        at(),
    );

    match g.gate.rephrase(
        &deliver,
        &judge(),
        &ticket.handle,
        "a solid plan",
        ttl(),
        start(),
        at(),
    ) {
        Err(RejectedHandle::SendFailed { handle, .. }) => assert_eq!(handle, ticket.handle),
        other => panic!("expected SendFailed, got {other:?}"),
    }

    let released = g
        .gate
        .release(&deliver, &ticket.handle, after(5), at())
        .expect("retry within the TTL must work");
    assert_eq!(released.message_ids, vec![1003]);

    let sent = deliver.requests();
    assert_eq!(sent.len(), 2, "the failed attempt and the retry");
    assert_eq!(
        sent[1].content, "a solid plan",
        "consent went to the replacement — the retry must never revert to the original"
    );

    let bounces = g.bounces();
    assert_eq!(bounces.len(), 1);
    assert_eq!(bounces[0].outcome, Outcome::Rephrased);
    assert_eq!(
        bounces[0].message, "a straightforward plan",
        "the original bounced text must survive into the journal"
    );
    assert_eq!(
        bounces[0].replacement.as_deref(),
        Some("a solid plan"),
        "the journal records the replacement that actually went out"
    );
}

#[test]
fn failed_rephrase_delivery_second_rephrase_operates_on_replacement() {
    let mut g = Journaled::new();
    let deliver = MockDeliver::scripted(vec![Err("discord hiccup".into()), Ok(vec![1004])]);
    let ticket = g.gate.bounce(
        request("a straightforward plan"),
        reason(),
        ttl(),
        MAX_PENDING,
        start(),
        at(),
    );

    g.gate
        .rephrase(
            &deliver,
            &judge(),
            &ticket.handle,
            "a solid plan",
            ttl(),
            start(),
            at(),
        )
        .expect_err("first delivery is scripted to fail");

    let result = g
        .gate
        .rephrase(
            &deliver,
            &judge(),
            &ticket.handle,
            "a revised plan",
            ttl(),
            start(),
            at(),
        )
        .expect("second rephrase must succeed");
    assert!(matches!(result, Rephrased::Sent { .. }));
    assert_eq!(deliver.requests().last().unwrap().content, "a revised plan");

    let bounces = g.bounces();
    assert_eq!(bounces.len(), 1);
    assert_eq!(bounces[0].outcome, Outcome::Rephrased);
    assert_eq!(
        bounces[0].message, "a straightforward plan",
        "the true original survives across chained rephrase attempts, not the intermediate"
    );
    assert_eq!(bounces[0].replacement.as_deref(), Some("a revised plan"));
}

#[test]
fn rephrase_clean_sends_replacement_and_journals_triple() {
    let mut g = Journaled::new();
    let deliver = MockDeliver::ok();
    let original = request("a straightforward plan");
    let ticket = g
        .gate
        .bounce(original.clone(), reason(), ttl(), MAX_PENDING, start(), at());

    let result = g
        .gate
        .rephrase(
            &deliver,
            &judge(),
            &ticket.handle,
            "a solid plan",
            ttl(),
            after(3),
            at(),
        )
        .expect("clean rephrase must succeed");
    assert!(matches!(result, Rephrased::Sent { .. }));

    let sent = deliver.requests();
    assert_eq!(sent.len(), 1);
    assert_eq!(sent[0].content, "a solid plan");
    assert_eq!(
        sent[0].channel_id, original.channel_id,
        "rephrase replaces content, not addressing"
    );
    assert_eq!(sent[0].reply_to_message_id, original.reply_to_message_id);
    assert_eq!(sent[0].suppress_ping, original.suppress_ping);

    let bounces = g.bounces();
    assert_eq!(bounces.len(), 1);
    assert_eq!(bounces[0].outcome, Outcome::Rephrased);
    assert_eq!(bounces[0].message, "a straightforward plan");
    assert_eq!(bounces[0].replacement.as_deref(), Some("a solid plan"));
    assert_eq!(bounces[0].reason, reason());
    assert_eq!(bounces[0].latency_ms, 3000);
}

#[test]
fn rephrase_rebounce_chains_new_handle_and_kills_old() {
    let mut g = Journaled::new();
    let deliver = MockDeliver::ok();
    let ticket = g.gate.bounce(
        request("a straightforward plan"),
        reason(),
        ttl(),
        MAX_PENDING,
        start(),
        at(),
    );

    let result = g
        .gate
        .rephrase(
            &deliver,
            &judge(),
            &ticket.handle,
            "still a straightforward plan",
            ttl(),
            start(),
            at(),
        )
        .expect("re-bounce is a success shape, not an error");
    let new_ticket = match result {
        Rephrased::ReBounced(t) => t,
        other => panic!("expected ReBounced, got {other:?}"),
    };
    assert_ne!(new_ticket.handle, ticket.handle);
    assert_eq!(new_ticket.parent, Some(ticket.handle.clone()));
    assert!(deliver.requests().is_empty(), "nothing sent on re-bounce");

    match g.gate.release(&deliver, &ticket.handle, start(), at()) {
        Err(RejectedHandle::Unknown(_)) => {}
        other => panic!("old handle must be dead after rephrase, got {other:?}"),
    }

    let released = g
        .gate
        .release(&deliver, &new_ticket.handle, after(1), at())
        .expect("chained handle releases the replacement text");
    assert_eq!(released.message_ids, vec![1001]);
    assert_eq!(
        deliver.requests().last().unwrap().content,
        "still a straightforward plan"
    );

    let bounces = g.bounces();
    assert_eq!(bounces.len(), 2);
    assert_eq!(bounces[0].outcome, Outcome::Rephrased);
    assert_eq!(bounces[1].outcome, Outcome::Released);
    assert_eq!(
        bounces[1].parent.as_ref(),
        Some(&ticket.handle),
        "chain link must survive into the journal"
    );
    let scan = JournalScan {
        records: std::mem::take(&mut g.records)
            .into_iter()
            .map(JournalRecord::Bounce)
            .collect(),
        malformed: vec![],
    };
    assert!(scan.is_tallyable());
    let stats = scan.stats(&StatsFilter::default());
    assert_eq!(stats.chained, 1);
    assert_eq!(stats.dangling_parents, 0);
}

#[test]
fn rephrase_with_always_clear_judge_sends() {
    let mut g = Journaled::new();
    let deliver = MockDeliver::ok();
    let ticket = g.gate.bounce(
        request("a straightforward plan"),
        reason(),
        ttl(),
        MAX_PENDING,
        start(),
        at(),
    );
    let result = g
        .gate
        .rephrase(
            &deliver,
            &AlwaysClear,
            &ticket.handle,
            "still a straightforward plan",
            ttl(),
            start(),
            at(),
        )
        .unwrap();
    assert!(
        matches!(result, Rephrased::Sent { .. }),
        "with no judge configured the replacement goes out"
    );
}

#[test]
fn bounce_at_capacity_evicts_entry_closest_to_expiry() {
    let mut g = Journaled::new();
    let deliver = MockDeliver::scripted(vec![Ok(vec![1]), Ok(vec![2])]);

    let soonest = g.gate.bounce(
        request("one"),
        reason(),
        Duration::from_secs(10),
        2,
        start(),
        at(),
    );
    let second = g
        .gate
        .bounce(request("two"), reason(), ttl(), 2, start(), at());
    let third = g
        .gate
        .bounce(request("three"), reason(), ttl(), 2, start(), at());
    assert_eq!(g.gate.pending(), 2, "capacity holds at max_pending");

    match g.gate.release(&deliver, &soonest.handle, start(), at()) {
        Err(RejectedHandle::Unknown(_)) => {}
        other => panic!("evicted handle must be dead, got {other:?}"),
    }
    g.gate
        .release(&deliver, &second.handle, start(), at())
        .expect("survivor releases");
    g.gate
        .release(&deliver, &third.handle, start(), at())
        .expect("the bounce that triggered eviction is held normally");

    let bounces = g.bounces();
    assert_eq!(bounces.len(), 3, "the eviction is journaled, not dropped");
    assert_eq!(bounces[0].outcome, Outcome::Expired);
    assert_eq!(bounces[0].message, "one");
    assert_eq!(bounces[0].handle, soonest.handle);
}

#[test]
fn bounce_treats_zero_max_pending_as_one() {
    let mut g = Journaled::new();
    g.gate
        .bounce(request("one"), reason(), ttl(), 0, start(), at());
    g.gate
        .bounce(request("two"), reason(), ttl(), 0, start(), at());
    assert_eq!(g.gate.pending(), 1, "a zero cap must not strand or loop");
}

#[test]
fn expire_due_journals_and_empties() {
    let mut g = Journaled::new();
    g.gate
        .bounce(request("one"), reason(), ttl(), MAX_PENDING, start(), at());
    g.gate
        .bounce(request("two"), reason(), ttl(), MAX_PENDING, start(), at());

    assert_eq!(g.gate.expire_due(after(60), at()), 0);
    assert_eq!(g.gate.pending(), 2);

    assert_eq!(g.gate.expire_due(after(181), at()), 2);
    assert_eq!(g.gate.pending(), 0);

    let bounces = g.bounces();
    assert_eq!(bounces.len(), 2);
    assert!(bounces.iter().all(|b| b.outcome == Outcome::Expired));
}

#[test]
fn drain_shutdown_journals_pending_as_expired() {
    let mut g = Journaled::new();
    g.gate.bounce(
        request("in flight"),
        reason(),
        ttl(),
        MAX_PENDING,
        start(),
        at(),
    );

    assert_eq!(g.gate.drain_shutdown(start(), at()), 1);
    assert_eq!(g.gate.pending(), 0);

    let bounces = g.bounces();
    assert_eq!(bounces.len(), 1);
    assert_eq!(bounces[0].outcome, Outcome::Expired);
    assert_eq!(bounces[0].message, "in flight");
}

#[test]
fn unknown_handle_is_rejected_without_journaling() {
    let mut g = Journaled::new();
    let deliver = MockDeliver::ok();
    let bogus = HoldHandle::new("nr-0000-1");
    match g.gate.release(&deliver, &bogus, start(), at()) {
        Err(RejectedHandle::Unknown(h)) => assert_eq!(h, bogus),
        other => panic!("expected Unknown, got {other:?}"),
    }
    assert!(g.bounces().is_empty());
}

/// Fails its first send after posting one chunk; the second send succeeds.
struct PartialThenOk {
    calls: Cell<u32>,
    requests: RefCell<Vec<ReplyRequest>>,
    diary_records: Option<Vec<DiaryRecord>>,
    fence_context: Option<FenceContext>,
}

fn same_records(records: &[DiaryRecord]) -> Vec<DiaryRecord> {
    records
        .iter()
        .map(|r| diary(r.kind, &r.pattern, &r.content))
        .collect()
}

impl PartialThenOk {
    fn new(diary_records: Option<Vec<DiaryRecord>>, fence_context: Option<FenceContext>) -> Self {
        Self {
            calls: Cell::new(0),
            requests: RefCell::new(Vec::new()),
            diary_records,
            fence_context,
        }
    }
}

impl DeliverReply for PartialThenOk {
    fn deliver(&self, request: &ReplyRequest) -> Result<Vec<u64>, DeliverError> {
        self.requests.borrow_mut().push(request.clone());
        self.calls.set(self.calls.get() + 1);
        if self.calls.get() == 1 {
            Err(DeliverError {
                message: "chunk 1 of 2 failed".into(),
                sent_ids: vec![100],
                undelivered: Some("the second half".into()),
                diary_records: match &self.diary_records {
                    Some(records) => same_records(records),
                    None => same_records(&request.pending_diary_records),
                },
                fence_context: self.fence_context.clone(),
            })
        } else {
            Ok(vec![101])
        }
    }
}

#[test]
fn partial_delivery_retry_resumes_from_the_remainder() {
    let mut g = Journaled::new();
    let deliver = PartialThenOk::new(None, None);
    let mut payload = request("the first half the second half");
    let all = || {
        vec![
            diary(DiaryKind::Log, "log", "the first half the second half"),
            diary(DiaryKind::Celebrate, "celebrate", "the first half the second half"),
            diary(DiaryKind::Override, "block", "the first half the second half"),
        ]
    };
    payload.pending_diary_records = all();
    let ticket = g
        .gate
        .bounce(payload, reason(), ttl(), MAX_PENDING, start(), at());

    match g.gate.release(&deliver, &ticket.handle, start(), at()) {
        Err(RejectedHandle::SendFailed { .. }) => {}
        other => panic!("expected SendFailed on partial delivery, got {other:?}"),
    }

    let released = g
        .gate
        .release(&deliver, &ticket.handle, after(1), at())
        .expect("retry resumes and completes");
    let sent = deliver.requests.borrow();
    assert_eq!(sent.len(), 2);
    assert_eq!(sent[0].content, "the first half the second half");
    assert_eq!(sent[0].pending_diary_records, all());
    assert_eq!(
        sent[1].content, "the second half",
        "the retry must resume from the remainder, not re-post the delivered chunk"
    );
    assert_eq!(sent[1].pending_diary_records, all());
    assert_eq!(
        released.message_ids,
        vec![100, 101],
        "the released IDs fold the earlier partial chunk with the resumed one"
    );

    let bounces = g.bounces();
    assert_eq!(bounces.len(), 1);
    assert_eq!(bounces[0].outcome, Outcome::Released);
    assert_eq!(
        bounces[0].message, "the first half the second half",
        "the journal records the full original message, not the trailing chunk"
    );
}

#[test]
fn an_open_fence_is_carried_to_the_retry() {
    let mut g = Journaled::new();
    let fence = FenceContext {
        opening: "```rust".into(),
    };
    let deliver = PartialThenOk::new(None, Some(fence.clone()));
    let ticket = g.gate.bounce(
        request("before the second half"),
        reason(),
        ttl(),
        MAX_PENDING,
        start(),
        at(),
    );
    assert!(matches!(
        g.gate.release(&deliver, &ticket.handle, start(), at()),
        Err(RejectedHandle::SendFailed { .. })
    ));
    g.gate
        .release(&deliver, &ticket.handle, after(1), at())
        .expect("continuation completes");
    let sent = deliver.requests.borrow();
    assert_eq!(sent[0].fence_context, None);
    assert_eq!(sent[1].fence_context, Some(fence));
}

#[test]
fn partial_rephrase_retry_preserves_send_diary_context() {
    let mut g = Journaled::new();
    let text = "the first half the second half";
    let expected = || {
        vec![
            diary(DiaryKind::Log, "log", text),
            diary(DiaryKind::Celebrate, "celebrate", text),
        ]
    };
    let deliver = PartialThenOk::new(Some(expected()), None);
    let ticket = g
        .gate
        .bounce(request(text), reason(), ttl(), MAX_PENDING, start(), at());

    match g.gate.rephrase(
        &deliver,
        &judge(),
        &ticket.handle,
        text,
        ttl(),
        start(),
        at(),
    ) {
        Err(RejectedHandle::SendFailed { .. }) => {}
        other => panic!("expected partial rephrase failure, got {other:?}"),
    }
    g.gate
        .rephrase(
            &deliver,
            &judge(),
            &ticket.handle,
            text,
            ttl(),
            after(1),
            at(),
        )
        .expect("retry completes");

    let requests = deliver.requests.borrow();
    assert_eq!(requests.len(), 2);
    assert_eq!(requests[0].pending_diary_records, Vec::new());
    assert_eq!(requests[1].pending_diary_records, expected());
}

#[test]
fn failed_rephrase_then_expire_journals_the_replacement_as_expired() {
    let mut g = Journaled::new();
    let deliver = MockDeliver::scripted(vec![Err("discord hiccup".into())]);
    let short = Duration::from_secs(100);
    let ticket = g.gate.bounce(
        request("a straightforward plan"),
        reason(),
        short,
        MAX_PENDING,
        start(),
        at(),
    );

    g.gate
        .rephrase(
            &deliver,
            &judge(),
            &ticket.handle,
            "a solid plan",
            short,
            start(),
            at(),
        )
        .expect_err("scripted to fail delivery");

    assert_eq!(g.gate.expire_due(after(101), at()), 1);

    let bounces = g.bounces();
    assert_eq!(bounces.len(), 1);
    assert_eq!(bounces[0].outcome, Outcome::Expired);
    assert_eq!(
        bounces[0].message, "a solid plan",
        "the abandoned held text is the consented replacement, not the original"
    );
}

#[test]
fn failed_rephrase_earns_a_fresh_decision_window() {
    let mut g = Journaled::new();
    let deliver = MockDeliver::scripted(vec![Err("discord hiccup".into()), Ok(vec![1])]);
    let short = Duration::from_secs(100);
    let ticket = g.gate.bounce(
        request("a straightforward plan"),
        reason(),
        short,
        MAX_PENDING,
        start(),
        at(),
    );

    g.gate
        .rephrase(
            &deliver,
            &judge(),
            &ticket.handle,
            "a solid plan",
            short,
            after(90),
            at(),
        )
        .expect_err("scripted to fail delivery");

    let released = g
        .gate
        .release(&deliver, &ticket.handle, after(150), at());
    assert!(
        released.is_ok(),
        "a judged-clear replacement that only failed to send must earn a fresh TTL, got {released:?}"
    );
}

#[test]
fn drain_shutdown_skips_an_in_flight_send_and_never_double_journals() {
    let mut g = Journaled::new();
    let in_flight = g.gate.bounce(
        request("in flight"),
        reason(),
        ttl(),
        MAX_PENDING,
        start(),
        at(),
    );
    g.gate.bounce(
        request("abandoned"),
        reason(),
        ttl(),
        MAX_PENDING,
        start(),
        at(),
    );

    let reservation = g.gate.begin(&in_flight.handle, start(), at()).unwrap();
    assert_eq!(
        g.gate.drain_shutdown(start(), at()),
        1,
        "drain skips the in-flight entry"
    );
    let released = g
        .gate
        .finish_release(reservation, Ok(vec![777]), start(), at());
    assert!(released.is_ok(), "the in-flight send completes and settles");

    let bounces = g.bounces();
    assert_eq!(
        bounces.len(),
        2,
        "exactly one outcome per bounce, no double-journal"
    );
    assert_eq!(
        bounces
            .iter()
            .filter(|b| b.outcome == Outcome::Released)
            .count(),
        1
    );
    assert_eq!(
        bounces
            .iter()
            .filter(|b| b.outcome == Outcome::Expired)
            .count(),
        1
    );
}

#[test]
fn concurrent_releases_on_one_handle_yield_exactly_one_send() {
    let mut g = Journaled::new();
    let ticket = g
        .gate
        .bounce(request("msg"), reason(), ttl(), MAX_PENDING, start(), at());
    let winner = g.gate.begin(&ticket.handle, start(), at()).unwrap();
    match g.gate.begin(&ticket.handle, start(), at()) {
        Err(RejectedHandle::Unknown(h)) => assert_eq!(h, ticket.handle),
        _ => panic!("the loser must see a dead handle"),
    }
    let released = g.gate.finish_release(winner, Ok(vec![1]), start(), at());
    assert_eq!(released.unwrap().message_ids, vec![1]);
    assert!(g.gate.begin(&ticket.handle, start(), at()).is_err());

    let bounces = g.bounces();
    assert_eq!(bounces.len(), 1, "exactly one outcome per bounce");
    assert_eq!(bounces[0].outcome, Outcome::Released);
}

#[test]
fn refusals_say_what_became_of_the_handle() {
    let handle = HoldHandle::new("nr-abcd-1");
    assert_eq!(
        RejectedHandle::Unknown(handle.clone()).to_string(),
        "unknown or already-used handle: nr-abcd-1"
    );
    assert_eq!(
        RejectedHandle::Expired {
            handle: handle.clone(),
            reason: reason(),
        }
        .to_string(),
        "handle nr-abcd-1 expired before action; the held message was journaled as expired"
    );
    assert_eq!(
        RejectedHandle::SendFailed {
            handle,
            error: "boom".into(),
            expires_in: Duration::from_millis(61_999),
        }
        .to_string(),
        "send failed: boom (handle nr-abcd-1 still live for 61s)"
    );
}

#[test]
fn records_are_handed_over_once() {
    let mut gate = ConsentGate::new();
    assert!(gate.take_records().is_empty());
    gate.bounce(request("one"), reason(), ttl(), MAX_PENDING, start(), at());
    assert!(gate.take_records().is_empty(), "a held message has no record yet");
    assert_eq!(gate.drain_shutdown(start(), at()), 1);
    let first = gate.take_records();
    assert_eq!(first.len(), 1);
    assert_eq!(first[0].message, "one");
    assert!(gate.take_records().is_empty());
    gate.bounce(request("two"), reason(), ttl(), MAX_PENDING, start(), at());
    assert_eq!(gate.drain_shutdown(start(), at()), 1);
    let second = gate.take_records();
    assert_eq!(second.len(), 1);
    assert_eq!(second[0].message, "two");
}

/// Answers each send as scripted, the failures with what was posted and what is left.
struct Scripted {
    answers: RefCell<VecDeque<Result<Vec<u64>, (Vec<u64>, Option<String>)>>>,
    contents: RefCell<Vec<String>>,
}

impl Scripted {
    fn new(answers: Vec<Result<Vec<u64>, (Vec<u64>, Option<String>)>>) -> Self {
        Self {
            answers: RefCell::new(answers.into()),
            contents: RefCell::new(Vec::new()),
        }
    }
}

impl DeliverReply for Scripted {
    fn deliver(&self, request: &ReplyRequest) -> Result<Vec<u64>, DeliverError> {
        self.contents.borrow_mut().push(request.content.clone());
        match self.answers.borrow_mut().pop_front().unwrap() {
            Ok(ids) => Ok(ids),
            Err((sent_ids, undelivered)) => Err(DeliverError {
                message: "discord hiccup".into(),
                sent_ids,
                undelivered,
                diary_records: same_records(&request.pending_diary_records),
                fence_context: None,
            }),
        }
    }
}

/// A message of two chunks, the second of which was not posted, and a replacement for
/// it that was not posted either.
fn half_sent_and_replaced(g: &mut Journaled, deliver: &Scripted) -> HoldHandle {
    let ticket = g
        .gate
        .bounce(request("AB"), reason(), ttl(), MAX_PENDING, start(), at());
    assert!(matches!(
        g.gate.release(deliver, &ticket.handle, start(), at()),
        Err(RejectedHandle::SendFailed { .. })
    ));
    assert!(matches!(
        g.gate.rephrase(deliver, &AlwaysClear, &ticket.handle, "C", ttl(), after(1), at()),
        Err(RejectedHandle::SendFailed { .. })
    ));
    ticket.handle
}

#[test]
fn first_text_outlives_a_failed_replacement() {
    let mut g = Journaled::new();
    let deliver = Scripted::new(vec![
        Err((vec![100], Some("B".into()))),
        Err((vec![], None)),
        Ok(vec![101]),
    ]);
    let handle = half_sent_and_replaced(&mut g, &deliver);
    match g.gate.rephrase(&deliver, &AlwaysClear, &handle, "D", ttl(), after(2), at()) {
        Ok(Rephrased::Sent { message_ids }) => assert_eq!(message_ids, vec![100, 101]),
        other => panic!("expected the replacement to be sent, got {other:?}"),
    }
    assert_eq!(*deliver.contents.borrow(), ["AB", "C", "D"]);
    let bounces = g.bounces();
    assert_eq!(bounces.len(), 1);
    assert_eq!(bounces[0].outcome, Outcome::Rephrased);
    assert_eq!(bounces[0].message, "AB");
    assert_eq!(bounces[0].replacement.as_deref(), Some("D"));
}

#[test]
fn released_replacement_keeps_the_first_text() {
    let mut g = Journaled::new();
    let deliver = Scripted::new(vec![
        Err((vec![100], Some("B".into()))),
        Err((vec![], None)),
        Ok(vec![101]),
    ]);
    let handle = half_sent_and_replaced(&mut g, &deliver);
    let released = g.gate.release(&deliver, &handle, after(2), at()).unwrap();
    assert_eq!(released.message_ids, vec![100, 101]);
    assert_eq!(deliver.contents.borrow().last().unwrap(), "C");
    let bounces = g.bounces();
    assert_eq!(bounces.len(), 1);
    assert_eq!(bounces[0].message, "AB");
    assert_eq!(bounces[0].replacement.as_deref(), Some("C"));
}

#[test]
fn abandoned_replacement_is_what_expires() {
    let mut g = Journaled::new();
    let deliver = Scripted::new(vec![
        Err((vec![100], Some("B".into()))),
        Err((vec![], None)),
    ]);
    half_sent_and_replaced(&mut g, &deliver);
    assert_eq!(g.gate.expire_due(after(1000), at()), 1);
    let bounces = g.bounces();
    assert_eq!(bounces.len(), 1);
    assert_eq!(bounces[0].outcome, Outcome::Expired);
    assert_eq!(bounces[0].message, "C");
}

#[test]
fn half_sent_replacement_is_recorded_whole() {
    let half_sent_twice = |g: &mut Journaled, deliver: &Scripted| {
        let ticket = g
            .gate
            .bounce(request("AB"), reason(), ttl(), MAX_PENDING, start(), at());
        assert!(g.gate.release(deliver, &ticket.handle, start(), at()).is_err());
        assert!(g
            .gate
            .rephrase(deliver, &AlwaysClear, &ticket.handle, "CD", ttl(), after(1), at())
            .is_err());
        ticket.handle
    };
    let failures = || {
        vec![
            Err((vec![100], Some("B".to_owned()))),
            Err((vec![101], Some("D".to_owned()))),
        ]
    };

    let mut g = Journaled::new();
    let mut answers = failures();
    answers.push(Ok(vec![102]));
    let deliver = Scripted::new(answers);
    let handle = half_sent_twice(&mut g, &deliver);
    let released = g.gate.release(&deliver, &handle, after(2), at()).unwrap();
    assert_eq!(released.message_ids, vec![100, 101, 102]);
    assert_eq!(*deliver.contents.borrow(), ["AB", "CD", "D"]);
    let bounces = g.bounces();
    assert_eq!(bounces.len(), 1);
    assert_eq!(bounces[0].message, "AB");
    assert_eq!(bounces[0].replacement.as_deref(), Some("CD"));

    let mut g = Journaled::new();
    let deliver = Scripted::new(failures());
    half_sent_twice(&mut g, &deliver);
    assert_eq!(g.gate.expire_due(after(1000), at()), 1);
    assert_eq!(g.bounces()[0].message, "CD");
}
