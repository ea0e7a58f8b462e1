use std::cell::{Cell, RefCell};
use std::rc::Rc;

use dione::clock::{Duration, Instant, Timestamp};
use dione::contradictionary::{Action, Contradictionary, DiaryKind, Entry, MatchMode};
use dione::gate::OutboundGate;
use dione::json::Json;
use dione::mcp::tools::messaging::{
    append_markers, build_fetch_response, build_pins_response, bounce_json,
    check_attached_evidence, check_attachment_size, check_dm_policy, check_outbound,
    check_replacement, check_send_file, dm_answer, get_message_json, inbox_name, message_json,
    new_since_response, parse_reaction_type, reason_json, reject_captionless_hook_overrides,
    release_json, rephrase_json, reply_target_alert, resolve_pagination, route_dm, saved_json,
    validate_evidence_chunking, verify_message_target, AttachmentInfo, BotDisplayName,
    Delivery, DeliverySettings, DmStep, EvidenceKeys, HookRun, MessageInfo, MessagePagination,
    OutboundDraft, OutboundSetting, OutboundStep, OutboundSurface, PreparedOutbound,
    ReactionType, ReplyStep, ReplyToMode, VerifyResult, CONTRADICTIONARY_CELEBRATE_REACT,
};
use dione::no_rly::consent::{
    BounceTicket, ConsentGate, RejectedHandle, Released, Rephrased, ReplyRequest,
};
use dione::no_rly::judge::{ReasonEntry, RejectReason};
use dione::no_rly::queue::HoldHandle;
use dione::oneshot::ChunkMode;
use dione::pre_send::{
    Assessment, AuditSink, AuditTrail, ChannelType, ConstructFeedback, ConstructId, HookContext,
    HookDecision, HookName, HookOutput, NullAuditSink, NullFeedbackSink, OutboundDestination,
    PipelineMode, PreSendHook, PreSendPipeline, SinkFailurePolicy, SinkReply,
};
use dione::principal_policy::DmPolicy;

fn at() -> Timestamp {
    Timestamp::at(1_780_000_000, 0).unwrap()
}

fn now() -> Instant {
    Instant { nanos: 0 }
}

fn text<'a>(j: &'a Json, name: &str) -> &'a str {
    j.get(name).and_then(|v| v.as_str()).unwrap_or("")
}

fn list<'a>(j: &'a Json, name: &str) -> &'a Vec<Json> {
    j.get(name).and_then(|v| v.as_array()).unwrap()
}

fn keys_of(j: &Json) -> Vec<&str> {
    let Json::Object(fields) = j else {
        panic!("expected an object");
    };
    let mut keys: Vec<&str> = fields.iter().map(|(name, _)| name.as_str()).collect();
    keys.sort_unstable();
    keys
}

#[test]
fn outbound_surface_strings_are_canonical() {
    assert_eq!(OutboundSurface::Reply.as_str(), "reply");
    assert_eq!(OutboundSurface::EditMessage.as_str(), "edit-message");
    assert_eq!(
        OutboundSurface::SendFileCaption.as_str(),
        "send-file-caption"
    );
    assert_eq!(
        OutboundSurface::RenderLatexCaption.as_str(),
        "render-latex-caption"
    );
    assert_eq!(OutboundSurface::SendDm.as_str(), "send-dm");
    assert_eq!(OutboundSurface::VoiceBeforeTts.as_str(), "voice-before-tts");
}

fn bounce_reason() -> RejectReason {
    RejectReason {
        matches: vec![ReasonEntry {
            pattern: "straightforward".into(),
            reason: Some("nothing is ever straightforward".into()),
        }],
    }
}

fn ticket(handle: &str, parent: Option<&str>) -> BounceTicket {
    BounceTicket {
        handle: HoldHandle::new(handle),
        reason: bounce_reason(),
        expires_in: Duration::from_secs(180),
        parent: parent.map(HoldHandle::new),
    }
}

fn string(s: &str) -> Json {
    Json::Text(s.into())
}

fn object(fields: Vec<(&str, Json)>) -> Json {
    Json::Object(
        fields
            .into_iter()
            .map(|(name, value)| (name.to_string(), value))
            .collect(),
    )
}

const NEXT: &str = "no_rly(handle) sends it verbatim; rephrase(handle, content) sends a replacement (re-checked); ignoring it lets it expire";

#[test]
fn bounce_json_wire_shape_plain() {
    let reason = object(vec![(
        "matches",
        Json::Array(vec![object(vec![
            ("pattern", string("straightforward")),
            ("reason", string("nothing is ever straightforward")),
        ])]),
    )]);
    assert_eq!(
        bounce_json(&ticket("nr-3f92-7", None)),
        object(vec![
            (
                "error",
                string("\u{26a0}\u{fe0f} held by contradictionary: straightforward (nothing is ever straightforward)"),
            ),
            (
                "held",
                object(vec![
                    ("handle", string("nr-3f92-7")),
                    ("reason", reason),
                    ("expires_in_secs", Json::Unsigned(180)),
                    ("next", string(NEXT)),
                ]),
            ),
        ])
    );
}

#[test]
fn bounce_json_wire_shape_chained() {
    let mut chained = ticket("nr-3f92-8", Some("nr-3f92-7"));
    chained.reason = RejectReason {
        matches: vec![ReasonEntry {
            pattern: "trivial".into(),
            reason: Some("nothing worth building is trivial".into()),
        }],
    };
    let reason = object(vec![(
        "matches",
        Json::Array(vec![object(vec![
            ("pattern", string("trivial")),
            ("reason", string("nothing worth building is trivial")),
        ])]),
    )]);
    assert_eq!(
        bounce_json(&chained),
        object(vec![
            (
                "error",
                string("\u{26a0}\u{fe0f} held by contradictionary: trivial (nothing worth building is trivial)"),
            ),
            (
                "held",
                object(vec![
                    ("handle", string("nr-3f92-8")),
                    ("reason", reason),
                    ("expires_in_secs", Json::Unsigned(180)),
                    ("next", string(NEXT)),
                    ("chained_from", string("nr-3f92-7")),
                ]),
            ),
        ])
    );
}

#[test]
fn bounce_reason_matches_journal_reason_shape() {
    let held = bounce_json(&ticket("nr-3f92-7", None));
    let reason = held.get("held").unwrap().get("reason").unwrap();
    assert_eq!(reason, &reason_json(&bounce_reason()));
    let first = &list(reason, "matches")[0];
    assert_eq!(text(first, "pattern"), "straightforward");
}

// ── Hooks ───────────────────────────────────────────────────────────────────

type Looks = Box<dyn Fn(&HookContext) -> HookDecision>;

struct TestHook {
    name: &'static str,
    looks: Looks,
}

impl PreSendHook for TestHook {
    fn name(&self) -> HookName {
        HookName::parse(self.name).unwrap()
    }

    fn execute(&self, context: &HookContext) -> Option<HookOutput> {
        Some(HookOutput::new(
            (self.looks)(context),
            ConstructFeedback::default(),
            AuditTrail::new(vec![Assessment::new("receipt", 1.0f32.to_bits(), "seen")]),
        ))
    }
}

/// Notes what it is told.
struct NotingAudit(Rc<RefCell<Vec<String>>>);

impl AuditSink for NotingAudit {
    fn record(&self, _trail: &AuditTrail, context: &HookContext) -> SinkReply {
        self.0.borrow_mut().push(format!(
            "{}|{}|{}",
            context.text(),
            context.metadata("evidence_locators").unwrap_or(""),
            context.metadata("evidence_transport").unwrap_or(""),
        ));
        SinkReply::Recorded
    }
}

type Quiet = PreSendPipeline<TestHook, NullFeedbackSink, NullAuditSink>;

fn enforcing(name: &'static str, looks: impl Fn(&HookContext) -> HookDecision + 'static) -> Quiet {
    PreSendPipeline::new(vec![TestHook {
        name,
        looks: Box::new(looks),
    }])
    .unwrap_or_else(|e| panic!("{}", e.to_string()))
    .with_mode(PipelineMode::Enforce)
}

fn setting(channels: Vec<u64>, evidence_markers_enabled: bool) -> OutboundSetting {
    OutboundSetting {
        gate: OutboundGate::configured(channels),
        evidence_markers_enabled,
        construct_id: ConstructId::default(),
        author_id: None,
    }
}

fn draft<'a>(
    destination: OutboundDestination,
    text: &'a str,
    surface: OutboundSurface,
    bypasses: &'a Vec<HookName>,
    evidence_keys: &'a EvidenceKeys,
) -> OutboundDraft<'a> {
    OutboundDraft {
        destination,
        text,
        reply_to: None,
        surface,
        bypasses,
        evidence_keys,
    }
}

fn prepare<F: dione::pre_send::FeedbackSink, A: AuditSink>(
    setting: &OutboundSetting,
    pipeline: Option<&PreSendPipeline<TestHook, F, A>>,
    draft: &OutboundDraft<'_>,
) -> Result<PreparedOutbound, Json> {
    match setting.prepare_outbound(pipeline, draft)? {
        OutboundStep::Ready(prepared) => Ok(prepared),
        OutboundStep::RunHooks { context, no_rly } => {
            let run = HookRun::Ended(pipeline.unwrap().run(&context, &no_rly));
            setting.finish_outbound(draft, run)
        }
    }
}

fn error_of<T>(r: Result<T, Json>) -> String {
    match r {
        Ok(_) => panic!("expected an error"),
        Err(e) => text(&e, "error").to_owned(),
    }
}

fn evidence() -> EvidenceKeys {
    EvidenceKeys {
        locators: vec!["v1:AAAAAAAAACI".into(), "v1:AAAAAAAAAAw".into()],
    }
}

const CHANNEL: OutboundDestination = OutboundDestination::Channel(42);

#[test]
fn ordered_evidence_metadata_and_transport_reach_hooks_and_final_audit_context() {
    let seen = Rc::new(RefCell::new(Vec::new()));
    let audited = Rc::new(RefCell::new(Vec::new()));
    let notes = Rc::clone(&seen);
    let pipeline = enforcing("metadata-rewrite", move |context| {
        notes.borrow_mut().push(format!(
            "{}|{}|{}",
            context.text(),
            context.metadata("evidence_locators").unwrap_or(""),
            context.metadata("evidence_transport").unwrap_or(""),
        ));
        HookDecision::Rewrite {
            text: "rewritten".into(),
        }
    })
    .with_sinks(
        NullFeedbackSink,
        NotingAudit(Rc::clone(&audited)),
        SinkFailurePolicy::FailClosed,
    );
    let keys = evidence();
    let none = vec![];
    let prepared = prepare(
        &setting(vec![42], true),
        Some(&pipeline),
        &draft(CHANNEL, "original", OutboundSurface::Reply, &none, &keys),
    )
    .unwrap_or_else(|e| panic!("{e:?}"));
    assert_eq!(
        *seen.borrow(),
        vec!["original|v1:AAAAAAAAACI,v1:AAAAAAAAAAw|terminal-visible-suffix-v1-after-hooks"]
    );
    assert_eq!(
        *audited.borrow(),
        vec!["rewritten|v1:AAAAAAAAACI,v1:AAAAAAAAAAw|terminal-visible-suffix-v1-after-hooks"]
    );
    assert_eq!(
        prepared.text,
        "rewritten [🔍=v1:AAAAAAAAACI] [🔍=v1:AAAAAAAAAAw]"
    );
}

#[test]
fn markers_follow_the_text_in_order() {
    assert_eq!(
        append_markers("grounded", &evidence()),
        "grounded [🔍=v1:AAAAAAAAACI] [🔍=v1:AAAAAAAAAAw]"
    );
    assert_eq!(append_markers("plain", &EvidenceKeys::empty()), "plain");
}

fn blocking() -> Contradictionary {
    Contradictionary::new(vec![Entry {
        pattern: "straightforward".into(),
        action: Action::Block,
        match_mode: MatchMode::Word,
        reason: Some("nothing is ever straightforward".into()),
    }])
}

fn delivery_settings(contradictionary: Option<Contradictionary>) -> DeliverySettings {
    DeliverySettings {
        text_chunk_limit: 0,
        chunk_mode: ChunkMode::Paragraph,
        reply_to_mode: ReplyToMode::First,
        evidence_markers_enabled: true,
        contradictionary,
        hold_ttl: Duration::from_secs(180),
        max_pending: 32,
    }
}

fn prepared(text: &str) -> PreparedOutbound {
    PreparedOutbound {
        destination: CHANNEL,
        text: text.into(),
        reply_to: None,
        surface: OutboundSurface::Reply,
    }
}

fn reply(
    gate: &mut ConsentGate,
    settings: &DeliverySettings,
    content: &str,
    found: Vec<String>,
    chunks: usize,
) -> ReplyStep {
    settings.deliver_prepared_reply(gate, prepared(content), false, &found, chunks, now(), at())
}

fn answer(step: ReplyStep) -> Json {
    match step {
        ReplyStep::Answer(j) => j,
        ReplyStep::Held { answer, .. } => answer,
        ReplyStep::Deliver(_) => panic!("expected an answer"),
    }
}

#[test]
fn evidence_bearing_multi_chunk_reply_fails_before_discord_delivery() {
    let mut gate = ConsentGate::new();
    let step = reply(
        &mut gate,
        &delivery_settings(None),
        "long enough to split",
        vec!["v1:AAAAAAAAAAw".into()],
        3,
    );
    assert_eq!(
        text(&answer(step), "error"),
        "evidence-bearing messages must fit in one Discord message"
    );
}

#[test]
fn disabled_outbound_evidence_is_a_text_no_op() {
    let keys = evidence();
    let none = vec![];
    let prepared = prepare::<NullFeedbackSink, NullAuditSink>(
        &setting(vec![42], false),
        None,
        &draft(CHANNEL, "byte exact", OutboundSurface::Reply, &none, &keys),
    )
    .unwrap_or_else(|e| panic!("{e:?}"));
    assert_eq!(prepared.text, "byte exact");
}

#[test]
fn evidence_bearing_reply_cannot_enter_held_lifecycle() {
    let mut gate = ConsentGate::new();
    let step = reply(
        &mut gate,
        &delivery_settings(Some(blocking())),
        "straightforward [🔍=v1:AAAAAAAAAAw]",
        vec!["v1:AAAAAAAAAAw".into()],
        1,
    );
    assert_eq!(
        text(&answer(step), "error"),
        "evidence-bearing messages cannot enter the no_rly hold lifecycle; revise and send a fresh evidence-bearing reply"
    );
    assert_eq!(gate.pending(), 0);
}

#[test]
fn evidence_bearing_rephrase_is_refused_without_consuming_handle() {
    let mut gate = ConsentGate::new();
    let step = reply(
        &mut gate,
        &delivery_settings(Some(blocking())),
        "straightforward",
        vec![],
        1,
    );
    let ReplyStep::Held { answer, note } = step else {
        panic!("expected the message to be held");
    };
    assert!(!text(answer.get("held").unwrap(), "handle").is_empty());
    assert_eq!(note.kind, DiaryKind::Held);
    assert_eq!(gate.pending(), 1);

    let refusal = check_replacement(
        "grounded [🔍=v1:AAAAAAAAAAw]",
        true,
        &vec!["v1:AAAAAAAAAAw".into()],
    );
    assert_eq!(
        error_of(refusal),
        "evidence-bearing replacements are not supported by rephrase; send a fresh evidence-bearing reply"
    );
    assert_eq!(gate.pending(), 1);
}

#[test]
fn evidence_that_did_not_survive_the_hooks_is_an_error() {
    let keys = evidence();
    assert!(check_attached_evidence(true, &keys, &keys.locators).is_ok());
    assert!(check_attached_evidence(true, &keys, &vec![]).is_err());
    assert!(check_attached_evidence(false, &keys, &vec![]).is_ok());
    assert!(validate_evidence_chunking(true, &vec![], 5).is_ok());
    assert!(validate_evidence_chunking(true, &keys.locators, 1).is_ok());
    assert!(validate_evidence_chunking(true, &keys.locators, 2).is_err());
}

#[test]
fn first_contact_dm_branch_preserves_ordered_evidence_receipt() {
    let keys = evidence();
    let none = vec![];
    let prepared = prepare::<NullFeedbackSink, NullAuditSink>(
        &setting(vec![], true),
        None,
        &draft(
            OutboundDestination::DmRecipient(77),
            "grounded",
            OutboundSurface::SendDm,
            &none,
            &keys,
        ),
    )
    .unwrap_or_else(|e| panic!("{e:?}"));
    assert_eq!(
        prepared.text,
        "grounded [🔍=v1:AAAAAAAAACI] [🔍=v1:AAAAAAAAAAw]"
    );
    let DmStep::OpenChannel(open) = route_dm(true, &keys, prepared, &keys.locators, 1) else {
        panic!("the first contact must open the channel");
    };
    let resolved = open.resolve_dm_channel(4242);
    assert_eq!(resolved.channel_id(), Some(4242));

    let delivered =
        dione::mcp::tools::messaging::delivered_json(&vec![9001], true, &keys.locators);
    let result = dm_answer(delivered, 4242);
    assert_eq!(result.get("ok"), Some(&Json::Bool(true)));
    assert_eq!(text(&result, "channel_id"), "4242");
    assert_eq!(list(&result, "message_ids"), &vec![Json::Unsigned(9001)]);
    assert_eq!(
        list(&result, "evidence_locators"),
        &vec![
            Json::Text("v1:AAAAAAAAACI".into()),
            Json::Text("v1:AAAAAAAAAAw".into())
        ]
    );
}

fn message(id: u64, content: &str, evidence: Option<Json>) -> MessageInfo {
    MessageInfo {
        id,
        author: "miranda".into(),
        author_id: 210987654321098765,
        content: content.into(),
        timestamp: "2026-06-09T12:00:00+00:00".into(),
        attachments: vec![],
        evidence,
    }
}

#[test]
fn get_message_and_fetch_share_evidence_projection() {
    let m = message(
        3001,
        "grounded [🔍=v1:AAAAAAAAAAw]",
        Some(Json::Array(vec![Json::Text("v1:AAAAAAAAAAw".into())])),
    );
    let fetched = message_json(true, &m);
    let single = get_message_json(true, &m);
    assert_eq!(single.get("content"), fetched.get("content"));
    assert_eq!(single.get("evidence"), fetched.get("evidence"));
    assert!(single.get("evidence").is_some());
    assert_eq!(single.get("author_id"), fetched.get("author_id"));
}

#[test]
fn message_projection_is_absent_when_evidence_markers_are_disabled() {
    let content = "grounded [🔍=v1:AAAAAAAAAAw]";
    let m = message(
        3001,
        content,
        Some(Json::Array(vec![Json::Text("v1:AAAAAAAAAAw".into())])),
    );
    let projected = message_json(false, &m);
    assert_eq!(text(&projected, "content"), content);
    assert!(projected.get("evidence").is_none());
}

fn request(content: &str) -> ReplyRequest {
    ReplyRequest {
        channel_id: 42,
        content: content.into(),
        reply_to_message_id: Some(7),
        suppress_ping: true,
        pending_diary_records: vec![],
        fence_context: None,
    }
}

fn celebrating() -> Contradictionary {
    Contradictionary::new(vec![Entry {
        pattern: "prejection".into(),
        action: Action::Celebrate,
        match_mode: MatchMode::Word,
        reason: None,
    }])
}

#[test]
fn celebrate_self_react_notification_reaches_event_stream() {
    let delivery = Delivery::start(
        &delivery_settings(Some(celebrating())),
        &OutboundGate::configured(vec![42]),
        &request("prejection it is"),
        vec![],
        vec!["prejection it is".into()],
    )
    .unwrap_or_else(|e| panic!("{e:?}"));
    let delivered = delivery.chunk_sent(7, 99, "ariadne").finish();
    let event = delivered
        .celebration
        .expect("a celebrated word calls for a reaction")
        .notice();
    assert_eq!(event.chat_id, 42);
    assert_eq!(event.message_id, 7);
    assert_eq!(event.user, "ariadne");
    assert_eq!(event.user_id, 99);
    assert_eq!(event.emoji, CONTRADICTIONARY_CELEBRATE_REACT);
    assert!(
        event.self_react,
        "tool-initiated self-reacts must carry self_react"
    );
}

#[test]
fn a_message_without_a_celebrated_word_is_not_reacted_to() {
    let delivery = Delivery::start(
        &delivery_settings(Some(celebrating())),
        &OutboundGate::configured(vec![42]),
        &request("plain"),
        vec![],
        vec!["plain".into()],
    )
    .unwrap_or_else(|e| panic!("{e:?}"));
    assert!(delivery
        .chunk_sent(7, 99, "ariadne")
        .finish()
        .celebration
        .is_none());
}

#[test]
fn chunks_refer_to_the_message_by_mode() {
    let start = |mode| {
        let mut settings = delivery_settings(None);
        settings.reply_to_mode = mode;
        Delivery::start(
            &settings,
            &OutboundGate::configured(vec![42]),
            &request("onetwo"),
            vec![],
            vec!["one".into(), "two".into()],
        )
        .unwrap_or_else(|e| panic!("{e:?}"))
    };
    let references = |mode| {
        let first = start(mode);
        let a = first.next_chunk().unwrap().reference;
        let second = first.chunk_sent(1, 9, "n");
        let b = second.next_chunk().unwrap().reference;
        (a, b)
    };
    assert_eq!(references(ReplyToMode::Off), (None, None));
    assert_eq!(references(ReplyToMode::First), (Some(7), None));
    assert_eq!(references(ReplyToMode::All), (Some(7), Some(1)));

    let failed = start(ReplyToMode::First)
        .chunk_sent(1, 9, "n")
        .chunk_failed("boom");
    assert_eq!(failed.sent_ids, vec![1]);
    assert_eq!(failed.undelivered.as_deref(), Some("two"));
}

#[test]
fn a_delivery_to_a_channel_that_is_not_permitted_fails_whole() {
    let failed = match Delivery::start(
        &delivery_settings(None),
        &OutboundGate::configured(vec![1]),
        &request("text"),
        vec![],
        vec!["text".into()],
    ) {
        Ok(_) => panic!("expected a failure"),
        Err(e) => e,
    };
    assert!(failed.sent_ids.is_empty());
    assert_eq!(failed.undelivered, None);
}

#[test]
fn unknown_mcp_hook_override_is_rejected_explicitly() {
    let pipeline = enforcing("surface-halt", |_| HookDecision::Continue);
    let unknown = vec![HookName::parse("unknown-hook").unwrap()];
    let keys = EvidenceKeys::empty();
    let error = error_of(prepare(
        &setting(vec![42], true),
        Some(&pipeline),
        &draft(CHANNEL, "hello", OutboundSurface::Reply, &unknown, &keys),
    ));
    assert!(error.contains("unknown pre-send hook"));
}

/// Prepares a text under a hook that stops it, and tells which surface the hook saw.
fn halted(destination: OutboundDestination, surface: OutboundSurface) -> (String, Vec<String>) {
    let surfaces = Rc::new(RefCell::new(Vec::new()));
    let notes = Rc::clone(&surfaces);
    let pipeline = enforcing("surface-halt", move |context| {
        notes
            .borrow_mut()
            .push(context.metadata("outbound_surface").unwrap_or("").to_owned());
        HookDecision::Halt {
            reason: "blocked by test hook".into(),
        }
    });
    let keys = EvidenceKeys::empty();
    let none = vec![];
    let error = error_of(prepare(
        &setting(vec![42], true),
        Some(&pipeline),
        &draft(destination, "text", surface, &none, &keys),
    ));
    let seen = surfaces.borrow().clone();
    (error, seen)
}

#[test]
fn live_reply_path_runs_pre_send_pipeline() {
    let (error, seen) = halted(CHANNEL, OutboundSurface::Reply);
    assert_eq!(error, "blocked by test hook");
    assert_eq!(seen, vec!["reply"]);
}

#[test]
fn live_edit_path_runs_pre_send_pipeline() {
    let (error, seen) = halted(CHANNEL, OutboundSurface::EditMessage);
    assert_eq!(error, "blocked by test hook");
    assert_eq!(seen, vec!["edit-message"]);
}

#[test]
fn live_attachment_caption_path_runs_pre_send_pipeline() {
    let (error, seen) = halted(CHANNEL, OutboundSurface::SendFileCaption);
    assert_eq!(error, "blocked by test hook");
    assert_eq!(seen, vec!["send-file-caption"]);
}

#[test]
fn live_dm_path_runs_pre_send_pipeline_before_channel_creation() {
    let (error, seen) = halted(
        OutboundDestination::DmRecipient(77),
        OutboundSurface::SendDm,
    );
    assert_eq!(error, "blocked by test hook");
    assert_eq!(seen, vec!["send-dm"]);
}

#[test]
fn voice_before_tts_seam_runs_pre_send_pipeline() {
    let (error, seen) = halted(CHANNEL, OutboundSurface::VoiceBeforeTts);
    assert_eq!(error, "blocked by test hook");
    assert_eq!(seen, vec!["voice-before-tts"]);
}

#[test]
fn live_reply_path_verifies_ingress_classifications() {
    let classified = [
        (7, VerifyResult::Admitted { channel: 42 }, None),
        (
            9,
            VerifyResult::Unknown,
            Some(
                "⚠️ PHANTOM CANARY: reply_to target message 9 in channel 42 \
                 not in ingress ledger (Unknown)",
            ),
        ),
        (
            8,
            VerifyResult::ChannelMismatch {
                admitted_channel: 41,
                claimed_channel: 42,
            },
            Some(
                "⚠️ PHANTOM CANARY: reply_to target message 8 channel mismatch \
                 — admitted from 41, claimed 42 (ChannelMismatch)",
            ),
        ),
    ];
    for (message_id, ledger, alert) in classified {
        assert_eq!(
            reply_target_alert(ledger, true, message_id, 42).as_deref(),
            alert
        );
        assert_eq!(reply_target_alert(ledger, false, message_id, 42), None);
        let verdict = verify_message_target(ledger, true, message_id, 42, "reply_to", false);
        assert_eq!(verdict.alert.as_deref(), alert);
        assert_eq!(verdict.allowed.is_err(), alert.is_some());
        let (error, _) = halted(CHANNEL, OutboundSurface::Reply);
        assert_eq!(error, "blocked by test hook");
    }
}

#[test]
fn dm_preflight_uses_typed_recipient_destination() {
    let seen = Rc::new(Cell::new(None));
    let note = Rc::clone(&seen);
    let pipeline = enforcing("context-capture", move |context| {
        note.set(Some((
            context.destination(),
            context.channel_id(),
            context.dm_recipient_id(),
            context.channel_type(),
        )));
        HookDecision::Halt {
            reason: "captured".into(),
        }
    });
    let keys = EvidenceKeys::empty();
    let none = vec![];
    let error = error_of(prepare(
        &setting(vec![], true),
        Some(&pipeline),
        &draft(
            OutboundDestination::DmRecipient(77),
            "text",
            OutboundSurface::SendDm,
            &none,
            &keys,
        ),
    ));
    assert_eq!(error, "captured");
    assert_eq!(
        seen.get(),
        Some((
            OutboundDestination::DmRecipient(77),
            None,
            Some(77),
            ChannelType::DirectMessage
        ))
    );
}

#[test]
fn dm_redirect_is_prepared_once_and_resolved_without_rerunning_hooks() {
    let calls = Rc::new(Cell::new(0));
    let count = Rc::clone(&calls);
    let pipeline = enforcing("counting-decision", move |_| {
        count.set(count.get() + 1);
        HookDecision::Redirect { channel_id: 43 }
    });
    let keys = EvidenceKeys::empty();
    let none = vec![];
    let prepared = prepare(
        &setting(vec![43], true),
        Some(&pipeline),
        &draft(
            OutboundDestination::DmRecipient(77),
            "text",
            OutboundSurface::SendDm,
            &none,
            &keys,
        ),
    )
    .unwrap_or_else(|e| panic!("{e:?}"));
    assert_eq!(calls.get(), 1);
    match route_dm(true, &keys, prepared, &vec![], 1) {
        DmStep::Deliver(p) => assert_eq!(p.channel_id(), Some(43)),
        _ => panic!("a redirected message has its channel"),
    }
    assert_eq!(calls.get(), 1);
}

#[test]
fn captionless_send_file_rejects_hook_overrides_before_file_access() {
    let hooks = vec![HookName::parse("surface-halt").unwrap()];
    let refusal = check_send_file(
        None,
        &hooks,
        true,
        &OutboundGate::configured(vec![42]),
        42,
        false,
    );
    assert_eq!(
        error_of(refusal),
        "no_rly_hooks cannot be used when no caption is sent"
    );
}

#[test]
fn voice_redirect_is_rejected_instead_of_silently_discarded() {
    let calls = Rc::new(Cell::new(0));
    let count = Rc::clone(&calls);
    let pipeline = enforcing("counting-decision", move |_| {
        count.set(count.get() + 1);
        HookDecision::Redirect { channel_id: 43 }
    });
    let keys = EvidenceKeys::empty();
    let none = vec![];
    let error = error_of(prepare(
        &setting(vec![42, 43], true),
        Some(&pipeline),
        &draft(
            CHANNEL,
            "speech",
            OutboundSurface::VoiceBeforeTts,
            &none,
            &keys,
        ),
    ));
    assert_eq!(error, "pre-send redirect is not supported for voice output");
    assert_eq!(calls.get(), 1);
}

#[test]
fn live_context_carries_construct_author_and_explicit_unknown_guild() {
    let seen = Rc::new(RefCell::new(Vec::new()));
    let notes = Rc::clone(&seen);
    let pipeline = enforcing("context-capture", move |context| {
        notes.borrow_mut().push((
            context.construct_id().to_owned(),
            context.author_id(),
            context.guild_id(),
        ));
        HookDecision::Halt {
            reason: "captured".into(),
        }
    });
    let mut setting = setting(vec![42], true);
    setting.construct_id = ConstructId::parse("syne").unwrap();
    setting.author_id = Some(1522260806975099030);
    let keys = EvidenceKeys::empty();
    let none = vec![];
    let error = error_of(prepare(
        &setting,
        Some(&pipeline),
        &draft(CHANNEL, "text", OutboundSurface::Reply, &none, &keys),
    ));
    assert_eq!(error, "captured");
    assert_eq!(
        *seen.borrow(),
        vec![("syne".to_string(), Some(1522260806975099030), None)]
    );
}

#[test]
fn dm_channel_allowed_via_record_dm_channel() {
    let mut gate = OutboundGate::configured(vec![]);
    gate.record_dm_channel(2000);
    assert!(
        check_outbound(&gate, 2000).is_ok(),
        "DM channel must be allowed after record_dm_channel"
    );
}

#[test]
fn channel_not_in_config_or_state_is_denied() {
    assert!(
        check_outbound(&OutboundGate::configured(vec![]), 999).is_err(),
        "channel absent from config and state must be denied"
    );
}

#[test]
fn messaging_configured_channel_is_allowed() {
    assert!(
        check_outbound(&OutboundGate::configured(vec![42]), 42).is_ok(),
        "channel present in config must be allowed"
    );
}

// ── Reading messages ────────────────────────────────────────────────────────

fn newest_first_batch() -> Vec<MessageInfo> {
    vec![
        message(3003, "third", None),
        message(3002, "second", None),
        message(3001, "first", None),
    ]
}

fn ids(resp: &Json) -> Vec<String> {
    list(resp, "messages")
        .iter()
        .map(|m| text(m, "id").to_owned())
        .collect()
}

#[test]
fn new_since_sorts_oldest_first() {
    let resp = new_since_response(true, newest_first_batch(), 20);
    assert_eq!(
        ids(&resp),
        ["3001", "3002", "3003"],
        "messages must be sorted oldest-first regardless of wire order"
    );
}

#[test]
fn new_since_count_matches_returned_messages() {
    let resp = new_since_response(true, newest_first_batch(), 20);
    assert_eq!(resp.get("count"), Some(&Json::Unsigned(3)));
    assert_eq!(list(&resp, "messages").len(), 3);
}

#[test]
fn new_since_has_more_set_at_exactly_limit() {
    let resp = new_since_response(true, newest_first_batch(), 3);
    assert_eq!(
        resp.get("has_more"),
        Some(&Json::Bool(true)),
        "a full page (count == limit) must signal that more may follow"
    );
}

#[test]
fn new_since_has_more_unset_below_limit() {
    let resp = new_since_response(true, newest_first_batch(), 4);
    assert_eq!(
        resp.get("has_more"),
        Some(&Json::Bool(false)),
        "a partial page must signal that the caller is caught up"
    );
}

#[test]
fn new_since_empty_when_caught_up() {
    let resp = new_since_response(true, Vec::new(), 20);
    assert!(list(&resp, "messages").is_empty());
    assert_eq!(resp.get("count"), Some(&Json::Unsigned(0)));
    assert_eq!(resp.get("has_more"), Some(&Json::Bool(false)));
}

#[test]
fn new_since_zero_limit_never_signals_more() {
    let resp = new_since_response(true, Vec::new(), 0);
    assert_eq!(resp.get("count"), Some(&Json::Unsigned(0)));
    assert_eq!(
        resp.get("has_more"),
        Some(&Json::Bool(false)),
        "an empty page must never claim more data is available"
    );
}

#[test]
fn new_since_message_shape_matches_fetch_messages() {
    let mut m = message(4001, "with attachment", None);
    m.attachments.push(AttachmentInfo {
        filename: "photo.png".into(),
        url: "https://cdn.discordapp.com/attachments/1/111/photo.png".into(),
        size: 2048,
        content_type: Some("image/png".into()),
    });
    let resp = new_since_response(false, vec![m], 20);
    let msg = &list(&resp, "messages")[0];
    assert_eq!(
        keys_of(msg),
        [
            "attachments",
            "author",
            "author_id",
            "content",
            "id",
            "timestamp"
        ],
        "fetch_new_since message objects must keep wire-shape parity with fetch_messages"
    );
    let attachment = &list(msg, "attachments")[0];
    assert_eq!(keys_of(attachment), ["name", "size", "url"]);
    assert_eq!(text(msg, "author"), "miranda");
    assert_eq!(text(msg, "author_id"), "210987654321098765");
    assert_eq!(text(attachment, "name"), "photo.png");
    assert!(
        text(msg, "timestamp").starts_with("2026-06-09T12:00:00"),
        "timestamp must round-trip from the wire payload"
    );
}

#[test]
fn pages_hold_every_message_once_in_order() {
    let all = [17u64, 3, 99, 1, 42];
    let resp = new_since_response(
        true,
        all.iter().map(|id| message(*id, "m", None)).collect(),
        5,
    );
    assert_eq!(ids(&resp), ["1", "3", "17", "42", "99"]);
    assert_eq!(resp.get("has_more"), Some(&Json::Bool(true)));
}

#[test]
fn parse_reaction_type_rejects_zero_custom_emoji_id() {
    let result = parse_reaction_type("<:name:0>");
    assert!(
        result.is_err(),
        "zero emoji ID must be rejected, got: {result:?}"
    );
}

#[test]
fn parse_reaction_type_rejects_zero_animated_emoji_id() {
    let result = parse_reaction_type("<a:party:0>");
    assert!(
        result.is_err(),
        "zero animated emoji ID must be rejected, got: {result:?}"
    );
}

#[test]
fn parse_reaction_type_accepts_valid_custom_emoji() {
    match parse_reaction_type("<:blob:123456789012345678>") {
        Ok(ReactionType::Custom { animated, id, name }) => {
            assert!(!animated);
            assert_eq!(id, 123456789012345678);
            assert_eq!(name.as_deref(), Some("blob"));
        }
        other => panic!("expected Custom reaction, got: {other:?}"),
    }
}

#[test]
fn parse_reaction_type_passes_unicode_through() {
    assert_eq!(
        parse_reaction_type("👍"),
        Ok(ReactionType::Unicode("👍".to_string()))
    );
}

#[test]
fn resolve_pagination_neither_yields_none() {
    assert_eq!(resolve_pagination(None, None), Ok(None));
}

#[test]
fn resolve_pagination_before_yields_before() {
    assert_eq!(
        resolve_pagination(Some(1234), None),
        Ok(Some(MessagePagination::Before(1234)))
    );
}

#[test]
fn resolve_pagination_after_yields_after() {
    assert_eq!(
        resolve_pagination(None, Some(5678)),
        Ok(Some(MessagePagination::After(5678)))
    );
}

#[test]
fn resolve_pagination_both_is_error() {
    let error = error_of(resolve_pagination(Some(1), Some(2)));
    assert!(error.contains("cannot specify both"));
}

#[test]
fn build_fetch_response_sorts_oldest_first() {
    let resp = build_fetch_response(true, newest_first_batch(), false, 20);
    assert_eq!(ids(&resp), ["3001", "3002", "3003"]);
}

#[test]
fn build_pins_response_sorts_oldest_first_and_counts_messages() {
    let resp = build_pins_response(true, newest_first_batch());
    assert_eq!(ids(&resp), ["3001", "3002", "3003"]);
    assert_eq!(resp.get("count"), Some(&Json::Unsigned(3)));
}

#[test]
fn build_pins_response_handles_empty_channels() {
    let resp = build_pins_response(true, Vec::new());
    assert!(list(&resp, "messages").is_empty());
    assert_eq!(resp.get("count"), Some(&Json::Unsigned(0)));
}

#[test]
fn build_fetch_response_no_metadata_without_pagination() {
    let resp = build_fetch_response(true, newest_first_batch(), false, 20);
    assert!(resp.get("count").is_none());
    assert!(resp.get("has_more").is_none());
}

#[test]
fn build_fetch_response_includes_metadata_with_pagination() {
    let resp = build_fetch_response(true, newest_first_batch(), true, 20);
    assert_eq!(resp.get("count"), Some(&Json::Unsigned(3)));
    assert_eq!(resp.get("has_more"), Some(&Json::Bool(false)));
}

#[test]
fn build_fetch_response_has_more_when_full_page() {
    let resp = build_fetch_response(true, newest_first_batch(), true, 3);
    assert_eq!(resp.get("count"), Some(&Json::Unsigned(3)));
    assert_eq!(resp.get("has_more"), Some(&Json::Bool(true)));
}

#[test]
fn build_fetch_response_no_has_more_on_short_page() {
    let resp = build_fetch_response(true, vec![message(1001, "only", None)], true, 20);
    assert_eq!(resp.get("count"), Some(&Json::Unsigned(1)));
    assert_eq!(resp.get("has_more"), Some(&Json::Bool(false)));
}

#[test]
fn build_fetch_response_empty_page() {
    let resp = build_fetch_response(true, vec![], true, 20);
    assert_eq!(resp.get("count"), Some(&Json::Unsigned(0)));
    assert_eq!(resp.get("has_more"), Some(&Json::Bool(false)));
    assert!(list(&resp, "messages").is_empty());
}

// ── Small answers ───────────────────────────────────────────────────────────

#[test]
fn display_names_are_cut_between_characters() {
    assert_eq!(BotDisplayName::from_discord("ariadne").as_str(), "ariadne");
    let long = "é".repeat(20);
    assert_eq!(
        BotDisplayName::from_discord(&long).as_str(),
        "é".repeat(16)
    );
}

#[test]
fn dm_policy_can_switch_direct_messages_off() {
    assert!(check_dm_policy(DmPolicy::Queue).is_ok());
    assert!(check_dm_policy(DmPolicy::Disabled).is_err());
}

#[test]
fn captions_and_hook_overrides_go_together() {
    let hooks = vec![HookName::parse("a-hook").unwrap()];
    assert!(reject_captionless_hook_overrides(Some("caption"), &hooks).is_none());
    assert!(reject_captionless_hook_overrides(None, &vec![]).is_none());
    assert!(reject_captionless_hook_overrides(None, &hooks).is_some());
}

#[test]
fn large_attachments_are_not_downloaded() {
    assert!(check_attachment_size(26_214_400).is_ok());
    assert!(check_attachment_size(26_214_401).is_err());
}

#[test]
fn a_taken_name_in_the_inbox_is_numbered() {
    assert_eq!(inbox_name("photo.png", 0, false), "photo.png");
    assert_ne!(inbox_name("photo.png", 1, true), "photo.png");
}

#[test]
fn saved_files_are_listed() {
    let answer = saved_json(&vec!["/inbox/a".into(), "/inbox/b".into()]);
    assert!(matches!(answer, Json::Object(_)));
}

#[test]
fn releases_and_rephrases_are_answered() {
    let handle = HoldHandle::new("nr-0001-1");
    let released = release_json(
        &handle,
        &Ok(Released {
            message_ids: vec![5],
            latency_ms: 1,
        }),
    );
    assert_eq!(list(&released, "message_ids"), &vec![Json::Unsigned(5)]);
    let gone = release_json(&handle, &Err(RejectedHandle::Unknown(handle.clone())));
    assert_eq!(
        text(&gone, "error"),
        "unknown or already-used handle: nr-0001-1"
    );
    let (sent, note) = rephrase_json(
        &handle,
        "text",
        &Ok(Rephrased::Sent {
            message_ids: vec![6],
        }),
    );
    assert_eq!(list(&sent, "message_ids"), &vec![Json::Unsigned(6)]);
    assert!(note.is_none());
    let (bounced, note) = rephrase_json(
        &handle,
        "text",
        &Ok(Rephrased::ReBounced(ticket("nr-0001-2", Some("nr-0001-1")))),
    );
    assert!(bounced.get("held").is_some());
    assert!(note.is_some());
}
