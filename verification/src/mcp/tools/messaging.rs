//! Sending, editing and reading messages.
//!
//! Whatever a construct says goes through the same steps: the outbound gate for outbound
//! channels, the hooks, the judge, and then chunk by chunk to Discord. The calls
//! to Discord are made elsewhere; here stands what is asked of it, and what is
//! made of its answers.

use vstd::prelude::*;
use crate::clock::{Duration, Instant, Timestamp};
use crate::contradictionary::{
    self, copy_diary, Action, Contradictionary, DiaryKind, DiaryRecord, Hit,
};
use crate::gate::{contains_id, OutboundGate};
use crate::json::{self, Json, JsonView, Object};
use crate::no_rly::consent::{
    self, BounceTicket, ConsentGate, DeliverError, DeliverErrorView, RejectedHandle, Released,
    Rephrased, ReplyRequest, RequestView,
};
use crate::no_rly::judge::{self, OutboundJudge, ReasonView, Verdict};
use crate::no_rly::queue::{self, HoldHandle};
use crate::oneshot::{self, ChunkMode};
use crate::pre_send::{
    self, ChannelType, ConstructId, ContextView, DecisionView, HookContext, HookDecision, HookName,
    NoRly, OutboundDestination, PipelineError, PipelineOutcome, PreSendPipeline,
};
use crate::principal_policy::DmPolicy;
use crate::text;

verus! {

// ── Targets ─────────────────────────────────────────────────────────────────

/// What the ledger of incoming messages says of a message and its channel.
#[derive(Clone, Copy, Debug, PartialEq, Eq, Structural)]
pub enum VerifyResult {
    /// The message came in from this channel.
    Admitted { channel: u64 },
    /// The message never came in.
    Unknown,
    /// The message came in from another channel.
    ChannelMismatch { admitted_channel: u64, claimed_channel: u64 },
    /// The message is too old for the ledger.
    Expired,
    /// The ledger cannot be asked.
    Unavailable,
}

/// What becomes of an operation on a message.
pub struct TargetVerdict {
    /// Whether it may go on, or what is answered.
    pub allowed: Result<(), Json>,
    /// The alert that is sent to the canary channel.
    pub alert: Option<String>,
}

/// What is answered to an operation on a message that the ledger does not vouch for.
pub open spec fn phantom_answer(
    ledger: VerifyResult,
    own_send: bool,
    message_id: u64,
    operation: Seq<char>,
) -> Option<Seq<char>> {
    match ledger {
        VerifyResult::Unknown if !own_send => Some(
            "message "@ + text::decimal(message_id as nat)
                + " not in ingress ledger — possible phantom. "@ + operation + " blocked."@,
        ),
        VerifyResult::ChannelMismatch { .. } => Some(
            "message "@ + text::decimal(message_id as nat)
                + " channel mismatch — possible phantom. "@ + operation + " blocked."@,
        ),
        _ => None,
    }
}

/// The alert that such an operation raises.
pub open spec fn phantom_alert(
    ledger: VerifyResult,
    own_send: bool,
    message_id: u64,
    channel_id: u64,
    operation: Seq<char>,
) -> Option<Seq<char>> {
    let start = "⚠️ PHANTOM CANARY: "@ + operation + " target message "@ + text::decimal(
        message_id as nat,
    );
    match ledger {
        VerifyResult::Unknown if !own_send => Some(
            start + " in channel "@ + text::decimal(channel_id as nat)
                + " not in ingress ledger (Unknown)"@,
        ),
        VerifyResult::ChannelMismatch { admitted_channel, claimed_channel } => Some(
            start + " channel mismatch — admitted from "@ + text::decimal(admitted_channel as nat)
                + ", claimed "@ + text::decimal(claimed_channel as nat) + " (ChannelMismatch)"@,
        ),
        _ => None,
    }
}

/// Holds the target of an operation against the ledger. A message that is not
/// known, or is known from another channel, stops the operation and raises an
/// alert where there is a channel for alerts. One that has expired passes, and so
/// does everything while the ledger cannot be asked. The construct's own messages
/// never came in: for operations on those (`own_send`) not to be known is in order.
pub fn verify_message_target(
    ledger: VerifyResult,
    canary: bool,
    message_id: u64,
    channel_id: u64,
    operation: &str,
    own_send: bool,
) -> (r: TargetVerdict)
    ensures
        match phantom_answer(ledger, own_send, message_id, operation@) {
            Some(answer) => r.allowed matches Err(e) && e@ == json::error_view(answer),
            None => r.allowed is Ok,
        },
        text::text_opt(r.alert) == if canary {
            phantom_alert(ledger, own_send, message_id, channel_id, operation@)
        } else {
            None
        },
{
    let id: String = text::decimal_string(message_id);
    let mut answer: String = "message ".to_owned();
    answer.append(id.as_str());
    let mut alert: String = "⚠️ PHANTOM CANARY: ".to_owned();
    alert.append(operation);
    alert.append(" target message ");
    alert.append(id.as_str());
    match ledger {
        VerifyResult::Unknown => {
            if own_send {
                return TargetVerdict { allowed: Ok(()), alert: None };
            }
            answer.append(" not in ingress ledger — possible phantom. ");
            alert.append(" in channel ");
            let channel: String = text::decimal_string(channel_id);
            alert.append(channel.as_str());
            alert.append(" not in ingress ledger (Unknown)");
        },
        VerifyResult::ChannelMismatch { admitted_channel, claimed_channel } => {
            answer.append(" channel mismatch — possible phantom. ");
            alert.append(" channel mismatch — admitted from ");
            let admitted: String = text::decimal_string(admitted_channel);
            alert.append(admitted.as_str());
            alert.append(", claimed ");
            let claimed: String = text::decimal_string(claimed_channel);
            alert.append(claimed.as_str());
            alert.append(" (ChannelMismatch)");
        },
        VerifyResult::Admitted { .. } | VerifyResult::Expired | VerifyResult::Unavailable => {
            return TargetVerdict { allowed: Ok(()), alert: None };
        },
    }
    answer.append(operation);
    answer.append(" blocked.");
    TargetVerdict {
        allowed: Err(Json::error(answer)),
        alert: if canary {
            Some(alert)
        } else {
            None
        },
    }
}

/// Holds the message that a reply answers against the ledger. The reply goes out
/// whatever the ledger says, for it answers its message only by the way: nothing but
/// the alert comes of it, where there is a channel for alerts.
pub fn reply_target_alert(
    ledger: VerifyResult,
    canary: bool,
    message_id: u64,
    channel_id: u64,
) -> (r: Option<String>)
    ensures
        text::text_opt(r) == if canary {
            phantom_alert(ledger, false, message_id, channel_id, "reply_to"@)
        } else {
            None
        },
{
    verify_message_target(ledger, canary, message_id, channel_id, "reply_to", false).alert
}

/// An alert is raised only for an operation that is stopped.
pub proof fn law_alerts_go_with_refusals(
    ledger: VerifyResult,
    own_send: bool,
    message_id: u64,
    channel_id: u64,
    operation: Seq<char>,
)
    ensures
        phantom_alert(ledger, own_send, message_id, channel_id, operation) is Some
            <==> phantom_answer(ledger, own_send, message_id, operation) is Some,
{
}

// ── Names ───────────────────────────────────────────────────────────────────

/// How many bytes a character takes in UTF-8.
pub open spec fn char_width(c: char) -> nat {
    if (c as u32) < 0x80 {
        1
    } else if (c as u32) < 0x800 {
        2
    } else if (c as u32) < 0x10000 {
        3
    } else {
        4
    }
}

/// How many bytes a text takes in UTF-8.
pub open spec fn byte_len(s: Seq<char>) -> nat
    decreases s.len(),
{
    if s.len() == 0 {
        0
    } else {
        byte_len(s.drop_last()) + char_width(s.last())
    }
}

/// Whether `r` is the longest start of `s` that takes at most `max` bytes.
pub open spec fn longest_start(s: Seq<char>, max: nat, r: Seq<char>) -> bool {
    &&& r.len() <= s.len()
    &&& r == s.take(r.len() as int)
    &&& byte_len(r) <= max
    &&& r.len() < s.len() ==> byte_len(s.take(r.len() as int + 1)) > max
}

/// The name of a bot, cut to what Discord allows.
pub struct BotDisplayName(pub String);

impl BotDisplayName {
    /// The most bytes of a name.
    pub const MAX_BYTES: usize = 32;

    /// The name that Discord gives, cut after the last character that fits.
    pub fn from_discord(name: &str) -> (r: Self)
        ensures
            longest_start(name@, 32, r.0@),
    {
        let chars: Vec<char> = text::chars_of(name);
        let mut width: usize = 0;
        let mut i: usize = 0;
        assert(name@.take(0) =~= Seq::empty());
        while i < chars.len()
            invariant
                chars@ == name@,
                i <= chars@.len(),
                width == byte_len(name@.take(i as int)),
                width <= 32,
            decreases chars@.len() - i,
        {
            let c: char = chars[i];
            let code: u32 = c as u32;
            let w: usize = if code < 0x80 {
                1
            } else if code < 0x800 {
                2
            } else if code < 0x10000 {
                3
            } else {
                4
            };
            proof {
                assert(name@.take(i + 1).drop_last() =~= name@.take(i as int));
                assert(name@.take(i + 1).last() == c);
            }
            if width + w > BotDisplayName::MAX_BYTES {
                let cut: String = text::string_between(&chars, 0, i);
                assert(cut@ =~= name@.take(i as int));
                return BotDisplayName(cut);
            }
            width = width + w;
            i = i + 1;
        }
        assert(name@.take(name@.len() as int) =~= name@);
        BotDisplayName(name.to_owned())
    }

    /// The name.
    pub fn as_str(&self) -> (r: &str)
        ensures
            r@ == self.0@,
    {
        self.0.as_str()
    }
}

// ── The outbound gate ────────────────────────────────────────────────────────────────

/// What is said of a channel that may not be written to.
pub open spec fn not_permitted(channel_id: u64) -> Seq<char> {
    "channel "@ + text::decimal(channel_id as nat) + " is not a permitted outbound target"@
}

/// Whether a channel may be written to, or what is said of it.
pub fn ensure_outbound(gate: &OutboundGate, channel_id: u64) -> (r: Result<(), String>)
    ensures
        match r {
            Ok(_) => gate.allowed(channel_id),
            Err(e) => !gate.allowed(channel_id) && e@ == not_permitted(channel_id),
        },
{
    if gate.check(channel_id) {
        return Ok(());
    }
    let mut out: String = "channel ".to_owned();
    let id: String = text::decimal_string(channel_id);
    out.append(id.as_str());
    out.append(" is not a permitted outbound target");
    Err(out)
}

/// Whether a channel may be written to, or what is answered.
pub fn check_outbound(gate: &OutboundGate, channel_id: u64) -> (r: Result<(), Json>)
    ensures
        match r {
            Ok(_) => gate.allowed(channel_id),
            Err(e) => !gate.allowed(channel_id) && e@ == json::error_view(
                not_permitted(channel_id),
            ),
        },
{
    match ensure_outbound(gate, channel_id) {
        Ok(_) => Ok(()),
        Err(e) => Err(Json::error(e)),
    }
}

// ── Surfaces ────────────────────────────────────────────────────────────────

/// The ways on which a text goes out.
#[derive(Clone, Copy, Debug, PartialEq, Eq, Structural)]
pub enum OutboundSurface {
    Reply,
    EditMessage,
    SendFileCaption,
    RenderLatexCaption,
    SendDm,
    VoiceBeforeTts,
}

/// The name of a way out.
pub open spec fn surface_text(surface: OutboundSurface) -> Seq<char> {
    match surface {
        OutboundSurface::Reply => "reply"@,
        OutboundSurface::EditMessage => "edit-message"@,
        OutboundSurface::SendFileCaption => "send-file-caption"@,
        OutboundSurface::RenderLatexCaption => "render-latex-caption"@,
        OutboundSurface::SendDm => "send-dm"@,
        OutboundSurface::VoiceBeforeTts => "voice-before-tts"@,
    }
}

/// What is said of a hook that sends a text elsewhere, where that cannot be done.
pub open spec fn redirect_refusal(surface: OutboundSurface) -> Option<Seq<char>> {
    match surface {
        OutboundSurface::EditMessage => Some(
            "pre-send redirect is not supported for message edits"@,
        ),
        OutboundSurface::VoiceBeforeTts => Some(
            "pre-send redirect is not supported for voice output"@,
        ),
        _ => None,
    }
}

impl OutboundSurface {
    /// The name.
    pub fn as_str(self) -> (r: &'static str)
        ensures
            r@ == surface_text(self),
    {
        match self {
            OutboundSurface::Reply => "reply",
            OutboundSurface::EditMessage => "edit-message",
            OutboundSurface::SendFileCaption => "send-file-caption",
            OutboundSurface::RenderLatexCaption => "render-latex-caption",
            OutboundSurface::SendDm => "send-dm",
            OutboundSurface::VoiceBeforeTts => "voice-before-tts",
        }
    }
}

/// What a way out allows.
pub struct SurfacePolicy {
    /// What is said of a hook that sends a text elsewhere, where that cannot be done.
    pub redirect_error: Option<&'static str>,
}

impl SurfacePolicy {
    /// What this way out allows.
    pub fn for_surface(surface: OutboundSurface) -> (r: Self)
        ensures
            match redirect_refusal(surface) {
                Some(e) => r.redirect_error matches Some(x) && x@ == e,
                None => r.redirect_error is None,
            },
    {
        let redirect_error: Option<&'static str> = match surface {
            OutboundSurface::Reply
            | OutboundSurface::SendFileCaption
            | OutboundSurface::RenderLatexCaption
            | OutboundSurface::SendDm => None,
            OutboundSurface::EditMessage => Some(
                "pre-send redirect is not supported for message edits",
            ),
            OutboundSurface::VoiceBeforeTts => Some(
                "pre-send redirect is not supported for voice output",
            ),
        };
        SurfacePolicy { redirect_error }
    }
}

/// Hooks cannot be passed over where no text is sent.
pub fn reject_captionless_hook_overrides(
    caption: Option<&str>,
    no_rly_hooks: &Vec<HookName>,
) -> (r: Option<Json>)
    ensures
        if caption is None && no_rly_hooks@.len() > 0 {
            r matches Some(e) && e@ == json::error_view(
                "no_rly_hooks cannot be used when no caption is sent"@,
            )
        } else {
            r is None
        },
{
    if caption.is_none() && no_rly_hooks.len() > 0 {
        return Some(
            Json::error("no_rly_hooks cannot be used when no caption is sent".to_owned()),
        );
    }
    None
}

// ── Evidence ────────────────────────────────────────────────────────────────

/// What a message refers to: the locators of records, in order.
pub struct EvidenceKeys {
    pub locators: Vec<String>,
}

/// A text with a mark behind it for each locator.
pub open spec fn marked(text: Seq<char>, locators: Seq<Seq<char>>) -> Seq<char>
    decreases locators.len(),
{
    if locators.len() == 0 {
        text
    } else {
        marked(text, locators.drop_last()) + " [🔍="@ + locators.last() + "]"@
    }
}

impl EvidenceKeys {
    /// References to nothing.
    pub fn empty() -> (r: Self)
        ensures
            r.locators@.len() == 0,
    {
        EvidenceKeys { locators: Vec::new() }
    }

    /// Whether nothing is referred to.
    pub fn is_empty(&self) -> (r: bool)
        ensures
            r == (self.locators@.len() == 0),
    {
        self.locators.len() == 0
    }
}

/// How references travel with a message: as marks that everybody sees, put behind
/// the text after the hooks have run.
pub open spec fn evidence_transport() -> Seq<char> {
    "terminal-visible-suffix-v1-after-hooks"@
}

/// Puts a mark behind the text for each locator.
pub fn append_markers(text: &str, keys: &EvidenceKeys) -> (r: String)
    ensures
        r@ == marked(text@, text::texts(keys.locators@)),
{
    let ghost all = text::texts(keys.locators@);
    let mut out: String = text.to_owned();
    let mut i: usize = 0;
    while i < keys.locators.len()
        invariant
            i <= keys.locators@.len(),
            all == text::texts(keys.locators@),
            out@ == marked(text@, all.take(i as int)),
        decreases keys.locators@.len() - i,
    {
        out.append(" [🔍=");
        out.append(keys.locators[i].as_str());
        out.append("]");
        proof {
            assert(all.take(i + 1).drop_last() =~= all.take(i as int));
            assert(all.take(i + 1).last() == keys.locators@[i as int]@);
        }
        i = i + 1;
    }
    assert(all.take(all.len() as int) =~= all);
    out
}

// ── Preparing a text ────────────────────────────────────────────────────────

/// A text that is to go out.
pub struct OutboundDraft<'a> {
    pub destination: OutboundDestination,
    pub text: &'a str,
    pub reply_to: Option<u64>,
    pub surface: OutboundSurface,
    /// The hooks to be passed over.
    pub bypasses: &'a Vec<HookName>,
    pub evidence_keys: &'a EvidenceKeys,
}

/// A text that may go out.
pub struct PreparedOutbound {
    pub destination: OutboundDestination,
    pub text: String,
    pub reply_to: Option<u64>,
    pub surface: OutboundSurface,
}

/// A [`PreparedOutbound`] as a value.
#[verifier::ext_equal]
pub struct PreparedView {
    pub destination: OutboundDestination,
    pub text: Seq<char>,
    pub reply_to: Option<u64>,
    pub surface: OutboundSurface,
}

impl View for PreparedOutbound {
    type V = PreparedView;

    open spec fn view(&self) -> PreparedView {
        PreparedView {
            destination: self.destination,
            text: self.text@,
            reply_to: self.reply_to,
            surface: self.surface,
        }
    }
}

/// The channel of a destination.
pub open spec fn channel_of(destination: OutboundDestination) -> Option<u64> {
    match destination {
        OutboundDestination::Channel(channel_id) => Some(channel_id),
        OutboundDestination::DmRecipient(_) => None,
    }
}

impl PreparedOutbound {
    /// The same text, for the channel that the recipient's messages turned out to
    /// go through.
    pub fn resolve_dm_channel(self, channel_id: u64) -> (r: Self)
        requires
            self.destination is DmRecipient,
        ensures
            r@ == (PreparedView { destination: OutboundDestination::Channel(channel_id), ..self@ }),
    {
        PreparedOutbound {
            destination: OutboundDestination::Channel(channel_id),
            text: self.text,
            reply_to: self.reply_to,
            surface: self.surface,
        }
    }

    /// The channel, where it is known.
    pub fn channel_id(&self) -> (r: Option<u64>)
        ensures
            r == channel_of(self.destination),
    {
        match self.destination {
            OutboundDestination::Channel(channel_id) => Some(channel_id),
            OutboundDestination::DmRecipient(_) => None,
        }
    }
}

/// What is known of the construct and its surroundings.
pub struct OutboundSetting {
    pub gate: OutboundGate,
    pub evidence_markers_enabled: bool,
    pub construct_id: ConstructId,
    pub author_id: Option<u64>,
}

/// What has to be done before a text may go out.
pub enum OutboundStep {
    /// Nothing.
    Ready(PreparedOutbound),
    /// To run the hooks.
    RunHooks { context: HookContext, no_rly: NoRly },
}

/// An [`OutboundStep`] as a value.
pub enum StepView {
    Ready(PreparedView),
    RunHooks { context: ContextView, bypassed: Set<Seq<char>> },
}

impl View for OutboundStep {
    type V = StepView;

    open spec fn view(&self) -> StepView {
        match self {
            OutboundStep::Ready(p) => StepView::Ready(p@),
            OutboundStep::RunHooks { context, no_rly } => StepView::RunHooks {
                context: context@,
                bypassed: no_rly@,
            },
        }
    }
}

/// The first of the hooks to be passed over that there is not.
pub open spec fn first_unknown(names: Seq<Seq<char>>, bypasses: Seq<Seq<char>>) -> Option<Seq<char>>
    decreases bypasses.len(),
{
    if bypasses.len() == 0 {
        None
    } else if !names.contains(bypasses[0]) {
        Some(bypasses[0])
    } else {
        first_unknown(names, bypasses.skip(1))
    }
}

proof fn lemma_first_unknown(names: Seq<Seq<char>>, bypasses: Seq<Seq<char>>, i: int)
    requires
        0 <= i <= bypasses.len(),
        forall|k: int| 0 <= k < i ==> names.contains(#[trigger] bypasses[k]),
        i < bypasses.len() ==> !names.contains(bypasses[i]),
    ensures
        first_unknown(names, bypasses) == if i < bypasses.len() {
            Some(bypasses[i])
        } else {
            None
        },
    decreases i,
{
    if i > 0 {
        assert forall|k: int| 0 <= k < i - 1 implies names.contains(
            #[trigger] bypasses.skip(1)[k],
        ) by {
            assert(bypasses.skip(1)[k] == bypasses[k + 1]);
        }
        lemma_first_unknown(names, bypasses.skip(1), i - 1);
    }
}

impl OutboundSetting {
    /// What the hooks are told of the kind of channel.
    pub open spec fn kind_of(&self, destination: OutboundDestination) -> ChannelType {
        match destination {
            OutboundDestination::DmRecipient(_) => ChannelType::DirectMessage,
            OutboundDestination::Channel(channel_id) => if self.gate.dm_ids@.contains(channel_id) {
                ChannelType::DirectMessage
            } else if self.gate.thread_parents@.contains_key(channel_id) {
                ChannelType::Thread
            } else {
                ChannelType::Public
            },
        }
    }

    /// The locators that go with a text: none where marks are switched off.
    pub open spec fn locators(&self, keys: EvidenceKeys) -> Seq<Seq<char>> {
        if self.evidence_markers_enabled {
            text::texts(keys.locators@)
        } else {
            Seq::empty()
        }
    }

    /// What the hooks are told.
    pub open spec fn context_of(&self, draft: OutboundDraft<'_>) -> ContextView {
        let locators = self.locators(*draft.evidence_keys);
        let surface = Map::<Seq<char>, Seq<char>>::empty().insert(
            "outbound_surface"@,
            surface_text(draft.surface),
        );
        ContextView {
            text: draft.text@,
            author_id: self.author_id,
            destination: draft.destination,
            channel_type: self.kind_of(draft.destination),
            guild_id: None,
            reply_to_message_id: draft.reply_to,
            construct_id: self.construct_id@,
            metadata: if locators.len() == 0 {
                surface
            } else {
                surface.insert("evidence_locators"@, text::joined(locators, ","@)).insert(
                    "evidence_transport"@,
                    evidence_transport(),
                )
            },
        }
    }

    /// What has to be done before a text may go out, or what is answered. `hooks`
    /// are the names of the hooks, if there is a pipeline.
    pub open spec fn opening(
        &self,
        hooks: Option<Seq<Seq<char>>>,
        draft: OutboundDraft<'_>,
    ) -> Result<StepView, JsonView> {
        let bypasses = pre_send::hook_names(draft.bypasses@);
        let denied = match draft.destination {
            OutboundDestination::Channel(c) if !self.gate.allowed(c) => Some(not_permitted(c)),
            _ => None,
        };
        match hooks {
            None => if bypasses.len() > 0 {
                Err(
                    json::error_view(
                        "no_rly_hooks named hooks, but no pre-send hooks are registered"@,
                    ),
                )
            } else {
                match denied {
                    Some(e) => Err(json::error_view(e)),
                    None => Ok(
                        StepView::Ready(
                            PreparedView {
                                destination: draft.destination,
                                text: marked(draft.text@, self.locators(*draft.evidence_keys)),
                                reply_to: draft.reply_to,
                                surface: draft.surface,
                            },
                        ),
                    ),
                }
            },
            Some(names) => match first_unknown(names, bypasses) {
                Some(name) => Err(
                    json::error_view("unknown pre-send hook name `"@ + name + "`"@),
                ),
                None => match denied {
                    Some(e) => Err(json::error_view(e)),
                    None => Ok(
                        StepView::RunHooks {
                            context: self.context_of(draft),
                            bypassed: bypasses.to_set(),
                        },
                    ),
                },
            },
        }
    }

    fn channel_type(&self, destination: OutboundDestination) -> (r: ChannelType)
        ensures
            r == self.kind_of(destination),
    {
        match destination {
            OutboundDestination::DmRecipient(_) => ChannelType::DirectMessage,
            OutboundDestination::Channel(channel_id) => {
                if contains_id(&self.gate.dm_ids, channel_id) {
                    ChannelType::DirectMessage
                } else if self.gate.thread_parents.contains_key(&channel_id) {
                    ChannelType::Thread
                } else {
                    ChannelType::Public
                }
            },
        }
    }

    /// Looks at a text before it goes out: the hooks to be passed over, then the
    /// channel. Where there are hooks, they are run next, and
    /// [`OutboundSetting::finish_outbound`] says what is left.
    pub fn prepare_outbound<H, F, A>(
        &self,
        pipeline: Option<&PreSendPipeline<H, F, A>>,
        draft: &OutboundDraft<'_>,
    ) -> (r: Result<OutboundStep, Json>)
        ensures
            match r {
                Ok(step) => self.opening(
                    match pipeline {
                        Some(p) => Some(p.names()),
                        None => None,
                    },
                    *draft,
                ) == Ok::<StepView, JsonView>(step@) && (step matches OutboundStep::RunHooks {
                    context,
                    ..
                } ==> context.wf()),
                Err(e) => self.opening(
                    match pipeline {
                        Some(p) => Some(p.names()),
                        None => None,
                    },
                    *draft,
                ) == Err::<StepView, JsonView>(e@),
            },
    {
        let none: EvidenceKeys = EvidenceKeys::empty();
        let keys: &EvidenceKeys = if self.evidence_markers_enabled {
            draft.evidence_keys
        } else {
            &none
        };
        assert(text::texts(keys.locators@) =~= self.locators(*draft.evidence_keys));
        let ghost bypasses = pre_send::hook_names(draft.bypasses@);
        let mut bypassed: Option<NoRly> = None;
        match pipeline {
            Some(p) => {
                match p.no_rly(draft.bypasses) {
                    Ok(no_rly) => {
                        proof {
                            assert forall|k: int| 0 <= k < bypasses.len() implies p.names().contains(
                                #[trigger] bypasses[k],
                            ) by {
                                assert(bypasses[k] == draft.bypasses@[k]@);
                            }
                            lemma_first_unknown(p.names(), bypasses, bypasses.len() as int);
                        }
                        bypassed = Some(no_rly);
                    },
                    Err(e) => {
                        proof {
                            let i = choose|i: int|
                                {
                                    &&& 0 <= i < draft.bypasses@.len()
                                    &&& !p.names().contains((#[trigger] draft.bypasses@[i])@)
                                    &&& forall|k: int|
                                        0 <= k < i ==> p.names().contains(
                                            (#[trigger] draft.bypasses@[k])@,
                                        )
                                    &&& e matches PipelineError::UnknownHookName(n)
                                    &&& n@ == draft.bypasses@[i]@
                                };
                            assert forall|k: int| 0 <= k < i implies p.names().contains(
                                #[trigger] bypasses[k],
                            ) by {
                                assert(bypasses[k] == draft.bypasses@[k]@);
                            }
                            lemma_first_unknown(p.names(), bypasses, i);
                        }
                        return Err(Json::error(e.to_string()));
                    },
                }
            },
            None => {
                if draft.bypasses.len() > 0 {
                    return Err(
                        Json::error(
                            "no_rly_hooks named hooks, but no pre-send hooks are registered".to_owned(),
                        ),
                    );
                }
            },
        }
        if let OutboundDestination::Channel(channel_id) = draft.destination {
            if let Err(e) = check_outbound(&self.gate, channel_id) {
                return Err(e);
            }
        }
        let no_rly: NoRly = match bypassed {
            Some(n) => n,
            None => {
                return Ok(
                    OutboundStep::Ready(
                        PreparedOutbound {
                            destination: draft.destination,
                            text: append_markers(draft.text, keys),
                            reply_to: draft.reply_to,
                            surface: draft.surface,
                        },
                    ),
                );
            },
        };
        let mut context: HookContext = HookContext::new(
            draft.text,
            draft.destination,
            self.channel_type(draft.destination),
            self.construct_id.clone(),
        ).with_author_id(self.author_id).with_reply_to(draft.reply_to).with_metadata(
            "outbound_surface",
            draft.surface.as_str(),
        );
        if !keys.is_empty() {
            let listed: String = text::join(&keys.locators, ",");
            context =
            context.with_metadata("evidence_locators", listed.as_str()).with_metadata(
                "evidence_transport",
                "terminal-visible-suffix-v1-after-hooks",
            );
        }
        Ok(OutboundStep::RunHooks { context, no_rly })
    }
}

/// How the hooks ended.
pub enum HookRun {
    /// They came to an outcome, or stopped the message.
    Ended(Result<PipelineOutcome, PipelineError>),
    /// The task that ran them did not end.
    Lost(String),
}

/// The details of a list of findings.
pub open spec fn details(list: Seq<pre_send::AssessmentView>) -> Seq<Seq<char>> {
    list.map_values(|a: pre_send::AssessmentView| a.detail)
}

impl OutboundSetting {
    /// What is left of a text after the hooks have run, or what is answered.
    pub open spec fn closing(&self, draft: OutboundDraft<'_>, run: HookRun) -> Result<
        PreparedView,
        JsonView,
    > {
        match run {
            HookRun::Lost(e) => Err(json::error_view("pre-send pipeline task failed: "@ + e@)),
            HookRun::Ended(Err(e)) => Err(json::error_view(e.message())),
            HookRun::Ended(Ok(outcome)) => {
                let text = marked(
                    match outcome@.final_text {
                        Some(t) => t,
                        None => draft.text@,
                    },
                    self.locators(*draft.evidence_keys),
                );
                match outcome@.decision {
                    DecisionView::Halt { reason } => Err(
                        JsonView::Object(
                            seq![
                                ("error"@, JsonView::Text(reason)),
                                (
                                    "pre_send_feedback"@,
                                    json::strings_view(details(outcome@.to_construct)),
                                ),
                            ],
                        ),
                    ),
                    DecisionView::Redirect { channel_id } => match redirect_refusal(
                        draft.surface,
                    ) {
                        Some(e) => Err(json::error_view(e)),
                        None => if !self.gate.allowed(channel_id) {
                            Err(json::error_view(not_permitted(channel_id)))
                        } else {
                            let destination = OutboundDestination::Channel(channel_id);
                            Ok(
                                PreparedView {
                                    destination,
                                    text,
                                    reply_to: if draft.destination == destination {
                                        draft.reply_to
                                    } else {
                                        None
                                    },
                                    surface: draft.surface,
                                },
                            )
                        },
                    },
                    _ => Ok(
                        PreparedView {
                            destination: draft.destination,
                            text,
                            reply_to: draft.reply_to,
                            surface: draft.surface,
                        },
                    ),
                }
            },
        }
    }

    /// What is left of a text after the hooks have run. A reference to the message
    /// that is replied to is dropped where the text goes to another channel.
    pub fn finish_outbound(&self, draft: &OutboundDraft<'_>, run: HookRun) -> (r: Result<
        PreparedOutbound,
        Json,
    >)
        ensures
            match r {
                Ok(p) => self.closing(*draft, run) == Ok::<PreparedView, JsonView>(p@),
                Err(e) => self.closing(*draft, run) == Err::<PreparedView, JsonView>(e@),
            },
            run matches HookRun::Ended(Ok(outcome)) ==> match outcome@.decision {
                DecisionView::Redirect { channel_id } => match r {
                    Ok(p) => p.destination == OutboundDestination::Channel(channel_id)
                        && self.gate.allowed(channel_id) && p.reply_to == if draft.destination
                        == OutboundDestination::Channel(channel_id) {
                        draft.reply_to
                    } else {
                        None
                    },
                    Err(_) => draft.surface == OutboundSurface::EditMessage || draft.surface
                        == OutboundSurface::VoiceBeforeTts || !self.gate.allowed(channel_id),
                },
                DecisionView::Halt { .. } => r is Err,
                _ => r matches Ok(p) && p.destination == draft.destination && p.reply_to
                    == draft.reply_to,
            },
            run matches HookRun::Ended(Err(_)) ==> r is Err,
            run is Lost ==> r is Err,
    {
        let outcome: PipelineOutcome = match run {
            HookRun::Lost(e) => {
                let mut message: String = "pre-send pipeline task failed: ".to_owned();
                message.append(e.as_str());
                return Err(Json::error(message));
            },
            HookRun::Ended(Err(e)) => {
                return Err(Json::error(e.to_string()));
            },
            HookRun::Ended(Ok(outcome)) => outcome,
        };
        let none: EvidenceKeys = EvidenceKeys::empty();
        let keys: &EvidenceKeys = if self.evidence_markers_enabled {
            draft.evidence_keys
        } else {
            &none
        };
        assert(text::texts(keys.locators@) =~= self.locators(*draft.evidence_keys));
        let mut destination: OutboundDestination = draft.destination;
        let mut reply_to: Option<u64> = draft.reply_to;
        match outcome.decision() {
            HookDecision::Halt { reason } => {
                broadcast use json::lemma_json_view;

                let feedback: Vec<String> = feedback_details(&outcome);
                let mut answer: Object = Object::new();
                answer.put("error", Json::string(reason.as_str()));
                answer.put("pre_send_feedback", json::strings(&feedback));
                assert(answer.fields() =~= seq![
                    ("error"@, JsonView::Text(reason@)),
                    ("pre_send_feedback"@, json::strings_view(details(outcome@.to_construct))),
                ]);
                return Err(answer.done());
            },
            HookDecision::Redirect { channel_id } => {
                if let Some(e) = SurfacePolicy::for_surface(draft.surface).redirect_error {
                    return Err(Json::error(e.to_owned()));
                }
                let target: u64 = *channel_id;
                if let Err(e) = check_outbound(&self.gate, target) {
                    return Err(e);
                }
                if destination != OutboundDestination::Channel(target) {
                    reply_to = None;
                }
                destination = OutboundDestination::Channel(target);
            },
            HookDecision::Continue | HookDecision::Rewrite { .. } => {},
        }
        let text: &str = match outcome.final_text() {
            Some(t) => t,
            None => draft.text,
        };
        Ok(
            PreparedOutbound {
                destination,
                text: append_markers(text, keys),
                reply_to,
                surface: draft.surface,
            },
        )
    }
}

fn feedback_details(outcome: &PipelineOutcome) -> (r: Vec<String>)
    ensures
        text::texts(r@) == details(outcome@.to_construct),
{
    let findings: &[pre_send::Assessment] = outcome.to_construct().as_slice();
    let mut out: Vec<String> = Vec::new();
    let mut i: usize = 0;
    while i < findings.len()
        invariant
            i <= findings@.len(),
            out@.len() == i,
            forall|k: int| 0 <= k < i ==> (#[trigger] out@[k])@ == findings@[k]@.detail,
        decreases findings@.len() - i,
    {
        out.push(findings[i].detail().to_owned());
        i = i + 1;
    }
    assert(text::texts(out@) =~= details(outcome@.to_construct)) by {
        let list = outcome@.to_construct;
        assert(list == pre_send::assessment_views(findings@));
        assert forall|k: int| 0 <= k < out@.len() implies #[trigger] text::texts(out@)[k]
            == details(list)[k] by {
            assert(out@[k]@ == findings@[k]@.detail);
        }
    }
    out
}

/// A text goes nowhere that it may not go: where there are no hooks, its channel
/// is permitted, and a hook can move it only to a channel that is permitted.
pub proof fn law_prepared_channels_are_permitted(
    setting: OutboundSetting,
    draft: OutboundDraft<'_>,
    run: HookRun,
    channel_id: u64,
)
    ensures
        setting.opening(None, draft) matches Ok(StepView::Ready(p)) ==> (channel_of(p.destination)
            == Some(channel_id) ==> setting.gate.allowed(channel_id)),
        setting.closing(draft, run) matches Ok(p) ==> (channel_of(p.destination) == Some(
            channel_id,
        ) ==> p.destination == draft.destination || setting.gate.allowed(channel_id)),
{
}

/// A text that a hook sent to another channel refers to no message there.
pub proof fn law_moved_texts_refer_to_nothing(
    setting: OutboundSetting,
    draft: OutboundDraft<'_>,
    run: HookRun,
)
    ensures
        setting.closing(draft, run) matches Ok(p) ==> (p.destination != draft.destination
            ==> p.reply_to is None),
{
}

/// Where the hooks send a text to a channel that is permitted, on a way out that allows
/// it, the text goes to that channel, wherever it was to go, and it keeps its reference
/// only where it was to go there anyhow.
pub proof fn law_redirects_are_followed(
    setting: OutboundSetting,
    draft: OutboundDraft<'_>,
    outcome: PipelineOutcome,
    channel_id: u64,
)
    requires
        outcome@.decision == (DecisionView::Redirect { channel_id }),
        draft.surface != OutboundSurface::EditMessage,
        draft.surface != OutboundSurface::VoiceBeforeTts,
        setting.gate.allowed(channel_id),
    ensures
        setting.closing(draft, HookRun::Ended(Ok(outcome))) matches Ok(p) && {
            &&& p.destination == OutboundDestination::Channel(channel_id)
            &&& draft.destination != OutboundDestination::Channel(channel_id) ==> p.reply_to is None
            &&& draft.destination == OutboundDestination::Channel(channel_id) ==> p.reply_to
                == draft.reply_to
            &&& p.surface == draft.surface
        },
{
}

/// A text that the hooks send elsewhere does not go out at all where it may not go
/// there, nor where it is an edit or is to be spoken.
pub proof fn law_redirects_past_the_rules_are_refused(
    setting: OutboundSetting,
    draft: OutboundDraft<'_>,
    outcome: PipelineOutcome,
    channel_id: u64,
)
    requires
        outcome@.decision == (DecisionView::Redirect { channel_id }),
        draft.surface == OutboundSurface::EditMessage || draft.surface
            == OutboundSurface::VoiceBeforeTts || !setting.gate.allowed(channel_id),
    ensures
        setting.closing(draft, HookRun::Ended(Ok(outcome))) is Err,
{
}

/// A text that the hooks halt does not go out. The answer is an error that gives their
/// reason, and the findings that are meant for the construct go with it.
pub proof fn law_halted_texts_do_not_go_out(
    setting: OutboundSetting,
    draft: OutboundDraft<'_>,
    outcome: PipelineOutcome,
    reason: Seq<char>,
)
    requires
        outcome@.decision == (DecisionView::Halt { reason }),
    ensures
        setting.closing(draft, HookRun::Ended(Ok(outcome))) matches Err(JsonView::Object(fields))
            && fields.len() == 2 && fields[0] == ("error"@, JsonView::Text(reason)) && fields[1].0
            == "pre_send_feedback"@ && fields[1].1 == json::strings_view(
            details(outcome@.to_construct),
        ),
{
}

/// Where the hooks neither halt a text nor send it elsewhere, it goes where it was to
/// go and refers to what it referred to. What goes out is the text that the hooks came
/// to, or else the draft's own, and the marks of what it refers to come behind it.
pub proof fn law_hooks_have_the_last_word_on_the_text(
    setting: OutboundSetting,
    draft: OutboundDraft<'_>,
    outcome: PipelineOutcome,
)
    ensures
        outcome@.decision is Continue || outcome@.decision is Rewrite ==> (setting.closing(
            draft,
            HookRun::Ended(Ok(outcome)),
        ) matches Ok(p) && p.destination == draft.destination && p.reply_to == draft.reply_to
            && p.surface == draft.surface),
        setting.closing(draft, HookRun::Ended(Ok(outcome))) matches Ok(p) ==> {
            let said = match outcome@.final_text {
                Some(t) => t,
                None => draft.text@,
            };
            &&& said.is_prefix_of(p.text)
            &&& !setting.evidence_markers_enabled || draft.evidence_keys.locators@.len() == 0
                ==> p.text == said
        },
{
    let locators = setting.locators(*draft.evidence_keys);
    let said = match outcome@.final_text {
        Some(t) => t,
        None => draft.text@,
    };
    lemma_marks_follow(said, locators);
    assert(draft.evidence_keys.locators@.len() == 0 ==> locators.len() == 0);
}

/// Hooks that fail, or that never end, let nothing out.
pub proof fn law_failed_hooks_let_nothing_out(
    setting: OutboundSetting,
    draft: OutboundDraft<'_>,
    e: PipelineError,
    lost: String,
)
    ensures
        setting.closing(draft, HookRun::Ended(Err(e))) is Err,
        setting.closing(draft, HookRun::Lost(lost)) is Err,
{
}

/// A text is looked at by the hooks wherever there are hooks: none goes out past them.
/// Where there are none, it goes out unchanged but for its marks. Either way one for a
/// channel that is not permitted is refused, and so is one that would pass over a hook
/// that there is not.
pub proof fn law_texts_pass_the_hooks(
    setting: OutboundSetting,
    hooks: Option<Seq<Seq<char>>>,
    draft: OutboundDraft<'_>,
)
    ensures
        hooks is Some ==> !(setting.opening(hooks, draft) matches Ok(StepView::Ready(_))),
        hooks is None ==> !(setting.opening(hooks, draft) matches Ok(StepView::RunHooks { .. })),
        setting.opening(hooks, draft) matches Ok(StepView::Ready(p)) ==> p.destination
            == draft.destination && p.reply_to == draft.reply_to && p.surface == draft.surface
            && draft.text@.is_prefix_of(p.text),
        setting.opening(hooks, draft) matches Ok(StepView::RunHooks { context, bypassed })
            ==> context.text == draft.text@ && context.destination == draft.destination
            && context.reply_to_message_id == draft.reply_to && context.author_id
            == setting.author_id && forall|i: int|
            0 <= i < draft.bypasses@.len() ==> bypassed.contains((#[trigger] draft.bypasses@[i])@)
                && hooks->0.contains(draft.bypasses@[i]@),
        draft.destination matches OutboundDestination::Channel(c) && !setting.gate.allowed(c)
            ==> setting.opening(hooks, draft) is Err,
        hooks is None && draft.bypasses@.len() > 0 ==> setting.opening(hooks, draft) is Err,
{
    lemma_marks_follow(draft.text@, setting.locators(*draft.evidence_keys));
    let bypasses = pre_send::hook_names(draft.bypasses@);
    assert forall|i: int| 0 <= i < draft.bypasses@.len() implies bypasses.to_set().contains(
        (#[trigger] draft.bypasses@[i])@,
    ) && (first_unknown(hooks->0, bypasses) is None ==> hooks->0.contains(
        draft.bypasses@[i]@,
    )) by {
        assert(bypasses[i] == draft.bypasses@[i]@);
        assert(bypasses.contains(bypasses[i]));
        if first_unknown(hooks->0, bypasses) is None {
            lemma_all_known(hooks->0, bypasses, i);
        }
    }
}

proof fn lemma_all_known(names: Seq<Seq<char>>, bypasses: Seq<Seq<char>>, i: int)
    requires
        first_unknown(names, bypasses) is None,
        0 <= i < bypasses.len(),
    ensures
        names.contains(bypasses[i]),
    decreases i,
{
    if i > 0 {
        assert(bypasses.skip(1)[i - 1] == bypasses[i]);
        lemma_all_known(names, bypasses.skip(1), i - 1);
    }
}

proof fn lemma_marks_follow(text: Seq<char>, locators: Seq<Seq<char>>)
    ensures
        text.is_prefix_of(marked(text, locators)),
        locators.len() == 0 ==> marked(text, locators) == text,
    decreases locators.len(),
{
    if locators.len() > 0 {
        lemma_marks_follow(text, locators.drop_last());
    }
}

/// Switched off, references leave the text as it is.
pub proof fn law_disabled_evidence_changes_no_text(
    setting: OutboundSetting,
    draft: OutboundDraft<'_>,
)
    requires
        !setting.evidence_markers_enabled,
    ensures
        setting.opening(None, draft) matches Ok(StepView::Ready(p)) ==> p.text == draft.text@,
{
}

// ── Replying ────────────────────────────────────────────────────────────────

/// Which chunks of a reply refer to a message.
#[derive(Clone, Copy, Debug, PartialEq, Eq, Structural)]
pub enum ReplyToMode {
    /// None.
    Off,
    /// The first.
    First,
    /// All: the first to the message that is replied to, the others to the first.
    All,
}

/// How replies are delivered.
pub struct DeliverySettings {
    /// The most characters of a chunk; zero for the default.
    pub text_chunk_limit: usize,
    pub chunk_mode: ChunkMode,
    pub reply_to_mode: ReplyToMode,
    pub evidence_markers_enabled: bool,
    pub contradictionary: Option<Contradictionary>,
    /// How long a message is held.
    pub hold_ttl: Duration,
    /// How many messages are held at most.
    pub max_pending: usize,
}

/// Marks have to be found again in the text that they were put behind.
pub fn check_attached_evidence(
    evidence_markers_enabled: bool,
    keys: &EvidenceKeys,
    found: &Vec<String>,
) -> (r: Result<(), Json>)
    ensures
        if evidence_markers_enabled && keys.locators@.len() > 0 && found@.len() == 0 {
            r matches Err(e) && e@ == json::error_view(
                "evidence markers cannot be attached inside quoted or fenced content"@,
            )
        } else {
            r is Ok
        },
{
    if evidence_markers_enabled && !keys.is_empty() && found.len() == 0 {
        return Err(
            Json::error(
                "evidence markers cannot be attached inside quoted or fenced content".to_owned(),
            ),
        );
    }
    Ok(())
}

/// Whether a text with these marks, and of so many chunks, is refused.
pub open spec fn splits_evidence(
    evidence_markers_enabled: bool,
    found: nat,
    chunk_count: nat,
) -> bool {
    evidence_markers_enabled && found > 0 && chunk_count > 1
}

/// A text with marks has to fit in one message.
pub fn validate_evidence_chunking(
    evidence_markers_enabled: bool,
    found: &Vec<String>,
    chunk_count: usize,
) -> (r: Result<(), Json>)
    ensures
        if splits_evidence(evidence_markers_enabled, found@.len(), chunk_count as nat) {
            r matches Err(e) && e@ == json::error_view(
                "evidence-bearing messages must fit in one Discord message"@,
            )
        } else {
            r is Ok
        },
{
    if evidence_markers_enabled && found.len() > 0 && chunk_count > 1 {
        return Err(
            Json::error("evidence-bearing messages must fit in one Discord message".to_owned()),
        );
    }
    Ok(())
}

/// What becomes of a text that may go out.
pub enum ReplyStep {
    /// Nothing: this is answered.
    Answer(Json),
    /// It is held. This is answered, and this is noted in the diary.
    Held { answer: Json, note: DiaryRecord },
    /// It is delivered.
    Deliver(ReplyRequest),
}

/// The rules that stop a text.
pub open spec fn stopped_by(contradictionary: Option<Contradictionary>, content: Seq<char>) -> Seq<
    ReasonView,
> {
    match contradictionary {
        Some(c) => judge::blocking(contradictionary::hits_on(c.entries@, content)),
        None => Seq::empty(),
    }
}

/// A reason as JSON: the same shape as in the journal.
pub open spec fn reason_view(reason: Seq<ReasonView>) -> JsonView {
    JsonView::Object(
        seq![
            (
                "matches"@,
                JsonView::Array(
                    reason.map_values(
                        |m: ReasonView|
                            JsonView::Object(
                                match m.reason {
                                    Some(why) => seq![
                                        ("pattern"@, JsonView::Text(m.pattern)),
                                        ("reason"@, JsonView::Text(why)),
                                    ],
                                    None => seq![("pattern"@, JsonView::Text(m.pattern))],
                                },
                            ),
                    ),
                ),
            ),
        ],
    )
}

/// What a bounce is answered with.
pub open spec fn bounce_view(
    handle: Seq<char>,
    reason: Seq<ReasonView>,
    expires_in: Duration,
    parent: Option<Seq<char>>,
) -> JsonView {
    let held = seq![
        ("handle"@, JsonView::Text(handle)),
        ("reason"@, reason_view(reason)),
        ("expires_in_secs"@, JsonView::Unsigned(expires_in.secs_u64())),
        (
            "next"@,
            JsonView::Text(
                "no_rly(handle) sends it verbatim; rephrase(handle, content) sends a replacement (re-checked); ignoring it lets it expire"@,
            ),
        ),
    ];
    JsonView::Object(
        seq![
            (
                "error"@,
                JsonView::Text("⚠️ held by contradictionary: "@ + judge::reason_text(reason)),
            ),
            (
                "held"@,
                JsonView::Object(
                    match parent {
                        Some(p) => held.push(("chained_from"@, JsonView::Text(p))),
                        None => held,
                    },
                ),
            ),
        ],
    )
}

fn match_json(pattern: &str, reason: &Option<String>) -> (r: Json)
    ensures
        r@ == JsonView::Object(
            match *reason {
                Some(why) => seq![
                    ("pattern"@, JsonView::Text(pattern@)),
                    ("reason"@, JsonView::Text(why@)),
                ],
                None => seq![("pattern"@, JsonView::Text(pattern@))],
            },
        ),
{
    let mut out: Object = Object::new();
    out.put("pattern", Json::string(pattern));
    assert(out.fields() =~= seq![("pattern"@, JsonView::Text(pattern@))]);
    if let Some(why) = reason {
        out.put("reason", Json::string(why.as_str()));
        assert(out.fields() =~= seq![
            ("pattern"@, JsonView::Text(pattern@)),
            ("reason"@, JsonView::Text(why@)),
        ]);
    }
    out.done()
}

/// A reason as JSON.
pub fn reason_json(reason: &judge::RejectReason) -> (r: Json)
    ensures
        r@ == reason_view(reason@),
{
    broadcast use json::lemma_json_view;

    let ghost shown = |m: ReasonView|
        JsonView::Object(
            match m.reason {
                Some(why) => seq![
                    ("pattern"@, JsonView::Text(m.pattern)),
                    ("reason"@, JsonView::Text(why)),
                ],
                None => seq![("pattern"@, JsonView::Text(m.pattern))],
            },
        );
    let mut list: Vec<Json> = Vec::new();
    let mut i: usize = 0;
    while i < reason.matches.len()
        invariant
            i <= reason.matches@.len(),
            list@.len() == i,
            shown == (|m: ReasonView|
                JsonView::Object(
                    match m.reason {
                        Some(why) => seq![
                            ("pattern"@, JsonView::Text(m.pattern)),
                            ("reason"@, JsonView::Text(why)),
                        ],
                        None => seq![("pattern"@, JsonView::Text(m.pattern))],
                    },
                )),
            forall|k: int| 0 <= k < i ==> (#[trigger] list@[k])@ == shown(reason.matches@[k]@),
        decreases reason.matches@.len() - i,
    {
        let m: &judge::ReasonEntry = &reason.matches[i];
        list.push(match_json(m.pattern.as_str(), &m.reason));
        i = i + 1;
    }
    assert(json::json_views(list@) =~= reason@.map_values(shown)) by {
        assert forall|k: int| 0 <= k < list@.len() implies #[trigger] json::json_views(list@)[k]
            == reason@.map_values(shown)[k] by {
            assert(list@[k]@ == shown(reason.matches@[k]@));
            assert(reason@[k] == reason.matches@[k]@);
        }
    }
    let mut out: Object = Object::new();
    out.put("matches", Json::Array(list));
    assert(out.fields() =~= seq![("matches"@, JsonView::Array(reason@.map_values(shown)))]);
    out.done()
}

/// What a bounce is answered with: the reason as an error, and how the message is
/// held.
pub fn bounce_json(ticket: &BounceTicket) -> (r: Json)
    ensures
        r@ == bounce_view(
            ticket.handle@,
            ticket.reason@,
            ticket.expires_in,
            queue::handle_opt(ticket.parent),
        ),
{
    broadcast use json::lemma_json_view;

    let mut held: Object = Object::new();
    held.put("handle", Json::string(ticket.handle.as_str()));
    held.put("reason", reason_json(&ticket.reason));
    held.put("expires_in_secs", Json::Unsigned(ticket.expires_in.as_secs_u64()));
    held.put(
        "next",
        Json::string(
            "no_rly(handle) sends it verbatim; rephrase(handle, content) sends a replacement (re-checked); ignoring it lets it expire",
        ),
    );
    let ghost plain = held.fields();
    assert(plain =~= seq![
        ("handle"@, JsonView::Text(ticket.handle@)),
        ("reason"@, reason_view(ticket.reason@)),
        ("expires_in_secs"@, JsonView::Unsigned(ticket.expires_in.secs_u64())),
        (
            "next"@,
            JsonView::Text(
                "no_rly(handle) sends it verbatim; rephrase(handle, content) sends a replacement (re-checked); ignoring it lets it expire"@,
            ),
        ),
    ]);
    if let Some(parent) = &ticket.parent {
        held.put("chained_from", Json::string(parent.as_str()));
    }
    let mut error: String = "⚠️ held by contradictionary: ".to_owned();
    let shown: String = ticket.reason.to_string();
    error.append(shown.as_str());
    let mut out: Object = Object::new();
    let ghost fields = held.fields();
    assert(fields == match ticket.parent {
        Some(p) => plain.push(("chained_from"@, JsonView::Text(p@))),
        None => plain,
    });
    out.put("error", Json::Text(error));
    out.put("held", held.done());
    assert(out.fields() =~= seq![
        (
            "error"@,
            JsonView::Text("⚠️ held by contradictionary: "@ + judge::reason_text(ticket.reason@)),
        ),
        ("held"@, JsonView::Object(fields)),
    ]);
    assert(bounce_view(
        ticket.handle@,
        ticket.reason@,
        ticket.expires_in,
        queue::handle_opt(ticket.parent),
    )->Object_0 =~= out.fields());
    out.done()
}

impl DeliverySettings {
    /// How a text is cut: at most so many characters a chunk, in this way.
    pub fn chunking(&self) -> (r: (usize, ChunkMode))
        ensures
            r == oneshot::chunk_settings(self.text_chunk_limit, self.chunk_mode),
            self.text_chunk_limit == 0 ==> r == (oneshot::DISCORD_MESSAGE_LIMIT, ChunkMode::Paragraph),
            self.text_chunk_limit > 0 ==> r == (self.text_chunk_limit, self.chunk_mode),
    {
        if self.text_chunk_limit == 0 {
            (2000, ChunkMode::Paragraph)
        } else {
            (self.text_chunk_limit, self.chunk_mode)
        }
    }

    /// Judges a text that may go out. One that is stopped is held, and the construct
    /// told why; but one with marks cannot be held. `found` are the marks found in
    /// the text, and `chunk_count` is how many chunks it has.
    pub fn deliver_prepared_reply(
        &self,
        gate: &mut ConsentGate,
        prepared: PreparedOutbound,
        suppress_ping: bool,
        found: &Vec<String>,
        chunk_count: usize,
        now: Instant,
        at: Timestamp,
    ) -> (r: ReplyStep)
        requires
            old(gate).wf(),
            old(gate)@.queue.minted < u64::MAX,
            prepared.surface is Reply || prepared.surface is SendDm,
        ensures
            final(gate).wf(),
            final(gate).handed_over() == old(gate).handed_over(),
            match channel_of(prepared.destination) {
                None => {
                    &&& r matches ReplyStep::Answer(a)
                    &&& a@ == json::error_view(
                        "prepared outbound destination is not a Discord channel"@,
                    )
                    &&& final(gate)@ == old(gate)@
                },
                Some(channel_id) => {
                    let rules = stopped_by(self.contradictionary, prepared.text@);
                    let request = RequestView {
                        channel_id,
                        content: prepared.text@,
                        reply_to_message_id: prepared.reply_to,
                        suppress_ping,
                        pending_diary_records: Seq::empty(),
                        fence_context: None,
                    };
                    if splits_evidence(
                        self.evidence_markers_enabled,
                        found@.len(),
                        chunk_count as nat,
                    ) {
                        &&& r matches ReplyStep::Answer(a)
                        &&& a@ == json::error_view(
                            "evidence-bearing messages must fit in one Discord message"@,
                        )
                        &&& final(gate)@ == old(gate)@
                    } else if rules.len() == 0 {
                        &&& r matches ReplyStep::Deliver(q)
                        &&& q@ == request
                        &&& final(gate)@ == old(gate)@
                    } else if self.evidence_markers_enabled && found@.len() > 0 {
                        &&& r matches ReplyStep::Answer(a)
                        &&& a@ == json::error_view(
                            "evidence-bearing messages cannot enter the no_rly hold lifecycle; revise and send a fresh evidence-bearing reply"@,
                        )
                        &&& final(gate)@ == old(gate)@
                    } else {
                        &&& r matches ReplyStep::Held { answer, note }
                        &&& answer@ == bounce_view(
                            queue::next_handle(old(gate)@.queue),
                            rules,
                            self.hold_ttl,
                            None,
                        )
                        &&& note.kind is Held
                        &&& note.pattern@ == judge::reason_text(rules)
                        &&& note.content@ == prepared.text@
                        &&& consent::bounced_with(
                            old(gate)@,
                            final(gate)@,
                            request,
                            rules,
                            self.hold_ttl,
                            self.max_pending,
                            now,
                            at,
                        )
                    }
                },
            },
    {
        let channel_id: u64 = match prepared.channel_id() {
            Some(c) => c,
            None => {
                return ReplyStep::Answer(
                    Json::error(
                        "prepared outbound destination is not a Discord channel".to_owned(),
                    ),
                );
            },
        };
        if let Err(e) = validate_evidence_chunking(
            self.evidence_markers_enabled,
            found,
            chunk_count,
        ) {
            return ReplyStep::Answer(e);
        }
        let request: ReplyRequest = ReplyRequest {
            channel_id,
            content: prepared.text.clone(),
            reply_to_message_id: prepared.reply_to,
            suppress_ping,
            pending_diary_records: Vec::new(),
            fence_context: None,
        };
        assert(request@.pending_diary_records =~= Seq::<DiaryRecord>::empty());
        if let Some(c) = &self.contradictionary {
            if let Verdict::Bounce(reason) = c.judge(prepared.text.as_str()) {
                if self.evidence_markers_enabled && found.len() > 0 {
                    return ReplyStep::Answer(
                        Json::error(
                            "evidence-bearing messages cannot enter the no_rly hold lifecycle; revise and send a fresh evidence-bearing reply".to_owned(),
                        ),
                    );
                }
                let ticket: BounceTicket = gate.bounce(
                    request,
                    reason,
                    self.hold_ttl,
                    self.max_pending,
                    now,
                    at,
                );
                let note: DiaryRecord = DiaryRecord {
                    kind: DiaryKind::Held,
                    pattern: ticket.reason.to_string(),
                    content: prepared.text,
                };
                return ReplyStep::Held { answer: bounce_json(&ticket), note };
            }
        }
        ReplyStep::Deliver(request)
    }
}

// ── Delivering ──────────────────────────────────────────────────────────────

/// A reply on its way to Discord: the chunks before the next one were posted.
pub struct Delivery {
    pub request: ReplyRequest,
    pub chunks: Vec<String>,
    pub mode: ReplyToMode,
    /// Notes for the diary that wait until the whole reply is out.
    pub records: Vec<DiaryRecord>,
    /// Whether the reply holds a word that is cheered for.
    pub celebrates: bool,
    pub sent_ids: Vec<u64>,
    /// Who the first chunk was posted as.
    pub author: Option<(u64, BotDisplayName)>,
}

/// A chunk to post.
pub struct ChunkPost<'a> {
    pub content: &'a str,
    /// The message that it refers to.
    pub reference: Option<u64>,
    pub suppress_ping: bool,
}

/// A reaction that the construct's own message gets.
pub struct Celebration {
    pub channel_id: u64,
    pub message_id: u64,
    pub author_id: u64,
    pub author_name: BotDisplayName,
}

/// A reply that was delivered.
pub struct Delivered {
    pub message_ids: Vec<u64>,
    /// What is noted in the diary.
    pub diary: Vec<DiaryRecord>,
    pub celebration: Option<Celebration>,
}

/// The mark under a message that is cheered for.
pub const CONTRADICTIONARY_CELEBRATE_REACT: &'static str = "✨";

/// Whether a text holds a word that is cheered for.
pub open spec fn celebrated(contradictionary: Option<Contradictionary>, content: Seq<char>) -> bool {
    contradictionary matches Some(c) && cheers(contradictionary::hits_on(c.entries@, content))
}

/// Whether one of these hits is cheered for.
pub open spec fn cheers(hits: Seq<contradictionary::HitView>) -> bool {
    exists|i: int| 0 <= i < hits.len() && (#[trigger] hits[i]).action is Celebrate
}

/// The message that the `i`th chunk refers to.
pub open spec fn chunk_reference(
    mode: ReplyToMode,
    reply_to: Option<u64>,
    sent: Seq<u64>,
) -> Option<u64> {
    if sent.len() == 0 {
        if mode is Off {
            None
        } else {
            reply_to
        }
    } else if mode is All {
        Some(sent[0])
    } else {
        None
    }
}

fn has_celebrates(hits: &Vec<Hit>) -> (r: bool)
    ensures
        r == cheers(contradictionary::hit_views(hits@)),
{
    let ghost seen = contradictionary::hit_views(hits@);
    let mut i: usize = 0;
    while i < hits.len()
        invariant
            i <= hits@.len(),
            seen == contradictionary::hit_views(hits@),
            forall|k: int| 0 <= k < i ==> !((#[trigger] seen[k]).action is Celebrate),
        decreases hits@.len() - i,
    {
        assert(seen[i as int] == hits@[i as int]@);
        if hits[i].action == Action::Celebrate {
            return true;
        }
        i = i + 1;
    }
    false
}

impl Delivery {
    /// At most every chunk was posted, and it is known who posted the first.
    pub open spec fn wf(&self) -> bool {
        &&& self.sent_ids@.len() <= self.chunks@.len()
        &&& self.sent_ids@.len() > 0 <==> self.author is Some
    }

    /// Starts a delivery. The channel is looked at once more, because a message may
    /// have been held while its channel was taken out of the configuration. `fresh`
    /// are the notes that the contradictionary makes of the text; a request that
    /// carries notes from an earlier attempt keeps those.
    pub fn start(
        settings: &DeliverySettings,
        gate: &OutboundGate,
        request: &ReplyRequest,
        fresh: Vec<DiaryRecord>,
        chunks: Vec<String>,
    ) -> (r: Result<Delivery, DeliverError>)
        ensures
            match r {
                Err(e) => !gate.allowed(request.channel_id) && e@ == (DeliverErrorView {
                    message: not_permitted(request.channel_id),
                    sent_ids: Seq::empty(),
                    undelivered: None,
                    diary_records: Seq::empty(),
                    fence_context: None,
                }),
                Ok(d) => {
                    &&& gate.allowed(request.channel_id)
                    &&& d.wf()
                    &&& d.request@ == request@
                    &&& d.chunks == chunks
                    &&& d.mode == settings.reply_to_mode
                    &&& d.sent_ids@ == Seq::<u64>::empty()
                    &&& d.celebrates == celebrated(settings.contradictionary, request.content@)
                    &&& d.records@ == if request.pending_diary_records@.len() > 0 {
                        request.pending_diary_records@
                    } else if settings.contradictionary is Some {
                        fresh@
                    } else {
                        Seq::empty()
                    }
                },
            },
    {
        if let Err(e) = ensure_outbound(gate, request.channel_id) {
            return Err(DeliverError::total(e));
        }
        let celebrates: bool = match &settings.contradictionary {
            Some(c) => {
                let hits: Vec<Hit> = c.check(request.content.as_str());
                has_celebrates(&hits)
            },
            None => false,
        };
        let records: Vec<DiaryRecord> = if request.pending_diary_records.len() > 0 {
            copy_diary(&request.pending_diary_records)
        } else if settings.contradictionary.is_some() {
            fresh
        } else {
            Vec::new()
        };
        Ok(
            Delivery {
                request: request.clone(),
                chunks,
                mode: settings.reply_to_mode,
                records,
                celebrates,
                sent_ids: Vec::new(),
                author: None,
            },
        )
    }

    /// The chunk to post next, as long as there is one.
    pub fn next_chunk(&self) -> (r: Option<ChunkPost<'_>>)
        requires
            self.wf(),
        ensures
            if self.sent_ids@.len() < self.chunks@.len() {
                r matches Some(p) && p.content@ == self.chunks@[self.sent_ids@.len() as int]@
                    && p.reference == chunk_reference(
                    self.mode,
                    self.request.reply_to_message_id,
                    self.sent_ids@,
                ) && p.suppress_ping == self.request.suppress_ping
            } else {
                r is None
            },
    {
        let i: usize = self.sent_ids.len();
        if i >= self.chunks.len() {
            return None;
        }
        let should_reply: bool = match self.mode {
            ReplyToMode::Off => false,
            ReplyToMode::First => i == 0,
            ReplyToMode::All => true,
        };
        let mut reference: Option<u64> = None;
        if should_reply {
            if i == 0 {
                reference = self.request.reply_to_message_id;
            } else {
                reference = Some(self.sent_ids[0]);
            }
        }
        Some(
            ChunkPost {
                content: self.chunks[i].as_str(),
                reference,
                suppress_ping: self.request.suppress_ping,
            },
        )
    }

    /// Takes note of a chunk that was posted.
    pub fn chunk_sent(self, message_id: u64, author_id: u64, author_name: &str) -> (r: Self)
        requires
            self.wf(),
            self.sent_ids@.len() < self.chunks@.len(),
        ensures
            r.wf(),
            r.sent_ids@ == self.sent_ids@.push(message_id),
            r.request == self.request,
            r.chunks == self.chunks,
            r.mode == self.mode,
            r.records == self.records,
            r.celebrates == self.celebrates,
            if self.sent_ids@.len() == 0 {
                r.author matches Some((id, name)) && id == author_id && longest_start(
                    author_name@,
                    32,
                    name.0@,
                )
            } else {
                r.author == self.author
            },
    {
        let mut next: Delivery = self;
        if next.sent_ids.len() == 0 {
            next.author = Some((author_id, BotDisplayName::from_discord(author_name)));
        }
        next.sent_ids.push(message_id);
        next
    }

    /// What is made of a chunk that could not be posted. Where an earlier chunk was
    /// posted, the rest of the text and the notes are handed back, so that a further
    /// attempt goes on from there.
    pub fn chunk_failed(self, error: &str) -> (r: DeliverError)
        requires
            self.wf(),
            self.sent_ids@.len() < self.chunks@.len(),
        ensures
            r@ == (DeliverErrorView {
                message: "failed to send chunk "@ + text::decimal(self.sent_ids@.len()) + ": "@
                    + error@,
                sent_ids: self.sent_ids@,
                undelivered: if self.sent_ids@.len() == 0 {
                    None
                } else {
                    Some(
                        text::joined(
                            text::texts(self.chunks@).skip(self.sent_ids@.len() as int),
                            "\n\n"@,
                        ),
                    )
                },
                diary_records: if self.sent_ids@.len() > 0
                    || self.request.pending_diary_records@.len() > 0 {
                    self.records@
                } else {
                    Seq::empty()
                },
                fence_context: None,
            }),
    {
        let i: usize = self.sent_ids.len();
        let mut message: String = "failed to send chunk ".to_owned();
        let n: String = text::decimal_string(i as u64);
        message.append(n.as_str());
        message.append(": ");
        message.append(error);
        let undelivered: Option<String> = if i == 0 {
            None
        } else {
            Some(text::join_from(&self.chunks, i, "\n\n"))
        };
        let diary_records: Vec<DiaryRecord> = if i > 0
            || self.request.pending_diary_records.len() > 0 {
            self.records
        } else {
            Vec::new()
        };
        assert(i == 0 && self.request.pending_diary_records@.len() == 0 ==> diary_records@
            =~= Seq::<DiaryRecord>::empty());
        DeliverError {
            message,
            sent_ids: self.sent_ids,
            undelivered,
            diary_records,
            fence_context: None,
        }
    }

    /// Ends a delivery of which every chunk was posted. Only now are the notes
    /// written, and a reply with a word that is cheered for is marked.
    pub fn finish(self) -> (r: Delivered)
        requires
            self.wf(),
            self.sent_ids@.len() == self.chunks@.len(),
        ensures
            r.message_ids == self.sent_ids,
            r.diary == self.records,
            if self.celebrates && self.sent_ids@.len() > 0 {
                r.celebration matches Some(c) && c.channel_id == self.request.channel_id
                    && c.message_id == self.sent_ids@[0] && self.author == Some(
                    (c.author_id, c.author_name),
                )
            } else {
                r.celebration is None
            },
    {
        let mut celebration: Option<Celebration> = None;
        if self.celebrates && self.sent_ids.len() > 0 {
            if let Some((author_id, author_name)) = self.author {
                celebration = Some(
                    Celebration {
                        channel_id: self.request.channel_id,
                        message_id: self.sent_ids[0],
                        author_id,
                        author_name,
                    },
                );
            }
        }
        Delivered { message_ids: self.sent_ids, diary: self.records, celebration }
    }
}

/// What a delivered reply is answered with.
pub open spec fn delivered_view(
    message_ids: Seq<u64>,
    evidence_markers_enabled: bool,
    found: Seq<Seq<char>>,
) -> JsonView {
    let plain = seq![
        ("ok"@, JsonView::Bool(true)),
        ("message_ids"@, json::numbers_view(message_ids)),
    ];
    JsonView::Object(
        if evidence_markers_enabled && found.len() > 0 {
            plain.push(("evidence_locators"@, json::strings_view(found)))
        } else {
            plain
        },
    )
}

/// What a delivered reply is answered with.
pub fn delivered_json(
    message_ids: &Vec<u64>,
    evidence_markers_enabled: bool,
    found: &Vec<String>,
) -> (r: Json)
    ensures
        r@ == delivered_view(message_ids@, evidence_markers_enabled, text::texts(found@)),
{
    broadcast use json::lemma_json_view;

    let mut out: Object = Object::new();
    out.put("ok", Json::Bool(true));
    out.put("message_ids", json::numbers(message_ids));
    assert(out.fields() =~= seq![
        ("ok"@, JsonView::Bool(true)),
        ("message_ids"@, json::numbers_view(message_ids@)),
    ]);
    if evidence_markers_enabled && found.len() > 0 {
        out.put("evidence_locators", json::strings(found));
    }
    out.done()
}

// ── Held messages ───────────────────────────────────────────────────────────

/// What a call on a handle is answered with where it did not go through.
pub open spec fn rejected_view(error: RejectedHandle) -> JsonView {
    match error {
        RejectedHandle::SendFailed { handle, error: _, expires_in } => JsonView::Object(
            seq![
                ("error"@, JsonView::Text(error.message())),
                ("handle_still_live"@, JsonView::Text(handle@)),
                ("expires_in_secs"@, JsonView::Unsigned(expires_in.secs_u64())),
            ],
        ),
        _ => json::error_view(error.message()),
    }
}

/// What a call on a handle is answered with where it did not go through. A handle
/// that is still live is named, so that the construct knows it can try again.
pub fn rejected_handle_json(error: &RejectedHandle) -> (r: Json)
    ensures
        r@ == rejected_view(*error),
{
    broadcast use json::lemma_json_view;

    match error {
        RejectedHandle::SendFailed { handle, error: _, expires_in } => {
            let mut out: Object = Object::new();
            out.put("error", Json::Text(error.to_string()));
            out.put("handle_still_live", Json::string(handle.as_str()));
            out.put("expires_in_secs", Json::Unsigned(expires_in.as_secs_u64()));
            assert(out.fields() =~= rejected_view(*error)->Object_0);
            out.done()
        },
        RejectedHandle::Unknown(_) | RejectedHandle::Expired { .. } => Json::error(
            error.to_string(),
        ),
    }
}

/// What a release is answered with.
pub open spec fn release_view(handle: Seq<char>, result: Result<Released, RejectedHandle>) -> JsonView {
    match result {
        Ok(released) => JsonView::Object(
            seq![
                ("ok"@, JsonView::Bool(true)),
                ("message_ids"@, json::numbers_view(released.message_ids@)),
                ("released"@, JsonView::Text(handle)),
                ("latency_ms"@, JsonView::Unsigned(released.latency_ms)),
            ],
        ),
        Err(e) => rejected_view(e),
    }
}

/// What a release is answered with.
pub fn release_json(handle: &HoldHandle, result: &Result<Released, RejectedHandle>) -> (r: Json)
    ensures
        r@ == release_view(handle@, *result),
{
    broadcast use json::lemma_json_view;

    match result {
        Ok(released) => {
            let mut out: Object = Object::new();
            out.put("ok", Json::Bool(true));
            out.put("message_ids", json::numbers(&released.message_ids));
            out.put("released", Json::string(handle.as_str()));
            out.put("latency_ms", Json::Unsigned(released.latency_ms));
            assert(out.fields() =~= release_view(handle@, *result)->Object_0);
            out.done()
        },
        Err(e) => rejected_handle_json(e),
    }
}

/// Whether a text can replace one that is held. `found` are the marks found in it.
pub fn check_replacement(
    content: &str,
    evidence_markers_enabled: bool,
    found: &Vec<String>,
) -> (r: Result<(), Json>)
    ensures
        if text::is_blank(content@) {
            r matches Err(e) && e@ == json::error_view("rephrase content must not be empty"@)
        } else if evidence_markers_enabled && found@.len() > 0 {
            r matches Err(e) && e@ == json::error_view(
                "evidence-bearing replacements are not supported by rephrase; send a fresh evidence-bearing reply"@,
            )
        } else {
            r is Ok
        },
{
    if text::str_is_blank(content) {
        return Err(Json::error("rephrase content must not be empty".to_owned()));
    }
    if evidence_markers_enabled && found.len() > 0 {
        return Err(
            Json::error(
                "evidence-bearing replacements are not supported by rephrase; send a fresh evidence-bearing reply".to_owned(),
            ),
        );
    }
    Ok(())
}

/// What a rephrase is answered with.
pub open spec fn rephrase_view(
    handle: Seq<char>,
    result: Result<Rephrased, RejectedHandle>,
) -> JsonView {
    match result {
        Ok(Rephrased::Sent { message_ids }) => JsonView::Object(
            seq![
                ("ok"@, JsonView::Bool(true)),
                ("message_ids"@, json::numbers_view(message_ids@)),
                ("rephrased"@, JsonView::Text(handle)),
            ],
        ),
        Ok(Rephrased::ReBounced(ticket)) => bounce_view(
            ticket.handle@,
            ticket.reason@,
            ticket.expires_in,
            queue::handle_opt(ticket.parent),
        ),
        Err(e) => rejected_view(e),
    }
}

/// What a rephrase is answered with, and what is noted in the diary: a replacement
/// that bounced too.
pub fn rephrase_json(
    handle: &HoldHandle,
    content: &str,
    result: &Result<Rephrased, RejectedHandle>,
) -> (r: (Json, Option<DiaryRecord>))
    ensures
        r.0@ == rephrase_view(handle@, *result),
        match *result {
            Ok(Rephrased::ReBounced(ticket)) => r.1 matches Some(note) && note.kind is Held
                && note.pattern@ == judge::reason_text(ticket.reason@) && note.content@ == content@,
            _ => r.1 is None,
        },
{
    broadcast use json::lemma_json_view;

    match result {
        Ok(Rephrased::Sent { message_ids }) => {
            let mut out: Object = Object::new();
            out.put("ok", Json::Bool(true));
            out.put("message_ids", json::numbers(message_ids));
            out.put("rephrased", Json::string(handle.as_str()));
            assert(out.fields() =~= rephrase_view(handle@, *result)->Object_0);
            (out.done(), None)
        },
        Ok(Rephrased::ReBounced(ticket)) => {
            let note: DiaryRecord = DiaryRecord {
                kind: DiaryKind::Held,
                pattern: ticket.reason.to_string(),
                content: content.to_owned(),
            };
            (bounce_json(ticket), Some(note))
        },
        Err(e) => (rejected_handle_json(e), None),
    }
}

// ── Direct messages and files ───────────────────────────────────────────────

/// Whether direct messages can be started at all.
pub fn check_dm_policy(dm_policy: DmPolicy) -> (r: Result<(), Json>)
    ensures
        if dm_policy is Disabled {
            r matches Err(e) && e@ == json::error_view(
                "dm_policy is set to disabled; cannot initiate DMs"@,
            )
        } else {
            r is Ok
        },
{
    match dm_policy {
        DmPolicy::Disabled => Err(
            Json::error("dm_policy is set to disabled; cannot initiate DMs".to_owned()),
        ),
        DmPolicy::Queue | DmPolicy::Drop => Ok(()),
    }
}

/// What becomes of a direct message that may go out.
pub enum DmStep {
    /// Nothing: this is answered.
    Answer(Json),
    /// It is delivered to the channel that a hook sent it to.
    Deliver(PreparedOutbound),
    /// The recipient's channel is opened first.
    OpenChannel(PreparedOutbound),
}

/// What becomes of a direct message that may go out: its marks have to be found
/// again and to fit, and the recipient's channel has to be opened unless a hook
/// sent the message elsewhere.
pub fn route_dm(
    evidence_markers_enabled: bool,
    keys: &EvidenceKeys,
    prepared: PreparedOutbound,
    found: &Vec<String>,
    chunk_count: usize,
) -> (r: DmStep)
    ensures
        if evidence_markers_enabled && keys.locators@.len() > 0 && found@.len() == 0 {
            r matches DmStep::Answer(a) && a@ == json::error_view(
                "evidence markers cannot be attached inside quoted or fenced content"@,
            )
        } else if splits_evidence(evidence_markers_enabled, found@.len(), chunk_count as nat) {
            r matches DmStep::Answer(a) && a@ == json::error_view(
                "evidence-bearing messages must fit in one Discord message"@,
            )
        } else if channel_of(prepared.destination) is Some {
            r == DmStep::Deliver(prepared)
        } else {
            r == DmStep::OpenChannel(prepared)
        },
{
    if let Err(e) = check_attached_evidence(evidence_markers_enabled, keys, found) {
        return DmStep::Answer(e);
    }
    if let Err(e) = validate_evidence_chunking(evidence_markers_enabled, found, chunk_count) {
        return DmStep::Answer(e);
    }
    if prepared.channel_id().is_some() {
        return DmStep::Deliver(prepared);
    }
    DmStep::OpenChannel(prepared)
}

/// An answer with a channel put into it: in place of the one that it named, else
/// behind its other fields. What is no object stays as it is.
pub open spec fn with_channel(answer: JsonView, channel_id: u64) -> JsonView {
    match answer {
        JsonView::Object(fields) => JsonView::Object(
            json::put_field(fields, "channel_id"@, json::id_view(channel_id)),
        ),
        _ => answer,
    }
}

/// Puts the channel of a direct message into the answer.
pub fn add_dm_channel_receipt(result: Json, channel_id: u64) -> (r: Json)
    ensures
        r@ == with_channel(result@, channel_id),
{
    result.with_field("channel_id", Json::id(channel_id))
}

/// What a direct message to a new channel is answered with: the channel is added
/// where the message was delivered.
pub fn dm_answer(result: Json, channel_id: u64) -> (r: Json)
    ensures
        r@ == if json::member(result@, "error"@) is Some {
            result@
        } else {
            with_channel(result@, channel_id)
        },
{
    if result.get("error").is_some() {
        return result;
    }
    add_dm_channel_receipt(result, channel_id)
}

/// Whether a file may be sent: hooks can be passed over only where there is a
/// caption, the path is absolute, the channel is permitted, and so is the file.
pub fn check_send_file(
    caption: Option<&str>,
    no_rly_hooks: &Vec<HookName>,
    is_absolute: bool,
    gate: &OutboundGate,
    channel_id: u64,
    file_permitted: bool,
) -> (r: Result<(), Json>)
    ensures
        if caption is None && no_rly_hooks@.len() > 0 {
            r matches Err(e) && e@ == json::error_view(
                "no_rly_hooks cannot be used when no caption is sent"@,
            )
        } else if !is_absolute {
            r matches Err(e) && e@ == json::error_view("file_path must be absolute"@)
        } else if !gate.allowed(channel_id) {
            r matches Err(e) && e@ == json::error_view(not_permitted(channel_id))
        } else if !file_permitted {
            r matches Err(e) && e@ == json::error_view("file_path is not permitted for upload"@)
        } else {
            r is Ok
        },
{
    if let Some(e) = reject_captionless_hook_overrides(caption, no_rly_hooks) {
        return Err(e);
    }
    if !is_absolute {
        return Err(Json::error("file_path must be absolute".to_owned()));
    }
    if let Err(e) = check_outbound(gate, channel_id) {
        return Err(e);
    }
    if !file_permitted {
        return Err(Json::error("file_path is not permitted for upload".to_owned()));
    }
    Ok(())
}

/// Where a file goes: to the channel that its caption was sent to, if it has one.
pub fn attachment_channel(prepared: &Option<PreparedOutbound>, channel_id: u64) -> (r: u64)
    ensures
        r == match *prepared {
            Some(p) => match channel_of(p.destination) {
                Some(c) => c,
                None => channel_id,
            },
            None => channel_id,
        },
{
    match prepared {
        Some(p) => match p.channel_id() {
            Some(c) => c,
            None => channel_id,
        },
        None => channel_id,
    }
}

/// What a message that was posted is answered with.
pub fn posted_json(message_id: u64) -> (r: Json)
    ensures
        r@ == JsonView::Object(
            seq![("ok"@, JsonView::Bool(true)), ("message_id"@, json::id_view(message_id))],
        ),
{
    broadcast use json::lemma_json_view;

    let mut out: Object = Object::new();
    out.put("ok", Json::Bool(true));
    out.put("message_id", Json::id(message_id));
    assert(out.fields() =~= seq![
        ("ok"@, JsonView::Bool(true)),
        ("message_id"@, json::id_view(message_id)),
    ]);
    out.done()
}

/// What anything else that worked is answered with.
pub fn ok_json() -> (r: Json)
    ensures
        r@ == JsonView::Object(seq![("ok"@, JsonView::Bool(true))]),
{
    broadcast use json::lemma_json_view;

    let mut out: Object = Object::new();
    out.put("ok", Json::Bool(true));
    assert(out.fields() =~= seq![("ok"@, JsonView::Bool(true))]);
    out.done()
}

/// The most bytes of an attachment that is downloaded: 25 MiB.
pub const MAX_ATTACHMENT_BYTES: u64 = 26_214_400;

/// Whether an attachment of this size is downloaded.
pub fn check_attachment_size(len: u64) -> (r: Result<(), String>)
    ensures
        if len > MAX_ATTACHMENT_BYTES {
            r matches Err(e) && e@ == "attachment too large: "@ + text::decimal(len as nat)
                + " bytes (max "@ + text::decimal(26_214_400) + ")"@
        } else {
            r is Ok
        },
{
    if len > MAX_ATTACHMENT_BYTES {
        let mut out: String = "attachment too large: ".to_owned();
        let n: String = text::decimal_string(len);
        out.append(n.as_str());
        out.append(" bytes (max ");
        let m: String = text::decimal_string(MAX_ATTACHMENT_BYTES);
        out.append(m.as_str());
        out.append(")");
        return Err(out);
    }
    Ok(())
}

/// The name under which an attachment is saved: its own, or with its number in
/// front where a file of that name is there.
pub fn inbox_name(safe_name: &str, index: usize, taken: bool) -> (r: String)
    ensures
        r@ == if taken {
            text::decimal(index as nat) + "-"@ + safe_name@
        } else {
            safe_name@
        },
{
    if !taken {
        return safe_name.to_owned();
    }
    let mut out: String = text::decimal_string(index as u64);
    out.append("-");
    out.append(safe_name);
    out
}

/// What a download is answered with.
pub fn saved_json(paths: &Vec<String>) -> (r: Json)
    ensures
        r@ == JsonView::Object(seq![("saved"@, json::strings_view(text::texts(paths@)))]),
{
    let mut out: Object = Object::new();
    out.put("saved", json::strings(paths));
    assert(out.fields() =~= seq![("saved"@, json::strings_view(text::texts(paths@)))]);
    out.done()
}

// ── Reading ─────────────────────────────────────────────────────────────────

/// From where on messages are read.
#[derive(Clone, Copy, Debug, PartialEq, Eq, Structural)]
pub enum MessagePagination {
    Before(u64),
    After(u64),
}

/// From where on messages are read: before one or after one, not both.
pub fn resolve_pagination(before: Option<u64>, after: Option<u64>) -> (r: Result<
    Option<MessagePagination>,
    Json,
>)
    ensures
        match (before, after) {
            (Some(_), Some(_)) => r matches Err(e) && e@ == json::error_view(
                "cannot specify both 'before' and 'after'"@,
            ),
            (Some(id), None) => r == Ok::<Option<MessagePagination>, Json>(
                Some(MessagePagination::Before(id)),
            ),
            (None, Some(id)) => r == Ok::<Option<MessagePagination>, Json>(
                Some(MessagePagination::After(id)),
            ),
            (None, None) => r == Ok::<Option<MessagePagination>, Json>(None),
        },
{
    match (before, after) {
        (Some(_), Some(_)) => Err(
            Json::error("cannot specify both 'before' and 'after'".to_owned()),
        ),
        (Some(id), None) => Ok(Some(MessagePagination::Before(id))),
        (None, Some(id)) => Ok(Some(MessagePagination::After(id))),
        (None, None) => Ok(None),
    }
}

/// A file of a message.
#[derive(Debug, PartialEq, Eq)]
pub struct AttachmentInfo {
    pub filename: String,
    pub url: String,
    pub size: u32,
    pub content_type: Option<String>,
}

/// A message that was read.
#[derive(Debug, PartialEq, Eq)]
pub struct MessageInfo {
    pub id: u64,
    pub author: String,
    pub author_id: u64,
    pub content: String,
    /// When it was posted, in the configured time zone.
    pub timestamp: String,
    pub attachments: Vec<AttachmentInfo>,
    /// What the marks in the message refer to, where they are looked for.
    pub evidence: Option<Json>,
}

/// A file as JSON, with its content type where that is asked for.
pub open spec fn attachment_view(a: AttachmentInfo, with_type: bool) -> JsonView {
    let plain = seq![
        ("name"@, JsonView::Text(a.filename@)),
        ("url"@, JsonView::Text(a.url@)),
        ("size"@, JsonView::Unsigned(a.size as u64)),
    ];
    JsonView::Object(
        if with_type {
            plain.push(
                (
                    "content_type"@,
                    match a.content_type {
                        Some(t) => JsonView::Text(t@),
                        None => JsonView::Null,
                    },
                ),
            )
        } else {
            plain
        },
    )
}

/// A message as JSON.
pub open spec fn message_view(
    evidence_markers_enabled: bool,
    m: MessageInfo,
    with_types: bool,
) -> JsonView {
    let plain = seq![
        ("id"@, json::id_view(m.id)),
        ("author"@, JsonView::Text(m.author@)),
        ("author_id"@, json::id_view(m.author_id)),
        ("content"@, JsonView::Text(m.content@)),
        ("timestamp"@, JsonView::Text(m.timestamp@)),
        (
            "attachments"@,
            JsonView::Array(
                m.attachments@.map_values(|a: AttachmentInfo| attachment_view(a, with_types)),
            ),
        ),
    ];
    JsonView::Object(
        if evidence_markers_enabled && m.evidence is Some {
            plain.push(("evidence"@, m.evidence->0@))
        } else {
            plain
        },
    )
}

fn attachment_json(a: &AttachmentInfo, with_type: bool) -> (r: Json)
    ensures
        r@ == attachment_view(*a, with_type),
{
    broadcast use json::lemma_json_view;

    let mut out: Object = Object::new();
    out.put("name", Json::string(a.filename.as_str()));
    out.put("url", Json::string(a.url.as_str()));
    out.put("size", Json::Unsigned(a.size as u64));
    if with_type {
        let kind: Json = match &a.content_type {
            Some(t) => Json::string(t.as_str()),
            None => Json::Null,
        };
        out.put("content_type", kind);
    }
    assert(out.fields() =~= attachment_view(*a, with_type)->Object_0);
    out.done()
}

fn project_message(evidence_markers_enabled: bool, m: &MessageInfo, with_types: bool) -> (r: Json)
    ensures
        r@ == message_view(evidence_markers_enabled, *m, with_types),
{
    broadcast use json::lemma_json_view;

    let ghost shown = |a: AttachmentInfo| attachment_view(a, with_types);
    let mut files: Vec<Json> = Vec::new();
    let mut i: usize = 0;
    while i < m.attachments.len()
        invariant
            i <= m.attachments@.len(),
            files@.len() == i,
            shown == (|a: AttachmentInfo| attachment_view(a, with_types)),
            forall|k: int| 0 <= k < i ==> (#[trigger] files@[k])@ == shown(m.attachments@[k]),
        decreases m.attachments@.len() - i,
    {
        files.push(attachment_json(&m.attachments[i], with_types));
        i = i + 1;
    }
    assert(json::json_views(files@) =~= m.attachments@.map_values(shown));
    let mut out: Object = Object::new();
    out.put("id", Json::id(m.id));
    out.put("author", Json::string(m.author.as_str()));
    out.put("author_id", Json::id(m.author_id));
    out.put("content", Json::string(m.content.as_str()));
    out.put("timestamp", Json::string(m.timestamp.as_str()));
    out.put("attachments", Json::Array(files));
    if evidence_markers_enabled {
        if let Some(evidence) = &m.evidence {
            out.put("evidence", evidence.copy());
        }
    }
    assert(out.fields() =~= message_view(evidence_markers_enabled, *m, with_types)->Object_0);
    out.done()
}

/// A message as JSON: the shape that every tool which reads messages answers with.
pub fn message_json(evidence_markers_enabled: bool, m: &MessageInfo) -> (r: Json)
    ensures
        r@ == message_view(evidence_markers_enabled, *m, false),
{
    project_message(evidence_markers_enabled, m, false)
}

/// A single message as JSON, with the content types of its files.
pub fn get_message_json(evidence_markers_enabled: bool, m: &MessageInfo) -> (r: Json)
    ensures
        r@ == message_view(evidence_markers_enabled, *m, true),
{
    project_message(evidence_markers_enabled, m, true)
}

/// Whether messages stand oldest first.
pub open spec fn oldest_first(messages: Seq<MessageInfo>) -> bool {
    forall|i: int, j: int|
        0 <= i < j < messages.len() ==> (#[trigger] messages[i]).id <= (#[trigger] messages[j]).id
}

/// Whether `sorted` are these messages, oldest first.
pub open spec fn in_order(sorted: Seq<MessageInfo>, messages: Seq<MessageInfo>) -> bool {
    oldest_first(sorted) && sorted.to_multiset() == messages.to_multiset()
}

/// Sorts messages, oldest first.
pub fn sort_messages(messages: Vec<MessageInfo>) -> (r: Vec<MessageInfo>)
    ensures
        in_order(r@, messages@),
{
    broadcast use {vstd::seq_lib::group_to_multiset_ensures, vstd::seq_lib::to_multiset_insert};

    let mut rest: Vec<MessageInfo> = messages;
    let mut out: Vec<MessageInfo> = Vec::new();
    let ghost all = rest@.to_multiset();
    assert(out@.to_multiset().add(rest@.to_multiset()) =~= all);
    while rest.len() > 0
        invariant
            oldest_first(out@),
            out@.to_multiset().add(rest@.to_multiset()) == all,
        decreases rest@.len(),
    {
        broadcast use {
            vstd::seq_lib::group_to_multiset_ensures,
            vstd::seq_lib::to_multiset_insert,
        };

        let ghost before = out@;
        let ghost had = rest@;
        let mut at: usize = 0;
        let m: MessageInfo = match rest.pop() {
            Some(m) => m,
            None => {
                return out;
            },
        };
        assert(had =~= rest@.push(m));
        while at < out.len() && out[at].id <= m.id
            invariant
                at <= out@.len(),
                out@ == before,
                forall|k: int| 0 <= k < at ==> (#[trigger] out@[k]).id <= m.id,
            ensures
                at < out@.len() ==> out@[at as int].id > m.id,
            decreases out@.len() - at,
        {
            at = at + 1;
        }
        out.insert(at, m);
        assert(out@.to_multiset().add(rest@.to_multiset()) =~= before.to_multiset().add(
            had.to_multiset(),
        ));
    }
    assert(rest@.to_multiset() =~= vstd::multiset::Multiset::empty()) by {
        assert(rest@ =~= Seq::empty());
    }
    assert(out@.to_multiset() =~= all);
    out
}

/// Messages as JSON.
pub open spec fn messages_view(
    evidence_markers_enabled: bool,
    messages: Seq<MessageInfo>,
) -> JsonView {
    JsonView::Array(
        messages.map_values(|m: MessageInfo| message_view(evidence_markers_enabled, m, false)),
    )
}

/// Messages as JSON.
pub fn messages_json(evidence_markers_enabled: bool, messages: &Vec<MessageInfo>) -> (r: Json)
    ensures
        r@ == messages_view(evidence_markers_enabled, messages@),
{
    broadcast use json::lemma_json_view;

    let ghost shown = |m: MessageInfo| message_view(evidence_markers_enabled, m, false);
    let mut out: Vec<Json> = Vec::new();
    let mut i: usize = 0;
    while i < messages.len()
        invariant
            i <= messages@.len(),
            out@.len() == i,
            shown == (|m: MessageInfo| message_view(evidence_markers_enabled, m, false)),
            forall|k: int| 0 <= k < i ==> (#[trigger] out@[k])@ == shown(messages@[k]),
        decreases messages@.len() - i,
    {
        out.push(message_json(evidence_markers_enabled, &messages[i]));
        i = i + 1;
    }
    assert(json::json_views(out@) =~= messages@.map_values(shown));
    Json::Array(out)
}

/// Whether there may be more messages: the page was full, and not empty.
pub open spec fn may_have_more(count: nat, limit: u8) -> bool {
    limit > 0 && count == limit
}

/// What a page of messages is answered with.
pub open spec fn page_view(
    evidence_markers_enabled: bool,
    sorted: Seq<MessageInfo>,
    limit: u8,
) -> JsonView {
    JsonView::Object(
        seq![
            ("messages"@, messages_view(evidence_markers_enabled, sorted)),
            ("count"@, JsonView::Unsigned(sorted.len() as u64)),
            ("has_more"@, JsonView::Bool(may_have_more(sorted.len(), limit))),
        ],
    )
}

/// What the messages of a channel are answered with, oldest first. Whether there
/// may be more is said only where a page was asked for.
pub fn build_fetch_response(
    evidence_markers_enabled: bool,
    messages: Vec<MessageInfo>,
    paginating: bool,
    limit: u8,
) -> (r: Json)
    ensures
        exists|sorted: Seq<MessageInfo>| #[trigger]
            in_order(sorted, messages@) && r@ == if paginating {
                page_view(evidence_markers_enabled, sorted, limit)
            } else {
                JsonView::Object(
                    seq![("messages"@, messages_view(evidence_markers_enabled, sorted))],
                )
            },
{
    if paginating {
        return new_since_response(evidence_markers_enabled, messages, limit);
    }
    let sorted: Vec<MessageInfo> = sort_messages(messages);
    let mut out: Object = Object::new();
    out.put("messages", messages_json(evidence_markers_enabled, &sorted));
    assert(out.fields() =~= seq![("messages"@, messages_view(evidence_markers_enabled, sorted@))]);
    assert(in_order(sorted@, messages@));
    out.done()
}

/// What the messages after a given one are answered with, oldest first.
pub fn new_since_response(
    evidence_markers_enabled: bool,
    messages: Vec<MessageInfo>,
    limit: u8,
) -> (r: Json)
    ensures
        exists|sorted: Seq<MessageInfo>| #[trigger]
            in_order(sorted, messages@) && r@ == page_view(evidence_markers_enabled, sorted, limit),
{
    broadcast use json::lemma_json_view;

    let sorted: Vec<MessageInfo> = sort_messages(messages);
    let count: usize = sorted.len();
    let mut out: Object = Object::new();
    out.put("messages", messages_json(evidence_markers_enabled, &sorted));
    out.put("count", Json::Unsigned(count as u64));
    out.put("has_more", Json::Bool(limit > 0 && count == limit as usize));
    assert(out.fields() =~= page_view(evidence_markers_enabled, sorted@, limit)->Object_0);
    assert(in_order(sorted@, messages@));
    out.done()
}

/// What the pinned messages of a channel are answered with, oldest first.
pub fn build_pins_response(evidence_markers_enabled: bool, messages: Vec<MessageInfo>) -> (r: Json)
    ensures
        exists|sorted: Seq<MessageInfo>| #[trigger]
            in_order(sorted, messages@) && r@ == JsonView::Object(
                seq![
                    ("messages"@, messages_view(evidence_markers_enabled, sorted)),
                    ("count"@, JsonView::Unsigned(sorted.len() as u64)),
                ],
            ),
{
    broadcast use json::lemma_json_view;

    let sorted: Vec<MessageInfo> = sort_messages(messages);
    let count: usize = sorted.len();
    let mut out: Object = Object::new();
    out.put("messages", messages_json(evidence_markers_enabled, &sorted));
    out.put("count", Json::Unsigned(count as u64));
    assert(out.fields() =~= seq![
        ("messages"@, messages_view(evidence_markers_enabled, sorted@)),
        ("count"@, JsonView::Unsigned(sorted@.len() as u64)),
    ]);
    assert(in_order(sorted@, messages@));
    out.done()
}

/// A page never invents or drops a message, and an empty one never claims that
/// there is more.
pub proof fn law_pages_hold_what_was_read(
    sorted: Seq<MessageInfo>,
    messages: Seq<MessageInfo>,
    limit: u8,
)
    requires
        in_order(sorted, messages),
    ensures
        sorted.len() == messages.len(),
        forall|m: MessageInfo| sorted.contains(m) <==> messages.contains(m),
        messages.len() == 0 ==> !may_have_more(sorted.len(), limit),
{
    broadcast use vstd::seq_lib::group_to_multiset_ensures;

    assert(sorted.len() == sorted.to_multiset().len());
    assert(messages.len() == messages.to_multiset().len());
    assert forall|m: MessageInfo| sorted.contains(m) <==> messages.contains(m) by {
        assert(sorted.to_multiset().count(m) == messages.to_multiset().count(m));
    }
}

// ── Reactions ───────────────────────────────────────────────────────────────

/// What a message is marked with.
#[derive(Debug, PartialEq, Eq)]
pub enum ReactionType {
    /// An emoji of a guild.
    Custom { animated: bool, id: u64, name: Option<String> },
    /// An emoji of Unicode.
    Unicode(String),
}

/// The three parts between the angle brackets of a custom emoji: `a` or nothing,
/// the name, and the id.
pub open spec fn emoji_parts(emoji: Seq<char>) -> Option<(Seq<char>, Seq<char>, u64)> {
    let t = text::trimmed(emoji);
    if t.len() >= 2 && t[0] == '<' && t.last() == '>' {
        let parts = text::pieces(t.subrange(1, t.len() - 1), ':');
        if parts.len() == 3 {
            match text::parsed_u64(parts[2]) {
                Some(id) => Some((parts[0], parts[1], id)),
                None => None,
            }
        } else {
            None
        }
    } else {
        None
    }
}

/// Reads an emoji: `<:name:id>` or `<a:name:id>` for one of a guild, anything else
/// as it stands. No emoji of a guild has the id zero.
pub fn parse_reaction_type(emoji: &str) -> (r: Result<ReactionType, String>)
    ensures
        match emoji_parts(emoji@) {
            Some((kind, name, id)) => if id == 0 {
                r matches Err(e) && e@ == "invalid custom emoji "@ + text::debug_text(
                    text::trimmed(emoji@),
                ) + ": emoji ID must be nonzero"@
            } else {
                r matches Ok(ReactionType::Custom { animated, id: i, name: Some(n) }) && animated
                    == (kind == "a"@) && i == id && n@ == name
            },
            None => r matches Ok(ReactionType::Unicode(e)) && e@ == emoji@,
        },
{
    let trimmed: String = text::trim(emoji);
    let chars: Vec<char> = text::chars_of(trimmed.as_str());
    let len: usize = chars.len();
    if len >= 2 && chars[0] == '<' && chars[len - 1] == '>' {
        let inner: String = text::string_between(&chars, 1, len - 1);
        let parts: Vec<String> = text::split(inner.as_str(), ':');
        assert(text::texts(parts@) == text::pieces(
            text::trimmed(emoji@).subrange(1, len - 1),
            ':',
        ));
        if parts.len() == 3 {
            assert(text::texts(parts@)[0] == parts@[0]@);
            assert(text::texts(parts@)[1] == parts@[1]@);
            assert(text::texts(parts@)[2] == parts@[2]@);
            if let Some(id) = text::parse_u64(parts[2].as_str()) {
                if id == 0 {
                    let mut e: String = "invalid custom emoji ".to_owned();
                    let shown: String = text::debug_string(trimmed.as_str());
                    e.append(shown.as_str());
                    e.append(": emoji ID must be nonzero");
                    return Err(e);
                }
                let animated: bool = text::str_eq(parts[0].as_str(), "a");
                return Ok(
                    ReactionType::Custom { animated, id, name: Some(parts[1].clone()) },
                );
            }
        }
    }
    Ok(ReactionType::Unicode(emoji.to_owned()))
}

/// What the construct is told of a reaction.
#[derive(Debug, PartialEq, Eq)]
pub struct ReactionNotice {
    pub chat_id: u64,
    pub message_id: u64,
    pub user: String,
    pub user_id: u64,
    pub emoji: String,
    /// Whether the bridge itself put it there.
    pub self_react: bool,
}

impl Celebration {
    /// What the construct is told of it: the gateway drops the bot's own reactions,
    /// so this is the only way it learns.
    pub fn notice(&self) -> (r: ReactionNotice)
        ensures
            r.chat_id == self.channel_id,
            r.message_id == self.message_id,
            r.user@ == self.author_name.0@,
            r.user_id == self.author_id,
            r.emoji@ == CONTRADICTIONARY_CELEBRATE_REACT@,
            r.self_react,
    {
        ReactionNotice {
            chat_id: self.channel_id,
            message_id: self.message_id,
            user: self.author_name.as_str().to_owned(),
            user_id: self.author_id,
            emoji: CONTRADICTIONARY_CELEBRATE_REACT.to_owned(),
            self_react: true,
        }
    }
}

// ── What holds of messages ──────────────────────────────────────────────────

/// An operation on a message is stopped exactly where the ledger knows the message from
/// another channel, or does not know it and it is not the construct's own; and exactly
/// then an alert is raised.
pub proof fn law_phantoms_are_stopped(
    ledger: VerifyResult,
    own_send: bool,
    message_id: u64,
    channel_id: u64,
    operation: Seq<char>,
)
    ensures
        phantom_answer(ledger, own_send, message_id, operation) is Some <==> (ledger
            == VerifyResult::Unknown && !own_send) || ledger is ChannelMismatch,
        phantom_alert(ledger, own_send, message_id, channel_id, operation) is Some <==> (ledger
            == VerifyResult::Unknown && !own_send) || ledger is ChannelMismatch,
{
}

/// Edits and spoken texts cannot be sent elsewhere; every other text can.
pub proof fn law_edits_and_speech_stay_where_they_are(surface: OutboundSurface)
    ensures
        redirect_refusal(surface) is Some <==> surface == OutboundSurface::EditMessage || surface
            == OutboundSurface::VoiceBeforeTts,
        surface_text(OutboundSurface::Reply) == "reply"@,
        surface_text(OutboundSurface::EditMessage) == "edit-message"@,
        surface_text(OutboundSurface::SendFileCaption) == "send-file-caption"@,
        surface_text(OutboundSurface::RenderLatexCaption) == "render-latex-caption"@,
        surface_text(OutboundSurface::SendDm) == "send-dm"@,
        surface_text(OutboundSurface::VoiceBeforeTts) == "voice-before-tts"@,
{
}

/// Hooks are told truly what kind of channel a text is for: a recipient and the channels
/// of direct messages are direct, a thread whose parent is known is a thread, and every
/// other channel is public.
pub proof fn law_hooks_know_the_channel(
    setting: OutboundSetting,
    draft: OutboundDraft<'_>,
    channel_id: u64,
    recipient: u64,
)
    ensures
        setting.kind_of(OutboundDestination::DmRecipient(recipient))
            == ChannelType::DirectMessage,
        setting.gate.dm_ids@.contains(channel_id) ==> setting.kind_of(
            OutboundDestination::Channel(channel_id),
        ) == ChannelType::DirectMessage,
        !setting.gate.dm_ids@.contains(channel_id) ==> (setting.kind_of(
            OutboundDestination::Channel(channel_id),
        ) == ChannelType::Thread <==> setting.gate.thread_parents@.contains_key(channel_id)),
        !setting.gate.dm_ids@.contains(channel_id)
            && !setting.gate.thread_parents@.contains_key(channel_id) ==> setting.kind_of(
            OutboundDestination::Channel(channel_id),
        ) == ChannelType::Public,
        setting.context_of(draft).channel_type == setting.kind_of(draft.destination),
        setting.context_of(draft).construct_id == setting.construct_id@,
{
}

/// Hooks are told on which way a text goes out, and what it refers to, where it refers to
/// anything and references are switched on.
pub proof fn law_hooks_know_the_way_out(setting: OutboundSetting, draft: OutboundDraft<'_>)
    ensures
        setting.context_of(draft).metadata.contains_pair(
            "outbound_surface"@,
            surface_text(draft.surface),
        ),
        setting.context_of(draft).metadata.contains_key("evidence_locators"@)
            <==> setting.evidence_markers_enabled && draft.evidence_keys.locators@.len() > 0,
{
    reveal_strlit("outbound_surface");
    reveal_strlit("evidence_locators");
    reveal_strlit("evidence_transport");
    assert("outbound_surface"@.len() == 16);
    assert("evidence_locators"@.len() == 17);
    assert("evidence_transport"@.len() == 18);
    assert(setting.locators(*draft.evidence_keys).len() > 0 <==> setting.evidence_markers_enabled
        && draft.evidence_keys.locators@.len() > 0);
}

/// Each reference is put behind the text, one after the other.
pub proof fn law_marks_are_put_behind(text: Seq<char>, locators: Seq<Seq<char>>, locator: Seq<char>)
    ensures
        marked(text, Seq::empty()) == text,
        marked(text, locators.push(locator)) == marked(text, locators) + " [🔍="@ + locator + "]"@,
{
    assert(locators.push(locator).drop_last() =~= locators);
}

/// A channel is known of a destination that is one, and of no recipient.
pub proof fn law_channels_are_known(channel_id: u64, recipient: u64)
    ensures
        channel_of(OutboundDestination::Channel(channel_id)) == Some(channel_id),
        channel_of(OutboundDestination::DmRecipient(recipient)) is None,
{
}

/// A text is stopped exactly where there is a contradictionary with an entry that blocks
/// and matches it, and it is celebrated exactly where one that celebrates does.
pub proof fn law_entries_stop_and_celebrate(
    contradictionary: Option<Contradictionary>,
    content: Seq<char>,
)
    ensures
        stopped_by(contradictionary, content).len() > 0 <==> (contradictionary matches Some(c)
            && exists|i: int|
            0 <= i < c.entries@.len() && contradictionary::entry_matches(
                #[trigger] c.entries@[i],
                content,
            ) && c.entries@[i].action == Action::Block),
        celebrated(contradictionary, content) <==> (contradictionary matches Some(c) && exists|
            i: int,
        |
            0 <= i < c.entries@.len() && contradictionary::entry_matches(
                #[trigger] c.entries@[i],
                content,
            ) && c.entries@[i].action == Action::Celebrate),
{
    if let Some(c) = contradictionary {
        let entries = c.entries@;
        let hits = contradictionary::hits_on(entries, content);
        judge::law_texts_bounce_on_blocking_entries(entries, content);
        if cheers(hits) {
            let k = choose|k: int| 0 <= k < hits.len() && (#[trigger] hits[k]).action is Celebrate;
            assert(hits.contains(hits[k]));
            contradictionary::law_hits_are_of_the_entries_that_match(entries, content, hits[k]);
        }
        if exists|i: int|
            0 <= i < entries.len() && contradictionary::entry_matches(
                #[trigger] entries[i],
                content,
            ) && entries[i].action == Action::Celebrate {
            let i = choose|i: int|
                0 <= i < entries.len() && contradictionary::entry_matches(
                    #[trigger] entries[i],
                    content,
                ) && entries[i].action == Action::Celebrate;
            let hit = contradictionary::hit_of(entries[i]);
            contradictionary::law_hits_are_of_the_entries_that_match(entries, content, hit);
            let k = choose|k: int| 0 <= k < hits.len() && hits[k] == hit;
            assert(hits[k].action is Celebrate);
        }
    }
}

/// A text that refers to something must not be cut, and any other may.
pub proof fn law_references_are_not_cut(
    evidence_markers_enabled: bool,
    found: nat,
    chunk_count: nat,
)
    ensures
        splits_evidence(evidence_markers_enabled, found, chunk_count) <==> chunk_count >= 2
            && found >= 1 && evidence_markers_enabled,
{
}

/// With references switched off no chunk of a reply refers to anything. Otherwise the
/// first refers to what is replied to; the later ones refer to the first chunk where all
/// are to refer, and to nothing where only the first is.
pub proof fn law_chunks_refer_as_they_are_told(
    reply_to: Option<u64>,
    sent: Seq<u64>,
    mode: ReplyToMode,
)
    ensures
        chunk_reference(ReplyToMode::Off, reply_to, sent) is None,
        mode != ReplyToMode::Off && sent.len() == 0 ==> chunk_reference(mode, reply_to, sent)
            == reply_to,
        sent.len() > 0 ==> chunk_reference(ReplyToMode::First, reply_to, sent) is None,
        sent.len() > 0 ==> chunk_reference(ReplyToMode::All, reply_to, sent) == Some(sent[0]),
{
}

/// What is held is answered with an error, the handle that it is held under, the time
/// that is left and, where it bounced again, the handle before.
pub proof fn law_bounces_are_answered_with_their_handle(
    handle: Seq<char>,
    reason: Seq<ReasonView>,
    expires_in: Duration,
    parent: Option<Seq<char>>,
)
    ensures
        bounce_view(handle, reason, expires_in, parent) matches JsonView::Object(fields)
            && fields[0].0 == "error"@ && fields[1].0 == "held"@ && (fields[1].1 matches JsonView::Object(
            held,
        ) && held.contains(("handle"@, JsonView::Text(handle))) && held.contains(
            ("reason"@, reason_view(reason)),
        ) && held.contains(("expires_in_secs"@, JsonView::Unsigned(expires_in.secs_u64()))) && (
        parent matches Some(p) ==> held.contains(("chained_from"@, JsonView::Text(p)))) && (
        parent is None ==> held.len() == 4)),
{
    let fields = bounce_view(handle, reason, expires_in, parent)->Object_0;
    let held = fields[1].1->Object_0;
    assert(held.contains(held[0]));
    assert(held.contains(held[1]));
    assert(held.contains(held[2]));
    if parent is Some {
        assert(held.contains(held[4]));
    }
}

/// A delivery is answered with `ok` and with every message; a release and a replacement as
/// well, each under its handle. One that failed says that its handle is still live, and
/// for how long.
pub proof fn law_deliveries_are_answered_with_their_messages(
    message_ids: Seq<u64>,
    evidence_markers_enabled: bool,
    found: Seq<Seq<char>>,
    handle: Seq<char>,
    released: Result<Released, RejectedHandle>,
    rephrased: Result<Rephrased, RejectedHandle>,
)
    ensures
        delivered_view(message_ids, evidence_markers_enabled, found) matches JsonView::Object(
            fields,
        ) && fields[0] == ("ok"@, JsonView::Bool(true)) && fields[1] == (
            "message_ids"@,
            json::numbers_view(message_ids),
        ) && (fields.len() == 3 <==> evidence_markers_enabled && found.len() > 0),
        released matches Ok(x) ==> (release_view(handle, released) matches JsonView::Object(fields)
            && fields[0] == ("ok"@, JsonView::Bool(true)) && fields[1] == (
            "message_ids"@,
            json::numbers_view(x.message_ids@),
        ) && fields[2] == ("released"@, JsonView::Text(handle))),
        rephrased matches Ok(Rephrased::Sent { message_ids }) ==> (rephrase_view(
            handle,
            rephrased,
        ) matches JsonView::Object(fields) && fields[0] == ("ok"@, JsonView::Bool(true))
            && fields[1] == ("message_ids"@, json::numbers_view(message_ids@)) && fields[2] == (
            "rephrased"@,
            JsonView::Text(handle),
        )),
        released matches Err(e) ==> (release_view(handle, released) matches JsonView::Object(fields)
            && fields[0] == ("error"@, JsonView::Text(e.message())) && (e is SendFailed
            <==> fields.len() == 3) && (e is SendFailed ==> fields[1] == (
            "handle_still_live"@,
            JsonView::Text(e->SendFailed_handle@),
        ) && fields[2] == (
            "expires_in_secs"@,
            JsonView::Unsigned(e->SendFailed_expires_in.secs_u64()),
        ))),
        rephrased matches Err(e) ==> rephrase_view(handle, rephrased) == rejected_view(e),
{
}

/// The answer to a direct message names its channel, and says the rest as before.
pub proof fn law_direct_messages_name_their_channel(
    fields: Seq<(Seq<char>, JsonView)>,
    channel_id: u64,
    other: Seq<char>,
)
    ensures
        json::member(with_channel(JsonView::Object(fields), channel_id), "channel_id"@) == Some(
            JsonView::Text(text::decimal(channel_id as nat)),
        ),
        other != "channel_id"@ ==> json::member(
            with_channel(JsonView::Object(fields), channel_id),
            other,
        ) == json::member(JsonView::Object(fields), other),
{
    json::law_what_is_put_is_found(fields, "channel_id"@, json::id_view(channel_id), other);
}

/// A message is shown as it is: by its id, who wrote it and when, what it says, and one
/// by one what is attached to it.
pub proof fn law_messages_are_shown_as_they_are(
    evidence_markers_enabled: bool,
    m: MessageInfo,
    with_types: bool,
)
    ensures
        message_view(evidence_markers_enabled, m, with_types) matches JsonView::Object(fields) && {
            &&& fields[0] == ("id"@, JsonView::Text(text::decimal(m.id as nat)))
            &&& fields[1] == ("author"@, JsonView::Text(m.author@))
            &&& fields[2] == ("author_id"@, JsonView::Text(text::decimal(m.author_id as nat)))
            &&& fields[3] == ("content"@, JsonView::Text(m.content@))
            &&& fields[4] == ("timestamp"@, JsonView::Text(m.timestamp@))
            &&& fields[5].0 == "attachments"@
            &&& fields[5].1 matches JsonView::Array(list) && list.len() == m.attachments@.len()
                && forall|i: int|
                0 <= i < list.len() ==> ((#[trigger] list[i]) matches JsonView::Object(a) && a[0]
                    == ("name"@, JsonView::Text(m.attachments@[i].filename@)) && a[1] == (
                    "url"@,
                    JsonView::Text(m.attachments@[i].url@),
                ) && a[2] == ("size"@, JsonView::Unsigned(m.attachments@[i].size as u64)))
            &&& fields.len() == 7 <==> evidence_markers_enabled && m.evidence is Some
            &&& fields.len() == 7 ==> fields[6] == ("evidence"@, m.evidence->0@)
        },
{
}

/// A page shows its messages in order, says how many they are, and that there may be more
/// exactly where it is full.
pub proof fn law_full_pages_may_go_on(
    evidence_markers_enabled: bool,
    sorted: Seq<MessageInfo>,
    limit: u8,
    i: int,
)
    requires
        0 <= i < sorted.len(),
    ensures
        may_have_more(sorted.len(), limit) <==> limit != 0 && sorted.len() == limit,
        page_view(evidence_markers_enabled, sorted, limit) matches JsonView::Object(fields)
            && fields[0].0 == "messages"@ && (fields[0].1 matches JsonView::Array(list)
            && list.len() == sorted.len() && list[i] == message_view(
            evidence_markers_enabled,
            sorted[i],
            false,
        )) && fields[1] == ("count"@, JsonView::Unsigned(sorted.len() as u64)) && fields[2] == (
            "has_more"@,
            JsonView::Bool(may_have_more(sorted.len(), limit)),
        ),
{
}

/// A name that takes no more bytes than there may be is kept whole.
pub proof fn law_short_names_are_kept(s: Seq<char>, max: nat, r: Seq<char>)
    requires
        longest_start(s, max, r),
    ensures
        byte_len(s) <= max ==> r == s,
        r.is_prefix_of(s),
        byte_len(r) <= max,
{
    if r.len() < s.len() {
        lemma_bytes_grow(s, r.len() as int + 1);
    } else {
        assert(s.take(s.len() as int) =~= s);
    }
}

proof fn lemma_bytes_grow(s: Seq<char>, n: int)
    requires
        0 <= n <= s.len(),
    ensures
        byte_len(s.take(n)) <= byte_len(s),
    decreases s.len(),
{
    if n < s.len() {
        lemma_bytes_grow(s.drop_last(), n);
        assert(s.drop_last().take(n) =~= s.take(n));
    } else {
        assert(s.take(n) =~= s);
    }
}

/// A character takes as many bytes as UTF-8 gives it.
pub proof fn law_characters_take_their_bytes(c: char)
    ensures
        1 <= char_width(c) <= 4,
        char_width(c) == 1 <==> c <= '\u{7f}',
        char_width(c) <= 2 <==> c <= '\u{7ff}',
        char_width(c) <= 3 <==> c <= '\u{ffff}',
{
}

/// A custom emoji stands in angle brackets and has a number; anything else is taken for
/// the sign itself.
pub proof fn law_custom_emojis_stand_in_brackets(emoji: Seq<char>)
    ensures
        emoji_parts(emoji) matches Some((kind, name, id)) ==> {
            let t = text::trimmed(emoji);
            &&& t[0] == '<' && t.last() == '>'
            &&& text::pieces(t.subrange(1, t.len() - 1), ':') =~= seq![
                kind,
                name,
                text::pieces(t.subrange(1, t.len() - 1), ':')[2],
            ]
            &&& text::parsed_u64(text::pieces(t.subrange(1, t.len() - 1), ':')[2]) == Some(id)
        },
        MAX_ATTACHMENT_BYTES == 25 * 1024 * 1024,
{
}

/// Messages in order are those that were there, and none stands before an older one.
pub proof fn law_older_messages_come_first(
    sorted: Seq<MessageInfo>,
    messages: Seq<MessageInfo>,
    m: MessageInfo,
    i: int,
    j: int,
)
    requires
        in_order(sorted, messages),
    ensures
        sorted.len() == messages.len(),
        sorted.contains(m) <==> messages.contains(m),
        0 <= i < j < sorted.len() ==> sorted[i].id <= sorted[j].id,
{
    sorted.to_multiset_ensures();
    messages.to_multiset_ensures();
    assert(sorted.contains(m) <==> sorted.to_multiset().count(m) > 0);
    assert(messages.contains(m) <==> messages.to_multiset().count(m) > 0);
}

/// What is said of a channel that may not be written to names it.
pub proof fn law_refused_channels_are_named(channel_id: u64)
    ensures
        not_permitted(channel_id) == "channel "@ + text::decimal(channel_id as nat)
            + " is not a permitted outbound target"@,
{
}

/// Messages are read before some message or after one, and not both: what is asked for is
/// what is read.
pub proof fn law_pages_go_one_way(
    before: Option<u64>,
    after: Option<u64>,
    r: Result<Option<MessagePagination>, Json>,
)
    requires
        call_ensures(resolve_pagination, (before, after), r),
    ensures
        r is Err <==> before is Some && after is Some,
        r matches Ok(Some(MessagePagination::Before(id))) ==> before == Some(id),
        r matches Ok(Some(MessagePagination::After(id))) ==> after == Some(id),
        r matches Ok(None) ==> before is None && after is None,
        before is Some && after is None ==> r is Ok && r->Ok_0 == Some(
            MessagePagination::Before(before->0),
        ),
{
}

/// A file goes out exactly where its path is absolute, it may be sent, the channel may be
/// written to, and no hook is to be passed over without a caption.
pub proof fn law_files_pass_every_check(
    caption: Option<&str>,
    no_rly_hooks: &Vec<HookName>,
    is_absolute: bool,
    gate: &OutboundGate,
    channel_id: u64,
    file_permitted: bool,
    r: Result<(), Json>,
)
    requires
        call_ensures(
            check_send_file,
            (caption, no_rly_hooks, is_absolute, gate, channel_id, file_permitted),
            r,
        ),
    ensures
        r is Ok <==> is_absolute && file_permitted && gate.allowed(channel_id) && (caption is Some
            || no_rly_hooks@.len() == 0),
{
}

/// Nobody is written to where direct messages are switched off.
pub proof fn law_switched_off_direct_messages_do_not_go_out(policy: DmPolicy, r: Result<(), Json>)
    requires
        call_ensures(check_dm_policy, (policy,), r),
    ensures
        r is Err <==> policy == DmPolicy::Disabled,
{
}

/// A channel may be written to where the rules permit it, and only there.
pub proof fn law_only_permitted_channels_are_written_to(
    gate: &OutboundGate,
    channel_id: u64,
    r: Result<(), Json>,
    s: Result<(), String>,
)
    requires
        call_ensures(check_outbound, (gate, channel_id), r),
        call_ensures(ensure_outbound, (gate, channel_id), s),
    ensures
        r is Ok <==> gate.allowed(channel_id),
        s is Ok <==> gate.allowed(channel_id),
{
}

/// No attachment of more than 25 MiB is taken, and every other is.
pub proof fn law_large_attachments_are_left(len: u64, r: Result<(), String>)
    requires
        call_ensures(check_attachment_size, (len,), r),
    ensures
        r is Ok <==> len <= 25 * 1024 * 1024,
{
}

/// A file of a name that is taken gets another, and every other keeps its own.
pub proof fn law_taken_names_are_not_used_again(safe_name: &str, index: usize, taken: bool, r: String)
    requires
        call_ensures(inbox_name, (safe_name, index, taken), r),
    ensures
        !taken ==> r@ == safe_name@,
        taken ==> r@.len() > safe_name@.len() && r@.skip(r@.len() - safe_name@.len()) == safe_name@
            && r@.take(text::decimal(index as nat).len() as int) == text::decimal(index as nat),
{
    reveal_strlit("-");
    if taken {
        let head = text::decimal(index as nat) + "-"@;
        assert(r@ == head + safe_name@);
        assert(r@.skip(head.len() as int) =~= safe_name@);
        assert(r@.take(text::decimal(index as nat).len() as int) =~= text::decimal(index as nat));
    }
}

/// A name of a bot takes 32 bytes at most, and is the start of what Discord gives; one that
/// takes no more is not cut.
pub proof fn law_names_of_bots_are_short(name: &str, r: BotDisplayName)
    requires
        call_ensures(BotDisplayName::from_discord, (name,), r),
    ensures
        byte_len(r.0@) <= 32,
        r.0@.is_prefix_of(name@),
        byte_len(name@) <= 32 ==> r.0@ == name@,
{
    law_short_names_are_kept(name@, 32, r.0@);
}

/// The chunks of a delivery go out one after another, each once: behind one that was sent
/// comes the next, and behind the last comes none.
pub proof fn law_chunks_go_out_in_order(
    before: Delivery,
    message_id: u64,
    author_id: u64,
    author_name: &str,
    after: Delivery,
    first: Option<ChunkPost<'_>>,
    second: Option<ChunkPost<'_>>,
)
    requires
        before.wf(),
        before.sent_ids@.len() < before.chunks@.len(),
        call_ensures(Delivery::next_chunk, (&before,), first),
        call_ensures(
            Delivery::chunk_sent,
            (before, message_id, author_id, author_name),
            after,
        ),
        call_ensures(Delivery::next_chunk, (&after,), second),
    ensures
        first is Some,
        first->0.content@ == before.chunks@[before.sent_ids@.len() as int]@,
        after.chunks == before.chunks,
        after.sent_ids@ == before.sent_ids@.push(message_id),
        second is Some <==> before.sent_ids@.len() + 1 < before.chunks@.len(),
        second is Some ==> second->0.content@ == before.chunks@[before.sent_ids@.len() as int + 1]@,
{
}

/// A delivery that fails tells what went out, and what did not where something went out.
pub proof fn law_failed_chunks_lose_nothing(before: Delivery, error: &str, r: DeliverError)
    requires
        before.wf(),
        before.sent_ids@.len() < before.chunks@.len(),
        call_ensures(Delivery::chunk_failed, (before, error), r),
    ensures
        r@.sent_ids == before.sent_ids@,
        r@.undelivered is Some <==> before.sent_ids@.len() > 0,
        before.sent_ids@.len() > 0 && before.sent_ids@.len() + 1 == before.chunks@.len()
            ==> r@.undelivered == Some(before.chunks@[before.chunks@.len() - 1]@),
        before.sent_ids@.len() > 0 ==> r@.diary_records == before.records@,
{
    if before.sent_ids@.len() > 0 && before.sent_ids@.len() + 1 == before.chunks@.len() {
        let rest = text::texts(before.chunks@).skip(before.sent_ids@.len() as int);
        assert(rest =~= seq![before.chunks@[before.chunks@.len() - 1]@]);
        text::law_joined_texts_grow(Seq::empty(), rest[0], "\n\n"@);
        assert(rest =~= Seq::empty().push(rest[0]));
    }
}

/// A delivery that is done tells of every message, in order, and what there is to celebrate
/// is celebrated at the first.
pub proof fn law_finished_deliveries_tell_of_every_message(before: Delivery, r: Delivered)
    requires
        before.wf(),
        before.sent_ids@.len() == before.chunks@.len(),
        call_ensures(Delivery::finish, (before,), r),
    ensures
        r.message_ids@ == before.sent_ids@,
        r.diary@ == before.records@,
        r.celebration is Some <==> before.celebrates && before.sent_ids@.len() > 0,
        r.celebration is Some ==> r.celebration->0.message_id == before.sent_ids@[0]
            && r.celebration->0.channel_id == before.request.channel_id,
{
}

/// A replacement says something, and carries no evidence where evidence is marked.
pub proof fn law_replacements_say_something(
    content: &str,
    evidence_markers_enabled: bool,
    found: &Vec<String>,
    r: Result<(), Json>,
)
    requires
        call_ensures(check_replacement, (content, evidence_markers_enabled, found), r),
    ensures
        r is Ok <==> !text::is_blank(content@) && !(evidence_markers_enabled && found@.len() > 0),
{
}

/// A direct message to a channel that is known is delivered there, and any other opens one;
/// nothing else happens to it, unless its evidence would not go out whole.
pub proof fn law_direct_messages_go_their_way(
    evidence_markers_enabled: bool,
    keys: &EvidenceKeys,
    prepared: PreparedOutbound,
    found: &Vec<String>,
    chunk_count: usize,
    r: DmStep,
)
    requires
        call_ensures(route_dm, (evidence_markers_enabled, keys, prepared, found, chunk_count), r),
        !evidence_markers_enabled || chunk_count == 1 && (found@.len() > 0 || keys.locators@.len()
            == 0),
    ensures
        r matches DmStep::Deliver(p) ==> p == prepared && (
        prepared.destination is Channel),
        r matches DmStep::OpenChannel(p) ==> p == prepared && !(prepared.destination is Channel),
        !(r is Answer),
{
}

/// Hooks are passed over for a caption only.
pub proof fn law_hooks_are_passed_over_for_captions_only(
    caption: Option<&str>,
    no_rly_hooks: &Vec<HookName>,
    r: Option<Json>,
)
    requires
        call_ensures(reject_captionless_hook_overrides, (caption, no_rly_hooks), r),
    ensures
        r is Some <==> caption is None && no_rly_hooks@.len() > 0,
{
}

/// Evidence that was to be attached is found in the text, and goes out in one message.
pub proof fn law_evidence_goes_out_whole(
    evidence_markers_enabled: bool,
    keys: &EvidenceKeys,
    found: &Vec<String>,
    chunk_count: usize,
    attached: Result<(), Json>,
    whole: Result<(), Json>,
)
    requires
        call_ensures(check_attached_evidence, (evidence_markers_enabled, keys, found), attached),
        call_ensures(
            validate_evidence_chunking,
            (evidence_markers_enabled, found, chunk_count),
            whole,
        ),
    ensures
        attached is Err <==> evidence_markers_enabled && keys.locators@.len() > 0 && found@.len() == 0,
        whole is Err <==> evidence_markers_enabled && found@.len() > 0 && chunk_count > 1,
{
}

/// A file goes to the channel that the hooks chose for its caption, and else to the one
/// that was asked for.
pub proof fn law_files_follow_their_caption(
    prepared: &Option<PreparedOutbound>,
    channel_id: u64,
    r: u64,
)
    requires
        call_ensures(attachment_channel, (prepared, channel_id), r),
    ensures
        *prepared is None ==> r == channel_id,
        *prepared matches Some(p) ==> (p.destination matches OutboundDestination::Channel(c) ==> r == c),
{
}

/// A delivery starts where its channel may be written to, with the text of the request cut
/// up and nothing sent; records that an earlier delivery left come before fresh ones.
pub proof fn law_deliveries_start_with_nothing_sent(
    settings: &DeliverySettings,
    gate: &OutboundGate,
    request: &ReplyRequest,
    fresh: Vec<DiaryRecord>,
    chunks: Vec<String>,
    r: Result<Delivery, DeliverError>,
)
    requires
        call_ensures(Delivery::start, (settings, gate, request, fresh, chunks), r),
    ensures
        r is Ok <==> gate.allowed(request.channel_id),
        r matches Ok(d) ==> d.sent_ids@.len() == 0 && d.chunks == chunks && d.request@ == request@,
        r matches Ok(d) ==> (request.pending_diary_records@.len() > 0 ==> d.records@
            == request.pending_diary_records@),
        r matches Ok(d) ==> (request.pending_diary_records@.len() == 0
            && settings.contradictionary is Some ==> d.records@ == fresh@),
        r matches Err(e) ==> e@.sent_ids.len() == 0 && e@.undelivered is None,
{
}

/// What is attached to a message is told by its name, its place and its size, and by its
/// type where types are asked for.
pub proof fn law_attachments_are_told(a: AttachmentInfo, with_type: bool)
    ensures
        attachment_view(a, with_type) matches JsonView::Object(fields) && {
            &&& fields[0] == ("name"@, JsonView::Text(a.filename@))
            &&& fields[1] == ("url"@, JsonView::Text(a.url@))
            &&& fields[2] == ("size"@, JsonView::Unsigned(a.size as u64))
            &&& fields.len() == if with_type {
                4nat
            } else {
                3nat
            }
            &&& with_type && a.content_type is Some ==> fields[3] == (
                "content_type"@,
                JsonView::Text(a.content_type->0@),
            )
            &&& with_type && a.content_type is None ==> fields[3] == (
                "content_type"@,
                JsonView::Null,
            )
        },
{
}

} // verus!
