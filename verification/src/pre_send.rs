//! Hooks that look at a message before it is sent.
//!
//! A pipeline runs its hooks one after another. In observe mode it only records
//! what they find; in enforce mode it applies what they decide. What the hooks
//! find goes to two sinks, one for the construct and one for the audit.

use vstd::prelude::*;
use crate::table::{self, Key, Table};
use crate::text;

verus! {

// ── Small types ─────────────────────────────────────────────────────────────

/// Whether what hooks decide is applied.
#[derive(Clone, Copy, Debug, PartialEq, Eq, Structural)]
pub enum PipelineMode {
    /// Record what hooks find; change nothing.
    Observe,
    /// Apply rewrites, redirects and halts.
    Enforce,
}

impl Default for PipelineMode {
    fn default() -> (r: Self)
        ensures
            r is Observe,
    {
        PipelineMode::Observe
    }
}

/// The kind of channel that a message goes to.
#[derive(Clone, Copy, Debug, PartialEq, Eq, Structural)]
pub enum ChannelType {
    Public,
    DirectMessage,
    Thread,
}

/// Where a message goes, as far as that is known before it is sent.
#[derive(Clone, Copy, Debug, PartialEq, Eq, Structural)]
pub enum OutboundDestination {
    /// A channel.
    Channel(u64),
    /// A user, whose channel is not known yet.
    DmRecipient(u64),
}

/// Whether a name is made of lower-case letters, digits and inner hyphens.
pub open spec fn is_identifier(name: Seq<char>) -> bool {
    &&& name.len() > 0
    &&& name[0] != '-'
    &&& name.last() != '-'
    &&& forall|i: int|
        0 <= i < name.len() ==> 'a' <= (#[trigger] name[i]) <= 'z' || text::is_digit(name[i])
            || name[i] == '-'
}

fn valid_identifier(name: &str) -> (r: bool)
    ensures
        r == is_identifier(name@),
{
    let chars: Vec<char> = text::chars_of(name);
    if chars.len() == 0 || chars[0] == '-' || chars[chars.len() - 1] == '-' {
        return false;
    }
    let mut i: usize = 0;
    while i < chars.len()
        invariant
            i <= chars@.len(),
            chars@ == name@,
            forall|k: int|
                0 <= k < i ==> 'a' <= (#[trigger] name@[k]) <= 'z' || text::is_digit(name@[k])
                    || name@[k] == '-',
        decreases chars@.len() - i,
    {
        let c: char = chars[i];
        assert(name@[i as int] == c);
        if !((c >= 'a' && c <= 'z') || (c >= '0' && c <= '9') || c == '-') {
            return false;
        }
        i = i + 1;
    }
    true
}

/// The name of a hook.
#[derive(Debug, PartialEq, Eq, Hash, PartialOrd, Ord)]
pub struct HookName(pub String);

impl View for HookName {
    type V = Seq<char>;

    open spec fn view(&self) -> Seq<char> {
        self.0@
    }
}

impl Clone for HookName {
    fn clone(&self) -> (r: Self)
        ensures
            r == *self,
    {
        HookName(self.0.clone())
    }
}

impl Key for HookName {
    type Id = Seq<char>;

    open spec fn id(&self) -> Seq<char> {
        self@
    }

    fn same(&self, other: &Self) -> (r: bool) {
        self.0 == other.0
    }
}

impl HookName {
    /// A hook name, where the text is an identifier.
    pub fn parse(value: &str) -> (r: Result<HookName, PipelineError>)
        ensures
            match r {
                Ok(name) => is_identifier(value@) && name@ == value@,
                Err(e) => !is_identifier(value@) && (e matches PipelineError::InvalidHookName(n)
                    && n@ == value@),
            },
    {
        if valid_identifier(value) {
            Ok(HookName(value.to_owned()))
        } else {
            Err(PipelineError::InvalidHookName(value.to_owned()))
        }
    }

    /// The name as a string.
    pub fn as_str(&self) -> (r: &str)
        ensures
            r@ == self@,
    {
        self.0.as_str()
    }
}

/// The name of a construct. It is always an identifier.
#[derive(Debug, PartialEq, Eq, Hash)]
pub struct ConstructId(String);

impl View for ConstructId {
    type V = Seq<char>;

    closed spec fn view(&self) -> Seq<char> {
        self.0@
    }
}

impl Clone for ConstructId {
    fn clone(&self) -> (r: Self)
        ensures
            r == *self,
    {
        proof {
            use_type_invariant(self);
        }
        ConstructId(self.0.clone())
    }
}

impl ConstructId {
    #[verifier::type_invariant]
    spec fn valid(self) -> bool {
        is_identifier(self.0@)
    }

    /// A construct id, where the text is an identifier.
    pub fn parse(value: &str) -> (r: Result<ConstructId, String>)
        ensures
            match r {
                Ok(id) => is_identifier(value@) && id@ == value@,
                Err(message) => !is_identifier(value@) && message@ == "invalid construct id `"@
                    + value@ + "`"@,
            },
    {
        if valid_identifier(value) {
            Ok(ConstructId(value.to_owned()))
        } else {
            let mut message: String = "invalid construct id `".to_owned();
            message.append(value);
            message.append("`");
            Err(message)
        }
    }

    /// The id as a string.
    pub fn as_str(&self) -> (r: &str)
        ensures
            r@ == self@,
            is_identifier(r@),
    {
        proof {
            use_type_invariant(self);
        }
        self.0.as_str()
    }
}

impl Default for ConstructId {
    fn default() -> (r: Self)
        ensures
            r@ == "dione"@,
    {
        proof {
            reveal_strlit("dione");
        }
        ConstructId("dione".to_owned())
    }
}

// ── Context ─────────────────────────────────────────────────────────────────

/// What a hook knows of the message at hand.
pub struct HookContext {
    text: String,
    author_id: Option<u64>,
    destination: OutboundDestination,
    channel_type: ChannelType,
    guild_id: Option<u64>,
    reply_to_message_id: Option<u64>,
    construct_id: ConstructId,
    metadata: Table<String, String>,
}

/// A [`HookContext`] as a value.
#[verifier::ext_equal]
pub struct ContextView {
    pub text: Seq<char>,
    pub author_id: Option<u64>,
    pub destination: OutboundDestination,
    pub channel_type: ChannelType,
    pub guild_id: Option<u64>,
    pub reply_to_message_id: Option<u64>,
    pub construct_id: Seq<char>,
    pub metadata: Map<Seq<char>, Seq<char>>,
}

impl View for HookContext {
    type V = ContextView;

    closed spec fn view(&self) -> ContextView {
        ContextView {
            text: self.text@,
            author_id: self.author_id,
            destination: self.destination,
            channel_type: self.channel_type,
            guild_id: self.guild_id,
            reply_to_message_id: self.reply_to_message_id,
            construct_id: self.construct_id@,
            metadata: self.metadata.map().map_values(|s: String| s@),
        }
    }
}

fn copy_metadata(metadata: &Table<String, String>) -> (r: Table<String, String>)
    requires
        metadata.wf(),
    ensures
        r.wf(),
        r.map().map_values(|s: String| s@) == metadata.map().map_values(|s: String| s@),
{
    let mut out: Table<String, String> = Table::new();
    let mut i: usize = 0;
    while i < metadata.len()
        invariant
            metadata.wf(),
            out.wf(),
            i <= metadata.seq().len(),
            out.seq() == metadata.seq().take(i as int),
        decreases metadata.seq().len() - i,
    {
        let key: String = metadata.key_at(i).clone();
        let value: String = metadata.value_at(i).clone();
        proof {
            if out.map().contains_key(key.id()) {
                table::lemma_present(out.seq(), key.id());
                let p = table::position(out.seq(), key.id());
                assert(out.seq()[p] == metadata.seq()[p]);
                assert(metadata.seq()[p].0.id() != metadata.seq()[i as int].0.id());
            }
        }
        out.push(key, value);
        assert(metadata.seq().take(i + 1) =~= metadata.seq().take(i as int).push(
            metadata.seq()[i as int],
        ));
        i = i + 1;
    }
    assert(metadata.seq().take(metadata.seq().len() as int) =~= metadata.seq());
    out
}

impl HookContext {
    /// The context's invariant.
    pub closed spec fn wf(&self) -> bool {
        self.metadata.wf()
    }

    /// A context with nothing but the necessary.
    pub fn new(
        text: &str,
        destination: OutboundDestination,
        channel_type: ChannelType,
        construct_id: ConstructId,
    ) -> (r: Self)
        ensures
            r.wf(),
            r@ == (ContextView {
                text: text@,
                author_id: None,
                destination,
                channel_type,
                guild_id: None,
                reply_to_message_id: None,
                construct_id: construct_id@,
                metadata: Map::empty(),
            }),
    {
        let r: HookContext = HookContext {
            text: text.to_owned(),
            author_id: None,
            destination,
            channel_type,
            guild_id: None,
            reply_to_message_id: None,
            construct_id,
            metadata: Table::new(),
        };
        assert(r@.metadata =~= Map::empty());
        r
    }

    /// The same context with another text.
    pub fn with_text(&self, text: &str) -> (r: Self)
        requires
            self.wf(),
        ensures
            r.wf(),
            r@ == (ContextView { text: text@, ..self@ }),
    {
        HookContext {
            text: text.to_owned(),
            author_id: self.author_id,
            destination: self.destination,
            channel_type: self.channel_type,
            guild_id: self.guild_id,
            reply_to_message_id: self.reply_to_message_id,
            construct_id: self.construct_id.clone(),
            metadata: copy_metadata(&self.metadata),
        }
    }

    /// The text of the message.
    pub fn text(&self) -> (r: &str)
        ensures
            r@ == self@.text,
    {
        self.text.as_str()
    }

    /// Where the message goes.
    pub fn destination(&self) -> (r: OutboundDestination)
        ensures
            r == self@.destination,
    {
        self.destination
    }

    /// The channel that the message goes to, where it is known.
    pub fn channel_id(&self) -> (r: Option<u64>)
        ensures
            r == match self@.destination {
                OutboundDestination::Channel(id) => Some(id),
                OutboundDestination::DmRecipient(_) => None,
            },
    {
        match self.destination {
            OutboundDestination::Channel(id) => Some(id),
            OutboundDestination::DmRecipient(_) => None,
        }
    }

    /// The user that the message goes to, where their channel is not known.
    pub fn dm_recipient_id(&self) -> (r: Option<u64>)
        ensures
            r == match self@.destination {
                OutboundDestination::DmRecipient(id) => Some(id),
                OutboundDestination::Channel(_) => None,
            },
    {
        match self.destination {
            OutboundDestination::DmRecipient(id) => Some(id),
            OutboundDestination::Channel(_) => None,
        }
    }

    /// The kind of channel.
    pub fn channel_type(&self) -> (r: ChannelType)
        ensures
            r == self@.channel_type,
    {
        self.channel_type
    }

    /// The author, where known.
    pub fn author_id(&self) -> (r: Option<u64>)
        ensures
            r == self@.author_id,
    {
        self.author_id
    }

    /// The guild, where known.
    pub fn guild_id(&self) -> (r: Option<u64>)
        ensures
            r == self@.guild_id,
    {
        self.guild_id
    }

    /// The message that is replied to.
    pub fn reply_to_message_id(&self) -> (r: Option<u64>)
        ensures
            r == self@.reply_to_message_id,
    {
        self.reply_to_message_id
    }

    /// The construct that sends the message.
    pub fn construct_id(&self) -> (r: &str)
        ensures
            r@ == self@.construct_id,
    {
        self.construct_id.as_str()
    }

    /// A further fact about the message.
    pub fn metadata(&self, key: &str) -> (r: Option<&str>)
        requires
            self.wf(),
        ensures
            match r {
                Some(value) => self@.metadata.contains_key(key@) && value@ == self@.metadata[key@],
                None => !self@.metadata.contains_key(key@),
            },
    {
        let name: String = key.to_owned();
        match self.metadata.find(&name) {
            Some(i) => Some(self.metadata.value_at(i).as_str()),
            None => None,
        }
    }

    /// The context with the message that is replied to.
    pub fn with_reply_to(self, message_id: Option<u64>) -> (r: Self)
        requires
            self.wf(),
        ensures
            r.wf(),
            r@ == (ContextView { reply_to_message_id: message_id, ..self@ }),
    {
        let mut out: HookContext = self;
        out.reply_to_message_id = message_id;
        out
    }

    /// The context with a further fact.
    pub fn with_metadata(self, key: &str, value: &str) -> (r: Self)
        requires
            self.wf(),
        ensures
            r.wf(),
            r@ == (ContextView { metadata: self@.metadata.insert(key@, value@), ..self@ }),
    {
        let ghost before = self@;
        let mut out: HookContext = self;
        out.metadata.insert(key.to_owned(), value.to_owned());
        assert(out@.metadata =~= before.metadata.insert(key@, value@));
        out
    }

    /// The context with an author.
    pub fn with_author_id(self, author_id: Option<u64>) -> (r: Self)
        requires
            self.wf(),
        ensures
            r.wf(),
            r@ == (ContextView { author_id, ..self@ }),
    {
        let mut out: HookContext = self;
        out.author_id = author_id;
        out
    }

    /// The context with a guild.
    pub fn with_guild_id(self, guild_id: Option<u64>) -> (r: Self)
        requires
            self.wf(),
        ensures
            r.wf(),
            r@ == (ContextView { guild_id, ..self@ }),
    {
        let mut out: HookContext = self;
        out.guild_id = guild_id;
        out
    }
}

// ── Assessments ─────────────────────────────────────────────────────────────

/// The bits of the single-precision number one.
pub const ONE_BITS: u32 = 0x3f80_0000;

/// A confidence as the bits of a single-precision number, brought into the
/// range from zero to one. What is not a finite number becomes zero; a negative
/// zero stays.
pub open spec fn normal_confidence(bits: u32) -> u32 {
    let magnitude = bits % 0x8000_0000;
    if magnitude >= 0x7f80_0000 {
        0
    } else if bits >= 0x8000_0000 {
        if magnitude == 0 {
            bits
        } else {
            0
        }
    } else if bits > ONE_BITS {
        ONE_BITS
    } else {
        bits
    }
}

/// Whether two confidences are the same number: zero and negative zero are.
pub open spec fn same_confidence(a: u32, b: u32) -> bool {
    a == b || (a % 0x8000_0000 == 0 && b % 0x8000_0000 == 0)
}

/// One finding of a hook. Two of these are equal where they say the same, with the
/// same number for their confidence.
#[derive(Debug, Eq)]
pub struct Assessment {
    hook_name: Option<HookName>,
    category: String,
    confidence: u32,
    detail: String,
}

/// An [`Assessment`] as a value.
#[verifier::ext_equal]
pub struct AssessmentView {
    /// The hook whose finding it is.
    pub hook_name: Option<Seq<char>>,
    pub category: Seq<char>,
    pub confidence: u32,
    pub detail: Seq<char>,
}

/// The text of an optional hook name.
pub open spec fn name_opt(name: Option<HookName>) -> Option<Seq<char>> {
    match name {
        Some(n) => Some(n@),
        None => None,
    }
}

impl View for Assessment {
    type V = AssessmentView;

    closed spec fn view(&self) -> AssessmentView {
        AssessmentView {
            hook_name: name_opt(self.hook_name),
            category: self.category@,
            confidence: self.confidence,
            detail: self.detail@,
        }
    }
}

/// Whether two findings say the same.
pub open spec fn same_finding(a: AssessmentView, b: AssessmentView) -> bool {
    &&& a.hook_name == b.hook_name
    &&& a.category == b.category
    &&& same_confidence(a.confidence, b.confidence)
    &&& a.detail == b.detail
}

impl PartialEq for Assessment {
    fn eq(&self, other: &Self) -> (r: bool) {
        let same_name: bool = match (&self.hook_name, &other.hook_name) {
            (Some(a), Some(b)) => a.same(b),
            (None, None) => true,
            _ => false,
        };
        let same_number: bool = self.confidence == other.confidence || (self.confidence
            % 0x8000_0000 == 0 && other.confidence % 0x8000_0000 == 0);
        same_name && text::str_eq(self.category.as_str(), other.category.as_str()) && same_number
            && text::str_eq(self.detail.as_str(), other.detail.as_str())
    }
}

impl vstd::std_specs::cmp::PartialEqSpecImpl for Assessment {
    open spec fn obeys_eq_spec() -> bool {
        true
    }

    open spec fn eq_spec(&self, other: &Self) -> bool {
        same_finding(self@, other@)
    }
}

impl Assessment {
    /// A finding. The confidence is given, and kept, as the bits of a
    /// single-precision number.
    pub fn new(category: &str, confidence: u32, detail: &str) -> (r: Self)
        ensures
            r@ == (AssessmentView {
                hook_name: None,
                category: category@,
                confidence: normal_confidence(confidence),
                detail: detail@,
            }),
    {
        let magnitude: u32 = confidence % 0x8000_0000;
        let confidence: u32 = if magnitude >= 0x7f80_0000 {
            0
        } else if confidence >= 0x8000_0000 {
            if magnitude == 0 {
                confidence
            } else {
                0
            }
        } else if confidence > ONE_BITS {
            ONE_BITS
        } else {
            confidence
        };
        Assessment {
            hook_name: None,
            category: category.to_owned(),
            confidence,
            detail: detail.to_owned(),
        }
    }

    /// The hook whose finding it is.
    pub fn hook_name(&self) -> (r: Option<&HookName>)
        ensures
            match r {
                Some(n) => self@.hook_name == Some(n@),
                None => self@.hook_name is None,
            },
    {
        self.hook_name.as_ref()
    }

    /// What kind of finding it is.
    pub fn category(&self) -> (r: &str)
        ensures
            r@ == self@.category,
    {
        self.category.as_str()
    }

    /// How sure the hook is: the bits of a single-precision number.
    pub fn confidence(&self) -> (r: u32)
        ensures
            r == self@.confidence,
    {
        self.confidence
    }

    /// What was found.
    pub fn detail(&self) -> (r: &str)
        ensures
            r@ == self@.detail,
    {
        self.detail.as_str()
    }

    /// The same finding as the finding of a hook.
    fn attributed_to(&self, hook_name: &HookName) -> (r: Self)
        ensures
            r@ == attributed(self@, hook_name@),
    {
        Assessment {
            hook_name: Some(hook_name.clone()),
            category: self.category.clone(),
            confidence: self.confidence,
            detail: self.detail.clone(),
        }
    }
}

/// A finding as the finding of a hook, whatever it said of that before.
pub open spec fn attributed(a: AssessmentView, hook_name: Seq<char>) -> AssessmentView {
    AssessmentView { hook_name: Some(hook_name), ..a }
}

/// Findings as the findings of a hook.
pub open spec fn all_attributed(list: Seq<AssessmentView>, hook_name: Seq<char>) -> Seq<
    AssessmentView,
> {
    list.map_values(|a: AssessmentView| attributed(a, hook_name))
}

/// The values of a sequence of findings.
pub open spec fn assessment_views(list: Seq<Assessment>) -> Seq<AssessmentView> {
    list.map_values(|a: Assessment| a@)
}

fn append_attributed(out: &mut Vec<Assessment>, hook_name: &HookName, source: &Vec<Assessment>)
    ensures
        assessment_views(final(out)@) == assessment_views(old(out)@) + all_attributed(
            assessment_views(source@),
            hook_name@,
        ),
{
    let ghost before = assessment_views(out@);
    let ghost all = all_attributed(assessment_views(source@), hook_name@);
    let mut i: usize = 0;
    assert(before + all.take(0) =~= before);
    while i < source.len()
        invariant
            i <= source@.len(),
            all == all_attributed(assessment_views(source@), hook_name@),
            assessment_views(out@) == before + all.take(i as int),
        decreases source@.len() - i,
    {
        let ghost had = out@;
        out.push(source[i].attributed_to(hook_name));
        proof {
            assert(assessment_views(out@) =~= assessment_views(had).push(all[i as int]));
            assert(before + all.take(i + 1) =~= (before + all.take(i as int)).push(all[i as int]));
        }
        i = i + 1;
    }
    assert(all.take(all.len() as int) =~= all);
}

/// Findings for the construct.
#[derive(Debug, PartialEq, Eq)]
pub struct ConstructFeedback(Vec<Assessment>);

impl View for ConstructFeedback {
    type V = Seq<AssessmentView>;

    closed spec fn view(&self) -> Seq<AssessmentView> {
        assessment_views(self.0@)
    }
}

impl ConstructFeedback {
    /// These findings.
    pub fn new(assessments: Vec<Assessment>) -> (r: Self)
        ensures
            r@ == assessment_views(assessments@),
    {
        ConstructFeedback(assessments)
    }

    /// The findings.
    pub fn as_slice(&self) -> (r: &[Assessment])
        ensures
            assessment_views(r@) == self@,
    {
        self.0.as_slice()
    }
}

impl Default for ConstructFeedback {
    fn default() -> (r: Self)
        ensures
            r@ == Seq::<AssessmentView>::empty(),
    {
        let r: ConstructFeedback = ConstructFeedback(Vec::new());
        assert(r@ =~= Seq::<AssessmentView>::empty());
        r
    }
}

/// Findings for the audit.
#[derive(Debug, PartialEq, Eq)]
pub struct AuditTrail(Vec<Assessment>);

impl View for AuditTrail {
    type V = Seq<AssessmentView>;

    closed spec fn view(&self) -> Seq<AssessmentView> {
        assessment_views(self.0@)
    }
}

impl AuditTrail {
    /// These findings.
    pub fn new(assessments: Vec<Assessment>) -> (r: Self)
        ensures
            r@ == assessment_views(assessments@),
    {
        AuditTrail(assessments)
    }

    /// The findings.
    pub fn as_slice(&self) -> (r: &[Assessment])
        ensures
            assessment_views(r@) == self@,
    {
        self.0.as_slice()
    }
}

impl Default for AuditTrail {
    fn default() -> (r: Self)
        ensures
            r@ == Seq::<AssessmentView>::empty(),
    {
        let r: AuditTrail = AuditTrail(Vec::new());
        assert(r@ =~= Seq::<AssessmentView>::empty());
        r
    }
}

// ── Decisions ───────────────────────────────────────────────────────────────

/// What a hook wants done with the message.
#[derive(Debug, PartialEq, Eq)]
pub enum HookDecision {
    /// Send it.
    Continue,
    /// Send this text in its place.
    Rewrite { text: String },
    /// Do not send it.
    Halt { reason: String },
    /// Send it elsewhere.
    Redirect { channel_id: u64 },
}

/// A [`HookDecision`] as a value.
pub enum DecisionView {
    Continue,
    Rewrite { text: Seq<char> },
    Halt { reason: Seq<char> },
    Redirect { channel_id: u64 },
}

impl View for HookDecision {
    type V = DecisionView;

    open spec fn view(&self) -> DecisionView {
        match self {
            HookDecision::Continue => DecisionView::Continue,
            HookDecision::Rewrite { text } => DecisionView::Rewrite { text: text@ },
            HookDecision::Halt { reason } => DecisionView::Halt { reason: reason@ },
            HookDecision::Redirect { channel_id } => DecisionView::Redirect {
                channel_id: *channel_id,
            },
        }
    }
}

impl Clone for HookDecision {
    fn clone(&self) -> (r: Self)
        ensures
            r == *self,
    {
        match self {
            HookDecision::Continue => HookDecision::Continue,
            HookDecision::Rewrite { text } => HookDecision::Rewrite { text: text.clone() },
            HookDecision::Halt { reason } => HookDecision::Halt { reason: reason.clone() },
            HookDecision::Redirect { channel_id } => HookDecision::Redirect {
                channel_id: *channel_id,
            },
        }
    }
}

/// How strict a decision is: to go on is the least, to halt the most.
pub open spec fn strictness_of(decision: DecisionView) -> nat {
    match decision {
        DecisionView::Continue => 0,
        DecisionView::Rewrite { .. } => 1,
        DecisionView::Redirect { .. } => 2,
        DecisionView::Halt { .. } => 3,
    }
}

impl HookDecision {
    fn strictness(&self) -> (r: u8)
        ensures
            r == strictness_of(self@),
    {
        match self {
            HookDecision::Continue => 0,
            HookDecision::Rewrite { .. } => 1,
            HookDecision::Redirect { .. } => 2,
            HookDecision::Halt { .. } => 3,
        }
    }
}

/// What a hook returns.
#[derive(Debug, PartialEq, Eq)]
pub struct HookOutput {
    decision: HookDecision,
    to_construct: ConstructFeedback,
    to_audit: AuditTrail,
}

/// A [`HookOutput`] as a value.
#[verifier::ext_equal]
pub struct OutputView {
    pub decision: DecisionView,
    pub to_construct: Seq<AssessmentView>,
    pub to_audit: Seq<AssessmentView>,
}

impl View for HookOutput {
    type V = OutputView;

    closed spec fn view(&self) -> OutputView {
        OutputView {
            decision: self.decision@,
            to_construct: self.to_construct@,
            to_audit: self.to_audit@,
        }
    }
}

impl HookOutput {
    /// A decision with its findings.
    pub fn new(
        decision: HookDecision,
        to_construct: ConstructFeedback,
        to_audit: AuditTrail,
    ) -> (r: Self)
        ensures
            r@ == (OutputView {
                decision: decision@,
                to_construct: to_construct@,
                to_audit: to_audit@,
            }),
    {
        HookOutput { decision, to_construct, to_audit }
    }
}

/// A hook that looks at a message before it is sent.
pub trait PreSendHook {
    /// The hook's name, which a pipeline asks for once.
    fn name(&self) -> (r: HookName);

    /// Looks at a message. `None` says that the hook broke down.
    fn execute(&self, context: &HookContext) -> (r: Option<HookOutput>);
}

// ── Sinks ───────────────────────────────────────────────────────────────────

/// Why findings could not be recorded.
#[derive(Debug, PartialEq, Eq)]
pub struct SinkError(pub String);

impl SinkError {
    /// This reason.
    pub fn new(message: &str) -> (r: Self)
        ensures
            r.0@ == message@,
    {
        SinkError(message.to_owned())
    }
}

/// What recording findings came to.
#[derive(Debug, PartialEq, Eq)]
pub enum SinkReply {
    /// They are recorded.
    Recorded,
    /// They could not be.
    Failed(SinkError),
    /// The sink broke down.
    Panicked,
}

/// Where the findings for the construct go, once per run.
pub trait FeedbackSink {
    /// Records the findings.
    fn record(&self, feedback: &ConstructFeedback, context: &HookContext) -> (r: SinkReply);
}

/// Where the findings for the audit go, once per run.
pub trait AuditSink {
    /// Records the findings.
    fn record(&self, trail: &AuditTrail, context: &HookContext) -> (r: SinkReply);
}

/// A sink that forgets.
pub struct NullFeedbackSink;

impl FeedbackSink for NullFeedbackSink {
    fn record(&self, feedback: &ConstructFeedback, context: &HookContext) -> (r: SinkReply)
        ensures
            r is Recorded,
    {
        SinkReply::Recorded
    }
}

/// A sink that forgets.
pub struct NullAuditSink;

impl AuditSink for NullAuditSink {
    fn record(&self, trail: &AuditTrail, context: &HookContext) -> (r: SinkReply)
        ensures
            r is Recorded,
    {
        SinkReply::Recorded
    }
}

/// What happens where a sink fails.
#[derive(Clone, Copy, Debug, PartialEq, Eq, Structural)]
pub enum SinkFailurePolicy {
    /// The message is sent, and the outcome tells of the failure.
    Degrade,
    /// The message is not sent.
    FailClosed,
}

impl Default for SinkFailurePolicy {
    fn default() -> (r: Self)
        ensures
            r is Degrade,
    {
        SinkFailurePolicy::Degrade
    }
}

/// Which sink it is.
#[derive(Clone, Copy, Debug, PartialEq, Eq, Structural)]
pub enum SinkKind {
    Feedback,
    Audit,
}

impl SinkKind {
    /// The word for the sink.
    pub fn as_str(self) -> (r: &'static str)
        ensures
            r@ == match self {
                SinkKind::Feedback => "feedback"@,
                SinkKind::Audit => "audit"@,
            },
    {
        match self {
            SinkKind::Feedback => "feedback",
            SinkKind::Audit => "audit",
        }
    }
}

/// A sink that failed.
#[derive(Debug, PartialEq, Eq)]
pub struct SinkFailure {
    sink: SinkKind,
    detail: String,
}

impl View for SinkFailure {
    type V = (SinkKind, Seq<char>);

    closed spec fn view(&self) -> (SinkKind, Seq<char>) {
        (self.sink, self.detail@)
    }
}

impl SinkFailure {
    /// Which sink failed.
    pub fn sink(&self) -> (r: SinkKind)
        ensures
            r == self@.0,
    {
        self.sink
    }

    /// Why.
    pub fn detail(&self) -> (r: &str)
        ensures
            r@ == self@.1,
    {
        self.detail.as_str()
    }
}

/// The failures that a sink's reply amounts to: none, or one.
pub open spec fn failures_of(sink: SinkKind, reply: SinkReply) -> Seq<(SinkKind, Seq<char>)> {
    match reply {
        SinkReply::Recorded => Seq::empty(),
        SinkReply::Failed(e) => seq![(sink, e.0@)],
        SinkReply::Panicked => seq![(sink, "sink panicked"@)],
    }
}

/// The values of a sequence of failures.
pub open spec fn failure_views(failures: Seq<SinkFailure>) -> Seq<(SinkKind, Seq<char>)> {
    failures.map_values(|f: SinkFailure| f@)
}

fn capture_sink_failure(sink: SinkKind, failures: &mut Vec<SinkFailure>, reply: SinkReply)
    ensures
        failure_views(final(failures)@) == failure_views(old(failures)@) + failures_of(sink, reply),
{
    let ghost before = failures@;
    match reply {
        SinkReply::Recorded => {
            assert(failure_views(failures@) =~= failure_views(before) + Seq::empty());
        },
        SinkReply::Failed(e) => {
            failures.push(SinkFailure { sink, detail: e.0 });
            assert(failure_views(failures@) =~= failure_views(before) + seq![(sink, e.0@)]);
        },
        SinkReply::Panicked => {
            failures.push(SinkFailure { sink, detail: "sink panicked".to_owned() });
            assert(failure_views(failures@) =~= failure_views(before) + seq![
                (sink, "sink panicked"@),
            ]);
        },
    }
}

// ── Errors ──────────────────────────────────────────────────────────────────

/// Why a pipeline could not be made, or stopped a message.
#[derive(Debug, PartialEq, Eq)]
pub enum PipelineError {
    InvalidHookName(String),
    DuplicateHookName(String),
    UnknownHookName(HookName),
    SinkFailures(Vec<SinkFailure>),
    HookPanicked(String),
}

impl PipelineError {
    /// The message for the construct.
    pub open spec fn message(&self) -> Seq<char> {
        match self {
            PipelineError::InvalidHookName(name) => "invalid pre-send hook name `"@ + name@ + "`"@,
            PipelineError::DuplicateHookName(name) => "duplicate pre-send hook name `"@ + name@
                + "`"@,
            PipelineError::UnknownHookName(name) => "unknown pre-send hook name `"@ + name@ + "`"@,
            PipelineError::SinkFailures(failures) => "pre-send assessment routing failed for "@
                + text::decimal(failures@.len()) + " sink(s)"@,
            PipelineError::HookPanicked(name) => "pre-send hook `"@ + name@ + "` panicked"@,
        }
    }

    /// The message for the construct.
    pub fn to_string(&self) -> (r: String)
        ensures
            r@ == self.message(),
    {
        match self {
            PipelineError::InvalidHookName(name) => {
                let mut out: String = "invalid pre-send hook name `".to_owned();
                out.append(name.as_str());
                out.append("`");
                out
            },
            PipelineError::DuplicateHookName(name) => {
                let mut out: String = "duplicate pre-send hook name `".to_owned();
                out.append(name.as_str());
                out.append("`");
                out
            },
            PipelineError::UnknownHookName(name) => {
                let mut out: String = "unknown pre-send hook name `".to_owned();
                out.append(name.as_str());
                out.append("`");
                out
            },
            PipelineError::SinkFailures(failures) => {
                let mut out: String = "pre-send assessment routing failed for ".to_owned();
                let n: String = text::decimal_string(failures.len() as u64);
                out.append(n.as_str());
                out.append(" sink(s)");
                out
            },
            PipelineError::HookPanicked(name) => {
                let mut out: String = "pre-send hook `".to_owned();
                out.append(name.as_str());
                out.append("` panicked");
                out
            },
        }
    }
}

/// The hooks that are passed over for one message. Two of these are equal where the
/// same hooks are in both.
#[derive(Debug, Eq)]
pub struct NoRly {
    hook_names: Vec<HookName>,
}

impl View for NoRly {
    type V = Set<Seq<char>>;

    closed spec fn view(&self) -> Set<Seq<char>> {
        hook_names(self.hook_names@).to_set()
    }
}

/// The texts of a sequence of hook names.
pub open spec fn hook_names(names: Seq<HookName>) -> Seq<Seq<char>> {
    names.map_values(|n: HookName| n@)
}

fn has_name(names: &Vec<HookName>, name: &HookName) -> (r: bool)
    ensures
        r == hook_names(names@).contains(name@),
{
    let mut i: usize = 0;
    while i < names.len()
        invariant
            i <= names@.len(),
            forall|k: int| 0 <= k < i ==> hook_names(names@)[k] != name@,
        decreases names@.len() - i,
    {
        assert(hook_names(names@)[i as int] == names@[i as int]@);
        if names[i].same(name) {
            return true;
        }
        i = i + 1;
    }
    false
}

fn has_all(names: &Vec<HookName>, wanted: &Vec<HookName>) -> (r: bool)
    ensures
        r == hook_names(wanted@).to_set().subset_of(hook_names(names@).to_set()),
{
    let ghost all = hook_names(wanted@);
    let mut i: usize = 0;
    while i < wanted.len()
        invariant
            i <= wanted@.len(),
            all == hook_names(wanted@),
            forall|k: int| 0 <= k < i ==> hook_names(names@).contains(#[trigger] all[k]),
        decreases wanted@.len() - i,
    {
        assert(all[i as int] == wanted@[i as int]@);
        if !has_name(names, &wanted[i]) {
            assert(all.to_set().contains(all[i as int]));
            return false;
        }
        i = i + 1;
    }
    assert forall|name: Seq<char>| all.to_set().contains(name) implies hook_names(
        names@,
    ).to_set().contains(name) by {
        let k = choose|k: int| 0 <= k < all.len() && all[k] == name;
        assert(hook_names(names@).contains(all[k]));
    }
    true
}

impl PartialEq for NoRly {
    fn eq(&self, other: &Self) -> (r: bool) {
        let same: bool = has_all(&other.hook_names, &self.hook_names) && has_all(
            &self.hook_names,
            &other.hook_names,
        );
        assert(same ==> self@ =~= other@);
        same
    }
}

impl vstd::std_specs::cmp::PartialEqSpecImpl for NoRly {
    open spec fn obeys_eq_spec() -> bool {
        true
    }

    open spec fn eq_spec(&self, other: &Self) -> bool {
        self@ == other@
    }
}

impl NoRly {
    /// These hooks.
    pub fn new(hook_names: Vec<HookName>) -> (r: Self)
        ensures
            r@ == self::hook_names(hook_names@).to_set(),
    {
        NoRly { hook_names }
    }

    /// No hooks.
    pub fn none() -> (r: Self)
        ensures
            r@ == Set::<Seq<char>>::empty(),
    {
        let r: NoRly = NoRly { hook_names: Vec::new() };
        assert(r@ =~= Set::<Seq<char>>::empty());
        r
    }

    fn bypasses(&self, hook_name: &HookName) -> (r: bool)
        ensures
            r == self@.contains(hook_name@),
    {
        has_name(&self.hook_names, hook_name)
    }
}

// ── A run as a value ────────────────────────────────────────────────────────

/// How far a run has come.
#[verifier::ext_equal]
pub struct RunView {
    /// The text as the hooks so far have left it.
    pub text: Seq<char>,
    /// What was found for the construct.
    pub to_construct: Seq<AssessmentView>,
    /// What was found for the audit.
    pub to_audit: Seq<AssessmentView>,
    /// The strictest decision so far; of equally strict ones the latest.
    pub strictest: Option<DecisionView>,
    /// Whether a hook has halted the message.
    pub halted: bool,
}

/// A run before its first hook.
pub open spec fn run_start(text: Seq<char>) -> RunView {
    RunView {
        text,
        to_construct: Seq::empty(),
        to_audit: Seq::empty(),
        strictest: None,
        halted: false,
    }
}

/// What the audit is told of a hook that was passed over.
pub open spec fn bypass_note(construct_id: Seq<char>, name: Seq<char>) -> AssessmentView {
    AssessmentView {
        hook_name: Some(name),
        category: "no-rly-bypass"@,
        confidence: ONE_BITS,
        detail: "hook bypassed for construct `"@ + construct_id + "`"@,
    }
}

/// What the audit is told of a hook that broke down.
pub open spec fn breakdown_note() -> AssessmentView {
    AssessmentView {
        hook_name: None,
        category: "internal-error"@,
        confidence: ONE_BITS,
        detail: "hook panicked during execution"@,
    }
}

/// A run after a hook was passed over.
pub open spec fn after_bypass(run: RunView, construct_id: Seq<char>, name: Seq<char>) -> RunView {
    RunView { to_audit: run.to_audit.push(bypass_note(construct_id, name)), ..run }
}

/// A run in observe mode after a hook.
pub open spec fn after_observed(run: RunView, name: Seq<char>, output: Option<OutputView>) -> RunView {
    RunView {
        to_audit: run.to_audit + all_attributed(
            match output {
                Some(o) => o.to_audit,
                None => seq![breakdown_note()],
            },
            name,
        ),
        ..run
    }
}

/// A run in enforce mode after a hook that did not break down.
pub open spec fn after_enforced(run: RunView, name: Seq<char>, o: OutputView) -> RunView {
    RunView {
        text: match o.decision {
            DecisionView::Rewrite { text } => text,
            _ => run.text,
        },
        to_construct: run.to_construct + all_attributed(o.to_construct, name),
        to_audit: run.to_audit + all_attributed(o.to_audit, name),
        strictest: match run.strictest {
            Some(current) => if strictness_of(o.decision) >= strictness_of(current) {
                Some(o.decision)
            } else {
                Some(current)
            },
            None => Some(o.decision),
        },
        halted: o.decision is Halt,
    }
}

/// A run after one hook: `Err` with the hook's name where it broke down in
/// enforce mode.
pub open spec fn after_hook(
    mode: PipelineMode,
    bypassed: Set<Seq<char>>,
    construct_id: Seq<char>,
    run: RunView,
    name: Seq<char>,
    output: Option<OutputView>,
) -> Result<RunView, Seq<char>> {
    if bypassed.contains(name) {
        Ok(after_bypass(run, construct_id, name))
    } else if mode is Observe {
        Ok(after_observed(run, name, output))
    } else {
        match output {
            Some(o) => Ok(after_enforced(run, name, o)),
            None => Err(name),
        }
    }
}

/// A run after its hooks, where these are what they return. After a halt no
/// further hook is run.
pub open spec fn after_hooks(
    mode: PipelineMode,
    bypassed: Set<Seq<char>>,
    construct_id: Seq<char>,
    text: Seq<char>,
    names: Seq<Seq<char>>,
    outputs: Seq<Option<OutputView>>,
) -> Result<RunView, Seq<char>>
    decreases names.len(),
{
    if names.len() == 0 {
        Ok(run_start(text))
    } else {
        match after_hooks(
            mode,
            bypassed,
            construct_id,
            text,
            names.drop_last(),
            outputs.drop_last(),
        ) {
            Err(name) => Err(name),
            Ok(run) => if run.halted {
                Ok(run)
            } else {
                after_hook(mode, bypassed, construct_id, run, names.last(), outputs.last())
            },
        }
    }
}

/// What a run comes to, as a value.
#[verifier::ext_equal]
pub struct OutcomeView {
    pub decision: DecisionView,
    pub to_construct: Seq<AssessmentView>,
    pub to_audit: Seq<AssessmentView>,
    pub final_text: Option<Seq<char>>,
    pub sink_failures: Seq<(SinkKind, Seq<char>)>,
}

/// The decision of a run.
pub open spec fn run_decision(mode: PipelineMode, run: RunView) -> DecisionView {
    if mode is Observe {
        DecisionView::Continue
    } else {
        match run.strictest {
            Some(decision) => decision,
            None => DecisionView::Continue,
        }
    }
}

/// The text that a run lets go out: the original in observe mode, none where the
/// message was halted, else the text as the hooks have left it.
pub open spec fn run_text(mode: PipelineMode, original: Seq<char>, run: RunView) -> Option<Seq<char>> {
    if mode is Observe {
        Some(original)
    } else if run_decision(mode, run) is Halt {
        None
    } else {
        Some(run.text)
    }
}

/// The text that the sinks see.
pub open spec fn sink_text(mode: PipelineMode, original: Seq<char>, run: RunView) -> Seq<char> {
    match run_text(mode, original, run) {
        Some(text) => text,
        None => run.text,
    }
}

/// The outcome of a run with these sink failures.
pub open spec fn run_outcome(
    mode: PipelineMode,
    original: Seq<char>,
    run: RunView,
    failures: Seq<(SinkKind, Seq<char>)>,
) -> OutcomeView {
    OutcomeView {
        decision: run_decision(mode, run),
        to_construct: run.to_construct,
        to_audit: run.to_audit,
        final_text: run_text(mode, original, run),
        sink_failures: failures,
    }
}

/// In observe mode nothing that a hook does reaches the message: it goes out as
/// it came in, and the construct is told nothing.
pub proof fn law_observing_changes_nothing(
    bypassed: Set<Seq<char>>,
    construct_id: Seq<char>,
    text: Seq<char>,
    names: Seq<Seq<char>>,
    outputs: Seq<Option<OutputView>>,
    failures: Seq<(SinkKind, Seq<char>)>,
)
    ensures
        ({
            let mode = PipelineMode::Observe;
            let end = after_hooks(mode, bypassed, construct_id, text, names, outputs);
            &&& end matches Ok(run)
            &&& run.text == text
            &&& run.to_construct == Seq::<AssessmentView>::empty()
            &&& !run.halted
            &&& run_outcome(mode, text, run, failures).final_text == Some(text)
            &&& run_outcome(mode, text, run, failures).decision is Continue
        }),
    decreases names.len(),
{
    if names.len() > 0 {
        law_observing_changes_nothing(
            bypassed,
            construct_id,
            text,
            names.drop_last(),
            outputs.drop_last(),
            failures,
        );
    }
}

/// Every finding of a run bears the name of one of the pipeline's hooks.
pub proof fn law_findings_are_attributed(
    mode: PipelineMode,
    bypassed: Set<Seq<char>>,
    construct_id: Seq<char>,
    text: Seq<char>,
    names: Seq<Seq<char>>,
    outputs: Seq<Option<OutputView>>,
)
    ensures
        after_hooks(mode, bypassed, construct_id, text, names, outputs) matches Ok(run) ==> {
            &&& forall|i: int|
                0 <= i < run.to_audit.len() ==> ((#[trigger] run.to_audit[i]).hook_name matches Some(
                    name,
                ) && names.contains(name))
            &&& forall|i: int|
                0 <= i < run.to_construct.len() ==> ((#[trigger] run.to_construct[i]).hook_name matches Some(
                    name,
                ) && names.contains(name))
        },
    decreases names.len(),
{
    if names.len() > 0 {
        let front = names.drop_last();
        let last = names.last();
        law_findings_are_attributed(
            mode,
            bypassed,
            construct_id,
            text,
            front,
            outputs.drop_last(),
        );
        assert(names.contains(last)) by {
            assert(names[names.len() - 1] == last);
        }
        assert forall|name: Seq<char>| front.contains(name) implies #[trigger] names.contains(
            name,
        ) by {
            let k = choose|k: int| 0 <= k < front.len() && front[k] == name;
            assert(names[k] == name);
        }
        if let Ok(before) = after_hooks(
            mode,
            bypassed,
            construct_id,
            text,
            front,
            outputs.drop_last(),
        ) {
            if let Ok(run) = after_hooks(mode, bypassed, construct_id, text, names, outputs) {
                assert forall|i: int| 0 <= i < run.to_audit.len() implies ((
                #[trigger] run.to_audit[i]).hook_name matches Some(name) && names.contains(
                    name,
                )) by {
                    if i < before.to_audit.len() {
                        assert(run.to_audit[i] == before.to_audit[i]);
                    } else {
                        assert(run.to_audit[i].hook_name == Some(last));
                    }
                }
                assert forall|i: int| 0 <= i < run.to_construct.len() implies ((
                #[trigger] run.to_construct[i]).hook_name matches Some(name) && names.contains(
                    name,
                )) by {
                    if i < before.to_construct.len() {
                        assert(run.to_construct[i] == before.to_construct[i]);
                    } else {
                        assert(run.to_construct[i].hook_name == Some(last));
                    }
                }
            }
        }
    }
}

/// In enforce mode no text goes out exactly where a hook halted the message.
pub proof fn law_halting_stops_the_message(
    bypassed: Set<Seq<char>>,
    construct_id: Seq<char>,
    text: Seq<char>,
    names: Seq<Seq<char>>,
    outputs: Seq<Option<OutputView>>,
)
    ensures
        after_hooks(
            PipelineMode::Enforce,
            bypassed,
            construct_id,
            text,
            names,
            outputs,
        ) matches Ok(run) ==> {
            &&& run.halted <==> run_decision(PipelineMode::Enforce, run) is Halt
            &&& run.halted <==> run_text(PipelineMode::Enforce, text, run) is None
        },
    decreases names.len(),
{
    if names.len() > 0 {
        law_halting_stops_the_message(
            bypassed,
            construct_id,
            text,
            names.drop_last(),
            outputs.drop_last(),
        );
    }
}

// ── The pipeline ────────────────────────────────────────────────────────────

/// Whether a hook can return this for a context.
pub open spec fn says<H: PreSendHook>(hook: H, context: HookContext, output: Option<HookOutput>) -> bool {
    call_ensures(H::execute, (&hook, &context), output)
}

/// Whether a hook was shown this context, and returned this.
pub open spec fn said<H: PreSendHook>(
    hook: H,
    context: ContextView,
    output: Option<OutputView>,
) -> bool {
    exists|c: HookContext, o: Option<HookOutput>| #[trigger]
        says(hook, c, o) && c@ == context && output_opt(o) == output
}

/// Whether a sink can answer this to findings.
pub open spec fn feeds<F: FeedbackSink>(
    sink: F,
    feedback: ConstructFeedback,
    context: HookContext,
    reply: SinkReply,
) -> bool {
    call_ensures(F::record, (&sink, &feedback, &context), reply)
}

/// Whether a sink was given these findings in this context, and answered this.
pub open spec fn fed<F: FeedbackSink>(
    sink: F,
    feedback: Seq<AssessmentView>,
    context: ContextView,
    reply: SinkReply,
) -> bool {
    exists|f: ConstructFeedback, c: HookContext| #[trigger]
        feeds(sink, f, c, reply) && f@ == feedback && c@ == context
}

/// Whether a sink can answer this to findings.
pub open spec fn audits<A: AuditSink>(
    sink: A,
    trail: AuditTrail,
    context: HookContext,
    reply: SinkReply,
) -> bool {
    call_ensures(A::record, (&sink, &trail, &context), reply)
}

/// Whether a sink was given these findings in this context, and answered this.
pub open spec fn audited<A: AuditSink>(
    sink: A,
    trail: Seq<AssessmentView>,
    context: ContextView,
    reply: SinkReply,
) -> bool {
    exists|t: AuditTrail, c: HookContext| #[trigger]
        audits(sink, t, c, reply) && t@ == trail && c@ == context
}

/// What a run comes to.
#[derive(Debug, PartialEq, Eq)]
pub struct PipelineOutcome {
    decision: HookDecision,
    to_construct: ConstructFeedback,
    to_audit: AuditTrail,
    final_text: Option<String>,
    sink_failures: Vec<SinkFailure>,
}

impl View for PipelineOutcome {
    type V = OutcomeView;

    closed spec fn view(&self) -> OutcomeView {
        OutcomeView {
            decision: self.decision@,
            to_construct: self.to_construct@,
            to_audit: self.to_audit@,
            final_text: text::text_opt(self.final_text),
            sink_failures: failure_views(self.sink_failures@),
        }
    }
}

impl PipelineOutcome {
    /// What is to be done with the message.
    pub fn decision(&self) -> (r: &HookDecision)
        ensures
            r@ == self@.decision,
    {
        &self.decision
    }

    /// What was found for the construct.
    pub fn to_construct(&self) -> (r: &ConstructFeedback)
        ensures
            r@ == self@.to_construct,
    {
        &self.to_construct
    }

    /// What was found for the audit.
    pub fn to_audit(&self) -> (r: &AuditTrail)
        ensures
            r@ == self@.to_audit,
    {
        &self.to_audit
    }

    /// The text that goes out, if any does.
    pub fn final_text(&self) -> (r: Option<&str>)
        ensures
            match r {
                Some(t) => self@.final_text == Some(t@),
                None => self@.final_text is None,
            },
    {
        match &self.final_text {
            Some(t) => Some(t.as_str()),
            None => None,
        }
    }

    /// The sinks that failed.
    pub fn sink_failures(&self) -> (r: &[SinkFailure])
        ensures
            failure_views(r@) == self@.sink_failures,
    {
        self.sink_failures.as_slice()
    }
}

/// Hooks with their names, and where their findings go.
pub struct PreSendPipeline<H, F, A> {
    mode: PipelineMode,
    hooks: Vec<(HookName, H)>,
    feedback_sink: F,
    audit_sink: A,
    sink_failure_policy: SinkFailurePolicy,
}

/// The names of some hooks.
pub open spec fn names_of<H>(hooks: Seq<(HookName, H)>) -> Seq<Seq<char>> {
    hooks.map_values(|h: (HookName, H)| h.0@)
}

/// Whether these names can be those of a pipeline: identifiers, no two alike.
pub open spec fn names_valid(names: Seq<Seq<char>>) -> bool {
    &&& forall|i: int| 0 <= i < names.len() ==> is_identifier(#[trigger] names[i])
    &&& names.no_duplicates()
}

/// Whether `e` is what is wrong with the first name that cannot stand.
pub open spec fn names_error(names: Seq<Seq<char>>, e: PipelineError) -> bool {
    exists|i: int|
        {
            &&& 0 <= i < names.len()
            &&& names_valid(#[trigger] names.take(i))
            &&& match e {
                PipelineError::InvalidHookName(n) => n@ == names[i] && !is_identifier(names[i]),
                PipelineError::DuplicateHookName(n) => n@ == names[i] && is_identifier(names[i])
                    && names.take(i).contains(names[i]),
                _ => false,
            }
        }
}

fn find_name<H>(hooks: &Vec<(HookName, H)>, upto: usize, name: &HookName) -> (r: bool)
    requires
        upto <= hooks@.len(),
    ensures
        r == names_of(hooks@).take(upto as int).contains(name@),
{
    let ghost names = names_of(hooks@).take(upto as int);
    let mut i: usize = 0;
    while i < upto
        invariant
            i <= upto <= hooks@.len(),
            names == names_of(hooks@).take(upto as int),
            forall|k: int| 0 <= k < i ==> names[k] != name@,
        decreases upto - i,
    {
        assert(names[i as int] == hooks@[i as int].0@);
        if hooks[i].0.same(name) {
            return true;
        }
        i = i + 1;
    }
    false
}

fn validate_hooks<H>(hooks: &Vec<(HookName, H)>) -> (r: Result<(), PipelineError>)
    ensures
        match r {
            Ok(_) => names_valid(names_of(hooks@)),
            Err(e) => names_error(names_of(hooks@), e),
        },
{
    let ghost names = names_of(hooks@);
    let mut i: usize = 0;
    while i < hooks.len()
        invariant
            i <= hooks@.len(),
            names == names_of(hooks@),
            names_valid(names.take(i as int)),
        decreases hooks@.len() - i,
    {
        let name: &HookName = &hooks[i].0;
        assert(names[i as int] == name@);
        if !valid_identifier(name.as_str()) {
            let e: PipelineError = PipelineError::InvalidHookName(name.0.clone());
            assert(names_error(names, e)) by {
                assert(names_valid(names.take(i as int)));
            }
            return Err(e);
        }
        if find_name(hooks, i, name) {
            let e: PipelineError = PipelineError::DuplicateHookName(name.0.clone());
            assert(names_error(names, e)) by {
                assert(names_valid(names.take(i as int)));
            }
            return Err(e);
        }
        proof {
            let before = names.take(i as int);
            let after = names.take(i + 1);
            assert(after =~= before.push(name@));
            assert forall|k: int| 0 <= k < after.len() implies is_identifier(
                #[trigger] after[k],
            ) by {
                if k < i {
                    assert(after[k] == before[k]);
                }
            }
            assert forall|a: int, b: int| 0 <= a < after.len() && 0 <= b < after.len() && a
                != b implies after[a] != after[b] by {
                if a < i {
                    assert(after[a] == before[a]);
                }
                if b < i {
                    assert(after[b] == before[b]);
                }
            }
        }
        i = i + 1;
    }
    assert(names.take(names.len() as int) =~= names);
    Ok(())
}

impl<H, F, A> PreSendPipeline<H, F, A> {
    /// The hooks, with their names.
    pub closed spec fn hook_list(&self) -> Seq<(HookName, H)> {
        self.hooks@
    }

    /// The names of the hooks.
    pub open spec fn names(&self) -> Seq<Seq<char>> {
        names_of(self.hook_list())
    }

    /// The hook with this number.
    pub open spec fn hook_at(&self, i: int) -> H {
        self.hook_list()[i].1
    }

    /// The sink for the construct.
    pub closed spec fn feedback_sink_view(&self) -> F {
        self.feedback_sink
    }

    /// The sink for the audit.
    pub closed spec fn audit_sink_view(&self) -> A {
        self.audit_sink
    }

    /// Whether what hooks decide is applied.
    pub closed spec fn mode_view(&self) -> PipelineMode {
        self.mode
    }

    /// What happens where a sink fails.
    pub closed spec fn policy_view(&self) -> SinkFailurePolicy {
        self.sink_failure_policy
    }

    /// The pipeline's invariant: its hooks have valid names, no two alike.
    pub closed spec fn wf(&self) -> bool {
        names_valid(self.names())
    }

    /// The pipeline in another mode.
    pub fn with_mode(self, mode: PipelineMode) -> (r: Self)
        requires
            self.wf(),
        ensures
            r.wf(),
            r.hook_list() == self.hook_list(),
            r.mode_view() == mode,
            r.feedback_sink_view() == self.feedback_sink_view(),
            r.audit_sink_view() == self.audit_sink_view(),
            r.policy_view() == self.policy_view(),
    {
        let mut out: PreSendPipeline<H, F, A> = self;
        out.mode = mode;
        out
    }

    /// The pipeline with other sinks.
    pub fn with_sinks<F2, A2>(
        self,
        feedback_sink: F2,
        audit_sink: A2,
        failure_policy: SinkFailurePolicy,
    ) -> (r: PreSendPipeline<H, F2, A2>)
        requires
            self.wf(),
        ensures
            r.wf(),
            r.hook_list() == self.hook_list(),
            r.mode_view() == self.mode_view(),
            r.feedback_sink_view() == feedback_sink,
            r.audit_sink_view() == audit_sink,
            r.policy_view() == failure_policy,
    {
        PreSendPipeline {
            mode: self.mode,
            hooks: self.hooks,
            feedback_sink,
            audit_sink,
            sink_failure_policy: failure_policy,
        }
    }

    /// The hooks to be passed over, where the pipeline has each of them.
    pub fn no_rly(&self, names: &Vec<HookName>) -> (r: Result<NoRly, PipelineError>)
        ensures
            match r {
                Ok(no_rly) => {
                    &&& forall|i: int|
                        0 <= i < names@.len() ==> self.names().contains((#[trigger] names@[i])@)
                    &&& no_rly@ == hook_names(names@).to_set()
                },
                Err(e) => exists|i: int|
                    {
                        &&& 0 <= i < names@.len()
                        &&& !self.names().contains((#[trigger] names@[i])@)
                        &&& forall|k: int|
                            0 <= k < i ==> self.names().contains((#[trigger] names@[k])@)
                        &&& e matches PipelineError::UnknownHookName(n)
                        &&& n@ == names@[i]@
                    },
            },
    {
        let mut list: Vec<HookName> = Vec::new();
        let mut i: usize = 0;
        assert(self.names().take(self.names().len() as int) =~= self.names());
        while i < names.len()
            invariant
                i <= names@.len(),
                self.names().take(self.names().len() as int) == self.names(),
                list@ == names@.take(i as int),
                forall|k: int| 0 <= k < i ==> self.names().contains((#[trigger] names@[k])@),
            decreases names@.len() - i,
        {
            if !find_name(&self.hooks, self.hooks.len(), &names[i]) {
                return Err(PipelineError::UnknownHookName(names[i].clone()));
            }
            list.push(names[i].clone());
            assert(names@.take(i + 1) =~= names@.take(i as int).push(names@[i as int]));
            i = i + 1;
        }
        assert(names@.take(names@.len() as int) =~= names@);
        Ok(NoRly::new(list))
    }
}

impl<H> PreSendPipeline<H, NullFeedbackSink, NullAuditSink> {
    /// A pipeline of these hooks under these names, in observe mode.
    pub fn named(hooks: Vec<(HookName, H)>) -> (r: Result<Self, PipelineError>)
        ensures
            match r {
                Ok(p) => {
                    &&& p.wf()
                    &&& p.hook_list() == hooks@
                    &&& p.mode_view() is Observe
                    &&& p.policy_view() is Degrade
                },
                Err(e) => names_error(names_of(hooks@), e),
            },
    {
        match validate_hooks(&hooks) {
            Ok(_) => Ok(
                PreSendPipeline {
                    mode: PipelineMode::Observe,
                    hooks,
                    feedback_sink: NullFeedbackSink,
                    audit_sink: NullAuditSink,
                    sink_failure_policy: SinkFailurePolicy::Degrade,
                },
            ),
            Err(e) => Err(e),
        }
    }
}

/// Whether a hook can give this name.
pub open spec fn answers_to<H: PreSendHook>(hook: H, name: HookName) -> bool {
    call_ensures(H::name, (&hook,), name)
}

/// Whether these are the hooks, in their order, each with the name that it gave.
pub open spec fn introduced<H: PreSendHook>(hooks: Seq<H>, named: Seq<(HookName, H)>) -> bool {
    named.len() == hooks.len() && forall|i: int|
        0 <= i < named.len() ==> (#[trigger] named[i]).1 == hooks[i] && answers_to(
            hooks[i],
            named[i].0,
        )
}

impl<H: PreSendHook> PreSendPipeline<H, NullFeedbackSink, NullAuditSink> {
    /// A pipeline of these hooks, in observe mode. The hooks are asked for their
    /// names now.
    pub fn new(hooks: Vec<H>) -> (r: Result<Self, PipelineError>)
        ensures
            exists|named: Seq<(HookName, H)>| #[trigger]
                introduced(hooks@, named) && match r {
                    Ok(p) => {
                        &&& p.wf()
                        &&& p.hook_list() == named
                        &&& p.mode_view() is Observe
                        &&& p.policy_view() is Degrade
                    },
                    Err(e) => names_error(names_of(named), e),
                },
    {
        let ghost all = hooks@;
        let mut rest: Vec<H> = hooks;
        let mut named: Vec<(HookName, H)> = Vec::new();
        assert(all.skip(0) =~= all);
        while rest.len() > 0
            invariant
                named@.len() <= all.len(),
                rest@ == all.skip(named@.len() as int),
                introduced(all.take(named@.len() as int), named@),
            decreases rest@.len(),
        {
            let ghost i = named@.len() as int;
            let ghost before = named@;
            let hook: H = rest.remove(0);
            let name: HookName = hook.name();
            assert(hook == all[i]);
            assert(answers_to(hook, name));
            named.push((name, hook));
            assert(rest@ =~= all.skip(i + 1));
            assert forall|k: int| 0 <= k < i + 1 implies (#[trigger] named@[k]).1 == all[k]
                && answers_to(all[k], named@[k].0) by {
                if k < i {
                    assert(named@[k] == before[k]);
                    assert(all.take(i)[k] == all[k]);
                }
            }
        }
        assert(all.take(all.len() as int) =~= all);
        assert(introduced(all, named@));
        PreSendPipeline::named(named)
    }
}

/// Whether a pipeline has these hooks and sinks, is in observe mode, and sends a message
/// although a sink fails.
pub open spec fn observes<H, F, A>(
    p: PreSendPipeline<H, F, A>,
    named: Seq<(HookName, H)>,
    feedback_sink: F,
    audit_sink: A,
) -> bool {
    &&& p.wf()
    &&& p.hook_list() == named
    &&& p.mode_view() is Observe
    &&& p.feedback_sink_view() == feedback_sink
    &&& p.audit_sink_view() == audit_sink
    &&& p.policy_view() is Degrade
}

/// Builds the pipeline that a server runs: in observe mode, with these sinks, a
/// failure of which does not stop a message.
pub fn observe_pipeline<H: PreSendHook, F, A>(
    hooks: Vec<H>,
    feedback_sink: F,
    audit_sink: A,
) -> (r: Result<PreSendPipeline<H, F, A>, PipelineError>)
    ensures
        exists|named: Seq<(HookName, H)>| #[trigger]
            introduced(hooks@, named) && match r {
                Ok(p) => observes(p, named, feedback_sink, audit_sink),
                Err(e) => names_error(names_of(named), e),
            },
{
    match PreSendPipeline::new(hooks) {
        Ok(p) => Ok(p.with_sinks(feedback_sink, audit_sink, SinkFailurePolicy::Degrade)),
        Err(e) => Err(e),
    }
}

/// The pipeline that a server runs, or none where hooks are switched off.
pub fn configured_pipeline<H: PreSendHook, F, A>(
    enabled: bool,
    hooks: Vec<H>,
    feedback_sink: F,
    audit_sink: A,
) -> (r: Result<Option<PreSendPipeline<H, F, A>>, PipelineError>)
    ensures
        !enabled ==> (r matches Ok(p) && p is None),
        enabled ==> (exists|named: Seq<(HookName, H)>| #[trigger]
            introduced(hooks@, named) && match r {
                Ok(p) => p is Some && observes(p->Some_0, named, feedback_sink, audit_sink),
                Err(e) => names_error(names_of(named), e),
            }),
{
    if enabled {
        match observe_pipeline(hooks, feedback_sink, audit_sink) {
            Ok(p) => Ok(Some(p)),
            Err(e) => Err(e),
        }
    } else {
        Ok(None)
    }
}

/// A run under way.
pub struct Run {
    mode: PipelineMode,
    text: String,
    to_construct: ConstructFeedback,
    to_audit: AuditTrail,
    strictest: Option<HookDecision>,
    halted: bool,
}

/// The value of an optional output.
pub open spec fn output_opt(output: Option<HookOutput>) -> Option<OutputView> {
    match output {
        Some(o) => Some(o@),
        None => None,
    }
}

impl Run {
    /// How far the run has come.
    pub closed spec fn state(&self) -> RunView {
        RunView {
            text: self.text@,
            to_construct: self.to_construct@,
            to_audit: self.to_audit@,
            strictest: match self.strictest {
                Some(d) => Some(d@),
                None => None,
            },
            halted: self.halted,
        }
    }

    /// The mode that the run is in.
    pub closed spec fn mode_view(&self) -> PipelineMode {
        self.mode
    }

    /// A run over a text, before its first hook.
    pub fn start(mode: PipelineMode, text: &str) -> (r: Self)
        ensures
            r.mode_view() == mode,
            r.state() == run_start(text@),
    {
        Run {
            mode,
            text: text.to_owned(),
            to_construct: ConstructFeedback::default(),
            to_audit: AuditTrail::default(),
            strictest: None,
            halted: false,
        }
    }

    /// Notes that a hook is passed over.
    pub fn bypass(&mut self, construct_id: &str, hook_name: &HookName)
        ensures
            final(self).mode_view() == old(self).mode_view(),
            final(self).state() == after_bypass(old(self).state(), construct_id@, hook_name@),
    {
        let mut detail: String = "hook bypassed for construct `".to_owned();
        detail.append(construct_id);
        detail.append("`");
        let note: Assessment = Assessment::new("no-rly-bypass", ONE_BITS, detail.as_str());
        let ghost before = self.to_audit.0@;
        self.to_audit.0.push(note.attributed_to(hook_name));
        assert(assessment_views(self.to_audit.0@) =~= assessment_views(before).push(
            bypass_note(construct_id@, hook_name@),
        ));
    }

    /// Takes in what a hook returned. In observe mode only the findings for the
    /// audit count. In enforce mode a hook that broke down ends the run.
    pub fn take(&mut self, hook_name: &HookName, output: Option<HookOutput>) -> (r: Result<
        (),
        PipelineError,
    >)
        ensures
            final(self).mode_view() == old(self).mode_view(),
            match after_hook(
                old(self).mode_view(),
                Set::empty(),
                Seq::empty(),
                old(self).state(),
                hook_name@,
                output_opt(output),
            ) {
                Ok(run) => r is Ok && final(self).state() == run,
                Err(name) => r matches Err(PipelineError::HookPanicked(n)) && n@ == name,
            },
    {
        let o: HookOutput = match output {
            Some(o) => o,
            None => {
                match self.mode {
                    PipelineMode::Observe => {
                        let note: Assessment = Assessment::new(
                            "internal-error",
                            ONE_BITS,
                            "hook panicked during execution",
                        );
                        let mut notes: Vec<Assessment> = Vec::new();
                        notes.push(note);
                        append_attributed(&mut self.to_audit.0, hook_name, &notes);
                        assert(assessment_views(notes@) =~= seq![breakdown_note()]);
                        return Ok(());
                    },
                    PipelineMode::Enforce => {
                        return Err(PipelineError::HookPanicked(hook_name.0.clone()));
                    },
                }
            },
        };
        append_attributed(&mut self.to_audit.0, hook_name, &o.to_audit.0);
        match self.mode {
            PipelineMode::Observe => {
                return Ok(());
            },
            PipelineMode::Enforce => {},
        }
        append_attributed(&mut self.to_construct.0, hook_name, &o.to_construct.0);
        if let HookDecision::Rewrite { text } = &o.decision {
            self.text = text.clone();
        }
        let stricter: bool = match &self.strictest {
            Some(current) => o.decision.strictness() >= current.strictness(),
            None => true,
        };
        self.halted = matches!(o.decision, HookDecision::Halt { .. });
        if stricter {
            self.strictest = Some(o.decision);
        }
        Ok(())
    }
}

impl<H: PreSendHook, F: FeedbackSink, A: AuditSink> PreSendPipeline<H, F, A> {
    /// Whether hook `i` was shown the text as the hooks before it had left it,
    /// and returned `outputs[i]`; a hook that is passed over, or comes after a
    /// halt or a breakdown, is shown nothing.
    pub open spec fn consulted_at(
        &self,
        bypassed: Set<Seq<char>>,
        context: ContextView,
        outputs: Seq<Option<OutputView>>,
        i: int,
    ) -> bool {
        match after_hooks(
            self.mode_view(),
            bypassed,
            context.construct_id,
            context.text,
            self.names().take(i),
            outputs.take(i),
        ) {
            Ok(run) => !run.halted && !bypassed.contains(self.names()[i]) ==> said(
                self.hook_at(i),
                ContextView { text: run.text, ..context },
                outputs[i],
            ),
            Err(_) => true,
        }
    }

    /// Whether the hooks were shown what they are to be shown, and returned this.
    pub open spec fn consulted(
        &self,
        bypassed: Set<Seq<char>>,
        context: ContextView,
        outputs: Seq<Option<OutputView>>,
    ) -> bool {
        &&& outputs.len() == self.names().len()
        &&& forall|i: int|
            0 <= i < outputs.len() ==> #[trigger] self.consulted_at(bypassed, context, outputs, i)
    }

    /// Whether the sinks were given what the run found, in the context of the
    /// text that goes out, and answered this. A run that fails tells them nothing.
    pub open spec fn told(
        &self,
        bypassed: Set<Seq<char>>,
        context: ContextView,
        outputs: Seq<Option<OutputView>>,
        feedback: SinkReply,
        audit: SinkReply,
    ) -> bool {
        match after_hooks(
            self.mode_view(),
            bypassed,
            context.construct_id,
            context.text,
            self.names(),
            outputs,
        ) {
            Ok(run) => {
                let seen = ContextView {
                    text: sink_text(self.mode_view(), context.text, run),
                    ..context
                };
                &&& fed(self.feedback_sink_view(), run.to_construct, seen, feedback)
                &&& audited(self.audit_sink_view(), run.to_audit, seen, audit)
            },
            Err(_) => true,
        }
    }

    /// Runs the hooks over a message and hands their findings to the sinks.
    ///
    /// What the hooks and the sinks return is up to them: whatever it is, the
    /// outcome is the one that [`after_hooks`] and [`run_outcome`] give for it.
    pub fn run(&self, context: &HookContext, no_rly: &NoRly) -> (r: Result<
        PipelineOutcome,
        PipelineError,
    >)
        requires
            self.wf(),
            context.wf(),
        ensures
            if exists|name: Seq<char>| #[trigger]
                no_rly@.contains(name) && !self.names().contains(name) {
                r matches Err(PipelineError::UnknownHookName(n)) && no_rly@.contains(n@)
                    && !self.names().contains(n@)
            } else {
                exists|outputs: Seq<Option<OutputView>>, feedback: SinkReply, audit: SinkReply|
                    self.consulted(no_rly@, context@, outputs) && self.told(
                        no_rly@,
                        context@,
                        outputs,
                        feedback,
                        audit,
                    ) && #[trigger] ran_with(
                        self.mode_view(),
                        self.policy_view(),
                        no_rly@,
                        context@,
                        self.names(),
                        outputs,
                        feedback,
                        audit,
                        r,
                    )
            },
    {
        let ghost names = self.names();
        let ghost mode = self.mode;
        assert(names.take(names.len() as int) =~= names);
        let mut k: usize = 0;
        while k < no_rly.hook_names.len()
            invariant
                k <= no_rly.hook_names@.len(),
                names == self.names(),
                names.take(names.len() as int) == names,
                forall|j: int|
                    0 <= j < k ==> names.contains((#[trigger] no_rly.hook_names@[j])@),
            decreases no_rly.hook_names@.len() - k,
        {
            let name: &HookName = &no_rly.hook_names[k];
            if !find_name(&self.hooks, self.hooks.len(), name) {
                assert(hook_names(no_rly.hook_names@)[k as int] == name@);
                assert(no_rly@.contains(name@));
                return Err(PipelineError::UnknownHookName(name.clone()));
            }
            k = k + 1;
        }
        proof {
            assert forall|name: Seq<char>| #[trigger] no_rly@.contains(name) implies names.contains(
                name,
            ) by {
                let all = hook_names(no_rly.hook_names@);
                let j = choose|j: int| 0 <= j < all.len() && all[j] == name;
                assert(no_rly.hook_names@[j]@ == name);
            }
        }
        let mut run: Run = Run::start(self.mode, context.text());
        let ghost mut outputs: Seq<Option<OutputView>> = Seq::empty();
        let mut i: usize = 0;
        assert(names.take(0) =~= Seq::empty());
        while i < self.hooks.len()
            invariant
                i <= self.hooks@.len() == names.len(),
                names == self.names(),
                mode == self.mode,
                context.wf(),
                forall|name: Seq<char>| #[trigger] no_rly@.contains(name) ==> names.contains(name),
                outputs.len() == i,
                forall|j: int|
                    0 <= j < i ==> #[trigger] self.consulted_at(no_rly@, context@, outputs, j),
                run.mode_view() == mode,
                after_hooks(
                    mode,
                    no_rly@,
                    context@.construct_id,
                    context@.text,
                    names.take(i as int),
                    outputs,
                ) == Ok::<RunView, Seq<char>>(run.state()),
            decreases self.hooks@.len() - i,
        {
            let (hook_name, hook): &(HookName, H) = &self.hooks[i];
            let ghost before = run.state();
            let ghost earlier = outputs;
            proof {
                assert(names.take(i + 1).drop_last() =~= names.take(i as int));
                assert(names.take(i + 1).last() == hook_name@);
            }
            if run.halted {
                proof {
                    let had = outputs;
                    outputs = outputs.push(None);
                    assert(outputs.drop_last() =~= had);
                }
            } else if no_rly.bypasses(hook_name) {
                run.bypass(context.construct_id(), hook_name);
                proof {
                    let had = outputs;
                    outputs = outputs.push(None);
                    assert(outputs.drop_last() =~= had);
                }
            } else {
                let working: HookContext = context.with_text(run.text.as_str());
                let output: Option<HookOutput> = hook.execute(&working);
                proof {
                    let had = outputs;
                    outputs = outputs.push(output_opt(output));
                    assert(outputs.drop_last() =~= had);
                    assert(says(self.hook_at(i as int), working, output));
                    assert(said(
                        self.hook_at(i as int),
                        ContextView { text: before.text, ..context@ },
                        outputs[i as int],
                    ));
                }
                match run.take(hook_name, output) {
                    Ok(_) => {},
                    Err(e) => {
                        proof {
                            self.lemma_consulted_push(no_rly@, context@, earlier, outputs);
                            self.lemma_consulted_padded(no_rly@, context@, outputs);
                            lemma_failed_run(
                                mode,
                                no_rly@,
                                context@.construct_id,
                                context@.text,
                                names,
                                outputs,
                                (i + 1) as int,
                            );
                            let padded = padded_outputs(outputs, names.len());
                            assert(ran_with(
                                mode,
                                self.sink_failure_policy,
                                no_rly@,
                                context@,
                                names,
                                padded,
                                SinkReply::Recorded,
                                SinkReply::Recorded,
                                Err(e),
                            ));
                        }
                        return Err(e);
                    },
                }
            }
            proof {
                self.lemma_consulted_push(no_rly@, context@, earlier, outputs);
            }
            i = i + 1;
        }
        let ghost end = run.state();
        let Run { mode: run_mode, text, to_construct, to_audit, strictest, halted: _ } = run;
        let decision: HookDecision = match run_mode {
            PipelineMode::Observe => HookDecision::Continue,
            PipelineMode::Enforce => match strictest {
                Some(d) => d,
                None => HookDecision::Continue,
            },
        };
        let final_text: Option<String> = match run_mode {
            PipelineMode::Observe => Some(context.text().to_owned()),
            PipelineMode::Enforce => {
                if matches!(decision, HookDecision::Halt { .. }) {
                    None
                } else {
                    Some(text.clone())
                }
            },
        };
        let seen: &str = match &final_text {
            Some(t) => t.as_str(),
            None => text.as_str(),
        };
        let sink_context: HookContext = context.with_text(seen);
        let feedback: SinkReply = self.feedback_sink.record(&to_construct, &sink_context);
        let audit: SinkReply = self.audit_sink.record(&to_audit, &sink_context);
        let ghost (g_feedback, g_audit) = (feedback, audit);
        proof {
            assert(names.take(names.len() as int) =~= names);
            assert(feeds(self.feedback_sink, to_construct, sink_context, feedback));
            assert(audits(self.audit_sink, to_audit, sink_context, audit));
            assert(sink_context@ == (ContextView {
                text: sink_text(mode, context@.text, end),
                ..context@
            }));
            assert(fed(self.feedback_sink, end.to_construct, sink_context@, feedback));
            assert(audited(self.audit_sink, end.to_audit, sink_context@, audit));
            assert(self.told(no_rly@, context@, outputs, feedback, audit));
        }
        let mut sink_failures: Vec<SinkFailure> = Vec::new();
        capture_sink_failure(SinkKind::Feedback, &mut sink_failures, feedback);
        capture_sink_failure(SinkKind::Audit, &mut sink_failures, audit);
        proof {
            assert(names.take(names.len() as int) =~= names);
            let failures = failures_of(SinkKind::Feedback, g_feedback) + failures_of(
                SinkKind::Audit,
                g_audit,
            );
            assert(failure_views(sink_failures@) =~= failures);
        }
        let fail_closed: bool = match self.sink_failure_policy {
            SinkFailurePolicy::FailClosed => true,
            SinkFailurePolicy::Degrade => false,
        };
        if fail_closed && sink_failures.len() > 0 {
            let r: Result<PipelineOutcome, PipelineError> = Err(
                PipelineError::SinkFailures(sink_failures),
            );
            assert(ran_with(
                mode,
                self.sink_failure_policy,
                no_rly@,
                context@,
                names,
                outputs,
                g_feedback,
                g_audit,
                r,
            ));
            return r;
        }
        let r: Result<PipelineOutcome, PipelineError> = Ok(
            PipelineOutcome { decision, to_construct, to_audit, final_text, sink_failures },
        );
        assert(ran_with(
            mode,
            self.sink_failure_policy,
            no_rly@,
            context@,
            names,
            outputs,
            g_feedback,
            g_audit,
            r,
        ));
        r
    }
}

impl<H: PreSendHook, F: FeedbackSink, A: AuditSink> PreSendPipeline<H, F, A> {
    proof fn lemma_consulted_push(
        &self,
        bypassed: Set<Seq<char>>,
        context: ContextView,
        earlier: Seq<Option<OutputView>>,
        outputs: Seq<Option<OutputView>>,
    )
        requires
            outputs.len() == earlier.len() + 1,
            outputs.drop_last() == earlier,
            outputs.len() <= self.names().len(),
            forall|j: int|
                0 <= j < earlier.len() ==> #[trigger] self.consulted_at(
                    bypassed,
                    context,
                    earlier,
                    j,
                ),
            match after_hooks(
                self.mode_view(),
                bypassed,
                context.construct_id,
                context.text,
                self.names().take(earlier.len() as int),
                earlier,
            ) {
                Ok(run) => !run.halted && !bypassed.contains(
                    self.names()[earlier.len() as int],
                ) ==> said(
                    self.hook_at(earlier.len() as int),
                    ContextView { text: run.text, ..context },
                    outputs.last(),
                ),
                Err(_) => true,
            },
        ensures
            forall|j: int|
                0 <= j < outputs.len() ==> #[trigger] self.consulted_at(
                    bypassed,
                    context,
                    outputs,
                    j,
                ),
    {
        assert forall|j: int| 0 <= j < outputs.len() implies #[trigger] self.consulted_at(
            bypassed,
            context,
            outputs,
            j,
        ) by {
            if j < earlier.len() {
                assert(self.consulted_at(bypassed, context, earlier, j));
                assert(outputs.take(j) =~= earlier.take(j));
                assert(outputs[j] == earlier[j]);
            } else {
                assert(outputs.take(j) =~= earlier);
            }
        }
    }

    proof fn lemma_consulted_padded(
        &self,
        bypassed: Set<Seq<char>>,
        context: ContextView,
        outputs: Seq<Option<OutputView>>,
    )
        requires
            outputs.len() <= self.names().len(),
            forall|j: int|
                0 <= j < outputs.len() ==> #[trigger] self.consulted_at(
                    bypassed,
                    context,
                    outputs,
                    j,
                ),
            after_hooks(
                self.mode_view(),
                bypassed,
                context.construct_id,
                context.text,
                self.names().take(outputs.len() as int),
                outputs,
            ) is Err,
        ensures
            self.consulted(bypassed, context, padded_outputs(outputs, self.names().len())),
    {
        let names = self.names();
        let padded = padded_outputs(outputs, names.len());
        let n = outputs.len() as int;
        assert forall|j: int| 0 <= j < padded.len() implies #[trigger] self.consulted_at(
            bypassed,
            context,
            padded,
            j,
        ) by {
            if j < n {
                assert(self.consulted_at(bypassed, context, outputs, j));
                assert(padded.take(j) =~= outputs.take(j));
            } else {
                assert(names.take(j).take(n) =~= names.take(n));
                lemma_failed_run(
                    self.mode_view(),
                    bypassed,
                    context.construct_id,
                    context.text,
                    names.take(j),
                    outputs,
                    n,
                );
                assert(padded.take(j) =~= padded_outputs(outputs, j as nat));
            }
        }
    }
}

/// Outputs, filled up for the hooks that were not run.
spec fn padded_outputs(outputs: Seq<Option<OutputView>>, n: nat) -> Seq<Option<OutputView>> {
    Seq::new(
        n,
        |i: int|
            if i < outputs.len() {
                outputs[i]
            } else {
                None
            },
    )
}

/// A run that has failed stays failed, whatever later hooks would return.
proof fn lemma_failed_run(
    mode: PipelineMode,
    bypassed: Set<Seq<char>>,
    construct_id: Seq<char>,
    text: Seq<char>,
    names: Seq<Seq<char>>,
    outputs: Seq<Option<OutputView>>,
    n: int,
)
    requires
        outputs.len() == n <= names.len(),
        after_hooks(mode, bypassed, construct_id, text, names.take(n), outputs) is Err,
    ensures
        after_hooks(
            mode,
            bypassed,
            construct_id,
            text,
            names,
            padded_outputs(outputs, names.len()),
        ) == after_hooks(mode, bypassed, construct_id, text, names.take(n), outputs),
    decreases names.len(),
{
    let padded = padded_outputs(outputs, names.len());
    if n == names.len() {
        assert(names.take(n) =~= names);
        assert(padded =~= outputs);
    } else {
        let front = names.drop_last();
        assert(front.take(n) =~= names.take(n));
        lemma_failed_run(mode, bypassed, construct_id, text, front, outputs, n);
        assert(padded.drop_last() =~= padded_outputs(outputs, front.len()));
    }
}

/// Whether a run went as it does where the hooks and the sinks return this.
pub open spec fn ran_with(
    mode: PipelineMode,
    policy: SinkFailurePolicy,
    bypassed: Set<Seq<char>>,
    context: ContextView,
    names: Seq<Seq<char>>,
    outputs: Seq<Option<OutputView>>,
    feedback: SinkReply,
    audit: SinkReply,
    r: Result<PipelineOutcome, PipelineError>,
) -> bool {
    match after_hooks(mode, bypassed, context.construct_id, context.text, names, outputs) {
        Err(name) => r matches Err(PipelineError::HookPanicked(n)) && n@ == name,
        Ok(run) => {
            let failures = failures_of(SinkKind::Feedback, feedback) + failures_of(
                SinkKind::Audit,
                audit,
            );
            if policy is FailClosed && failures.len() > 0 {
                r matches Err(PipelineError::SinkFailures(f)) && failure_views(f@) == failures
            } else {
                r matches Ok(outcome) && outcome@ == run_outcome(mode, context.text, run, failures)
            }
        },
    }
}

// ── What holds of a run ─────────────────────────────────────────────────────

/// What the hook at an index decided, where it was asked and came to something.
pub open spec fn decided(
    bypassed: Set<Seq<char>>,
    names: Seq<Seq<char>>,
    outputs: Seq<Option<OutputView>>,
    i: int,
) -> Option<DecisionView> {
    if bypassed.contains(names[i]) {
        None
    } else {
        match outputs[i] {
            Some(o) => Some(o.decision),
            None => None,
        }
    }
}

/// A message is halted exactly when a hook that is not passed over halts it. The reason
/// is that of the first hook that does so.
pub proof fn law_any_hook_can_halt(
    bypassed: Set<Seq<char>>,
    construct_id: Seq<char>,
    text: Seq<char>,
    names: Seq<Seq<char>>,
    outputs: Seq<Option<OutputView>>,
)
    requires
        outputs.len() == names.len(),
    ensures
        after_hooks(
            PipelineMode::Enforce,
            bypassed,
            construct_id,
            text,
            names,
            outputs,
        ) matches Ok(run) ==> {
            &&& run_decision(PipelineMode::Enforce, run) is Halt <==> exists|i: int|
                0 <= i < names.len() && (#[trigger] decided(bypassed, names, outputs, i) matches Some(
                    d,
                ) && d is Halt)
            &&& run.halted <==> run_decision(PipelineMode::Enforce, run) is Halt
            &&& run_decision(PipelineMode::Enforce, run) is Halt ==> exists|i: int|
                0 <= i < names.len() && #[trigger] decided(bypassed, names, outputs, i) == Some(
                    run_decision(PipelineMode::Enforce, run),
                ) && forall|k: int|
                    0 <= k < i ==> !(#[trigger] decided(bypassed, names, outputs, k) matches Some(d)
                        && d is Halt)
        },
    decreases names.len(),
{
    if names.len() > 0 {
        let n = names.len() - 1;
        let front = names.drop_last();
        let given = outputs.drop_last();
        law_any_hook_can_halt(bypassed, construct_id, text, front, given);
        law_halting_stops_the_message(bypassed, construct_id, text, front, given);
        law_halting_stops_the_message(bypassed, construct_id, text, names, outputs);
        assert forall|i: int| 0 <= i < n implies #[trigger] decided(bypassed, names, outputs, i)
            == decided(bypassed, front, given, i) by {}
        let end = after_hooks(
            PipelineMode::Enforce,
            bypassed,
            construct_id,
            text,
            names,
            outputs,
        );
        let before = after_hooks(
            PipelineMode::Enforce,
            bypassed,
            construct_id,
            text,
            front,
            given,
        );
        if let Ok(run) = end {
            let had = before->Ok_0;
            if had.halted {
                let i = choose|i: int|
                    0 <= i < front.len() && #[trigger] decided(bypassed, front, given, i) == Some(
                        run_decision(PipelineMode::Enforce, had),
                    ) && forall|k: int|
                        0 <= k < i ==> !(#[trigger] decided(bypassed, front, given, k) matches Some(
                            d,
                        ) && d is Halt);
                assert(decided(bypassed, names, outputs, i) == decided(bypassed, front, given, i));
                assert forall|k: int| 0 <= k < i implies !(#[trigger] decided(
                    bypassed,
                    names,
                    outputs,
                    k,
                ) matches Some(d) && d is Halt) by {
                    assert(decided(bypassed, front, given, k) == decided(
                        bypassed,
                        names,
                        outputs,
                        k,
                    ));
                }
            } else {
                assert forall|k: int| 0 <= k < n implies !(#[trigger] decided(
                    bypassed,
                    names,
                    outputs,
                    k,
                ) matches Some(d) && d is Halt) by {
                    assert(decided(bypassed, front, given, k) == decided(
                        bypassed,
                        names,
                        outputs,
                        k,
                    ));
                }
                assert(decided(bypassed, names, outputs, n) == if bypassed.contains(names[n]) {
                    None
                } else {
                    Some(outputs[n]->0.decision)
                });
            }
        }
    }
}

/// Where no hook halts a message, it goes where the last hook that moves it says, if any
/// does. Hooks that are passed over have no say in it.
pub proof fn law_last_hook_to_move_a_message_wins(
    bypassed: Set<Seq<char>>,
    construct_id: Seq<char>,
    text: Seq<char>,
    names: Seq<Seq<char>>,
    outputs: Seq<Option<OutputView>>,
)
    requires
        outputs.len() == names.len(),
    ensures
        after_hooks(
            PipelineMode::Enforce,
            bypassed,
            construct_id,
            text,
            names,
            outputs,
        ) matches Ok(run) ==> (!run.halted ==> {
            let decision = run_decision(PipelineMode::Enforce, run);
            &&& decision is Redirect ==> exists|i: int|
                0 <= i < names.len() && #[trigger] decided(bypassed, names, outputs, i) == Some(
                    decision,
                ) && forall|k: int|
                    i < k < names.len() ==> !moves(#[trigger] decided(bypassed, names, outputs, k))
            &&& !(decision is Redirect) ==> forall|k: int|
                0 <= k < names.len() ==> !moves(#[trigger] decided(bypassed, names, outputs, k))
        }),
    decreases names.len(),
{
    if names.len() > 0 {
        let n = names.len() - 1;
        let front = names.drop_last();
        let given = outputs.drop_last();
        law_last_hook_to_move_a_message_wins(bypassed, construct_id, text, front, given);
        law_halting_stops_the_message(bypassed, construct_id, text, front, given);
        let end = after_hooks(
            PipelineMode::Enforce,
            bypassed,
            construct_id,
            text,
            names,
            outputs,
        );
        if end is Ok && !end->Ok_0.halted {
            let had = after_hooks(
                PipelineMode::Enforce,
                bypassed,
                construct_id,
                text,
                front,
                given,
            )->Ok_0;
            let before = run_decision(PipelineMode::Enforce, had);
            let decision = run_decision(PipelineMode::Enforce, end->Ok_0);
            let last = decided(bypassed, names, outputs, n);
            assert(!had.halted && !(before is Halt));
            assert(last == if bypassed.contains(names.last()) {
                None
            } else {
                Some(outputs.last()->0.decision)
            });
            if moves(last) {
                assert(decision == last->0);
            } else {
                assert(decision is Redirect <==> before is Redirect);
                assert(decision is Redirect ==> decision == before);
                if decision is Redirect {
                    let i = choose|i: int|
                        0 <= i < front.len() && #[trigger] decided(bypassed, front, given, i)
                            == Some(before) && forall|k: int|
                            i < k < front.len() ==> !moves(
                                #[trigger] decided(bypassed, front, given, k),
                            );
                    assert(decided(bypassed, names, outputs, i) == Some(decision));
                    assert forall|k: int| i < k < names.len() implies !moves(
                        #[trigger] decided(bypassed, names, outputs, k),
                    ) by {
                        if k < n {
                            assert(decided(bypassed, front, given, k) == decided(
                                bypassed,
                                names,
                                outputs,
                                k,
                            ));
                        }
                    }
                } else {
                    assert forall|k: int| 0 <= k < names.len() implies !moves(
                        #[trigger] decided(bypassed, names, outputs, k),
                    ) by {
                        if k < n {
                            assert(decided(bypassed, front, given, k) == decided(
                                bypassed,
                                names,
                                outputs,
                                k,
                            ));
                        }
                    }
                }
            }
        }
    }
}

/// Whether a hook decided to send the message elsewhere.
pub open spec fn moves(decision: Option<DecisionView>) -> bool {
    decision matches Some(DecisionView::Redirect { .. })
}

/// The text that a hook rewrote the message to, if it did.
pub open spec fn rewrites(decision: Option<DecisionView>) -> Option<Seq<char>> {
    match decision {
        Some(DecisionView::Rewrite { text }) => Some(text),
        _ => None,
    }
}

/// Where no hook halts a message, its text is that of the last hook that rewrites it, or
/// else its own; and that is the text that goes out. Hooks that are passed over have no
/// say in it.
pub proof fn law_last_hook_to_rewrite_a_message_wins(
    bypassed: Set<Seq<char>>,
    construct_id: Seq<char>,
    text: Seq<char>,
    names: Seq<Seq<char>>,
    outputs: Seq<Option<OutputView>>,
    i: int,
)
    requires
        outputs.len() == names.len(),
        -1 <= i < names.len(),
        i >= 0 ==> rewrites(decided(bypassed, names, outputs, i)) is Some,
        forall|k: int|
            i < k < names.len() ==> rewrites(#[trigger] decided(bypassed, names, outputs, k)) is None,
    ensures
        after_hooks(
            PipelineMode::Enforce,
            bypassed,
            construct_id,
            text,
            names,
            outputs,
        ) matches Ok(run) ==> (!run.halted ==> {
            &&& run.text == if i < 0 {
                text
            } else {
                rewrites(decided(bypassed, names, outputs, i))->0
            }
            &&& run_text(PipelineMode::Enforce, text, run) == Some(run.text)
        }),
    decreases names.len(),
{
    law_halting_stops_the_message(bypassed, construct_id, text, names, outputs);
    if names.len() > 0 {
        let n = names.len() - 1;
        let front = names.drop_last();
        let given = outputs.drop_last();
        let last = decided(bypassed, names, outputs, n);
        if i < n {
            assert(rewrites(last) is None);
            assert forall|k: int| i < k < front.len() implies rewrites(
                #[trigger] decided(bypassed, front, given, k),
            ) is None by {
                assert(decided(bypassed, front, given, k) == decided(bypassed, names, outputs, k));
            }
            if i >= 0 {
                assert(decided(bypassed, front, given, i) == decided(bypassed, names, outputs, i));
            }
            law_last_hook_to_rewrite_a_message_wins(bypassed, construct_id, text, front, given, i);
        } else {
            assert(i == n);
        }
    }
}

/// A hook that is passed over leaves the message as it is, and the audit is told of it
/// by name.
pub proof fn law_bypassed_hooks_have_no_say(
    mode: PipelineMode,
    bypassed: Set<Seq<char>>,
    construct_id: Seq<char>,
    run: RunView,
    name: Seq<char>,
    output: Option<OutputView>,
)
    requires
        bypassed.contains(name),
    ensures
        after_hook(mode, bypassed, construct_id, run, name, output) matches Ok(next) && {
            &&& next.text == run.text
            &&& next.strictest == run.strictest
            &&& next.halted == run.halted
            &&& next.to_construct == run.to_construct
            &&& next.to_audit.len() == run.to_audit.len() + 1
            &&& run.to_audit.is_prefix_of(next.to_audit)
            &&& next.to_audit.last().hook_name == Some(name)
            &&& next.to_audit.last().category == "no-rly-bypass"@
        },
{
    let next = after_bypass(run, construct_id, name);
    assert(next.to_audit.drop_last() =~= run.to_audit);
    assert(run.to_audit =~= next.to_audit.subrange(0, run.to_audit.len() as int));
}

/// What a hook finds for the audit reaches the audit, under its name and otherwise
/// unchanged, in either mode; what it finds for the construct reaches the construct
/// where the hooks are enforced. Nothing that was found before is lost.
pub proof fn law_findings_reach_their_readers(
    mode: PipelineMode,
    bypassed: Set<Seq<char>>,
    construct_id: Seq<char>,
    run: RunView,
    name: Seq<char>,
    o: OutputView,
)
    requires
        !bypassed.contains(name),
    ensures
        after_hook(mode, bypassed, construct_id, run, name, Some(o)) matches Ok(next) && {
            &&& run.to_audit.is_prefix_of(next.to_audit)
            &&& next.to_audit.len() == run.to_audit.len() + o.to_audit.len()
            &&& forall|i: int|
                0 <= i < o.to_audit.len() ==> #[trigger] next.to_audit[run.to_audit.len() + i] == (
                AssessmentView { hook_name: Some(name), ..o.to_audit[i] })
            &&& run.to_construct.is_prefix_of(next.to_construct)
            &&& mode == PipelineMode::Observe ==> next.to_construct == run.to_construct
            &&& mode == PipelineMode::Enforce ==> {
                &&& next.to_construct.len() == run.to_construct.len() + o.to_construct.len()
                &&& forall|i: int|
                    0 <= i < o.to_construct.len()
                        ==> #[trigger] next.to_construct[run.to_construct.len() + i] == (
                    AssessmentView { hook_name: Some(name), ..o.to_construct[i] })
            }
        },
{
    let next = after_hook(mode, bypassed, construct_id, run, name, Some(o))->Ok_0;
    assert(run.to_audit =~= next.to_audit.subrange(0, run.to_audit.len() as int));
    assert(run.to_construct =~= next.to_construct.subrange(0, run.to_construct.len() as int));
}

/// A hook that breaks down stops the message where the hooks are enforced, and is told
/// to the audit by its name where they only look on.
pub proof fn law_broken_hooks_stop_the_message(
    bypassed: Set<Seq<char>>,
    construct_id: Seq<char>,
    run: RunView,
    name: Seq<char>,
)
    requires
        !bypassed.contains(name),
    ensures
        after_hook(PipelineMode::Enforce, bypassed, construct_id, run, name, None) == Err::<
            RunView,
            Seq<char>,
        >(name),
        after_hook(PipelineMode::Observe, bypassed, construct_id, run, name, None) matches Ok(next)
            && next.text == run.text && next.halted == run.halted && next.to_construct
            == run.to_construct && next.to_audit.len() == run.to_audit.len() + 1
            && next.to_audit.last().hook_name == Some(name) && next.to_audit.last().category
            == "internal-error"@,
{
    let next = after_observed(run, name, None);
    assert(next.to_audit.last() == attributed(breakdown_note(), name));
}

/// The sinks are given what was found in the context of the text that goes out; where
/// none goes out, of the text as it last stood.
pub proof fn law_sinks_see_what_goes_out(mode: PipelineMode, original: Seq<char>, run: RunView)
    ensures
        mode == PipelineMode::Observe ==> sink_text(mode, original, run) == original,
        mode == PipelineMode::Enforce ==> sink_text(mode, original, run) == run.text,
        run_text(mode, original, run) matches Some(t) ==> sink_text(mode, original, run) == t,
{
}

/// A sink that fails stops the message under the policy that says so, and under no
/// other: there it is only told of. Where both sinks record what they are given, the
/// run ends with what the hooks decided.
pub proof fn law_failing_sinks_stop_where_they_must(
    mode: PipelineMode,
    policy: SinkFailurePolicy,
    bypassed: Set<Seq<char>>,
    context: ContextView,
    names: Seq<Seq<char>>,
    outputs: Seq<Option<OutputView>>,
    feedback: SinkReply,
    audit: SinkReply,
    r: Result<PipelineOutcome, PipelineError>,
)
    requires
        ran_with(mode, policy, bypassed, context, names, outputs, feedback, audit, r),
        after_hooks(mode, bypassed, context.construct_id, context.text, names, outputs) is Ok,
    ensures
        r is Err <==> policy == SinkFailurePolicy::FailClosed && !(feedback is Recorded
            && audit is Recorded),
        r is Err ==> r->Err_0 is SinkFailures,
        r matches Ok(outcome) ==> {
            let run = after_hooks(
                mode,
                bypassed,
                context.construct_id,
                context.text,
                names,
                outputs,
            )->Ok_0;
            &&& outcome@.decision == run_decision(mode, run)
            &&& outcome@.final_text == run_text(mode, context.text, run)
            &&& outcome@.to_construct == run.to_construct
            &&& outcome@.to_audit == run.to_audit
            &&& outcome@.sink_failures.len() == 0 <==> feedback is Recorded && audit is Recorded
        },
{
    let failures = failures_of(SinkKind::Feedback, feedback) + failures_of(SinkKind::Audit, audit);
    assert(failures.len() == failures_of(SinkKind::Feedback, feedback).len() + failures_of(
        SinkKind::Audit,
        audit,
    ).len());
}

/// A confidence lies between zero and one, as bits of a number of single precision: what
/// lies there already is kept, what is greater becomes one, and what is negative, endless
/// or no number becomes zero.
pub proof fn law_confidence_lies_between_zero_and_one(bits: u32)
    ensures
        normal_confidence(bits) <= 0x3f80_0000 || normal_confidence(bits) == 0x8000_0000,
        bits <= 0x3f80_0000 ==> normal_confidence(bits) == bits,
        0x3f80_0000 < bits < 0x7f80_0000 ==> normal_confidence(bits) == 0x3f80_0000,
        0x7f80_0000 <= bits < 0x8000_0000 ==> normal_confidence(bits) == 0,
        bits > 0x8000_0000 ==> normal_confidence(bits) == 0,
        normal_confidence(normal_confidence(bits)) == normal_confidence(bits),
{
}

/// A hook is asked about the message as it stands when its turn comes: with the text that
/// the hooks before it left where they are enforced, and with the message's own text where
/// they only look on; and with everything else as it was handed in.
pub proof fn law_hooks_see_the_text_as_it_stands<H: PreSendHook, F: FeedbackSink, A: AuditSink>(
    pipeline: PreSendPipeline<H, F, A>,
    bypassed: Set<Seq<char>>,
    context: ContextView,
    outputs: Seq<Option<OutputView>>,
    i: int,
)
    requires
        pipeline.consulted(bypassed, context, outputs),
        0 <= i < pipeline.names().len(),
        !bypassed.contains(pipeline.names()[i]),
        after_hooks(
            pipeline.mode_view(),
            bypassed,
            context.construct_id,
            context.text,
            pipeline.names().take(i),
            outputs.take(i),
        ) is Ok,
        !after_hooks(
            pipeline.mode_view(),
            bypassed,
            context.construct_id,
            context.text,
            pipeline.names().take(i),
            outputs.take(i),
        )->Ok_0.halted,
    ensures
        exists|hook: H, c: HookContext, o: Option<HookOutput>| #[trigger]
            call_ensures(H::execute, (&hook, &c), o) && hook == pipeline.hook_list()[i].1 && {
                &&& c@.destination == context.destination
                &&& c@.author_id == context.author_id
                &&& c@.channel_type == context.channel_type
                &&& c@.guild_id == context.guild_id
                &&& c@.reply_to_message_id == context.reply_to_message_id
                &&& c@.construct_id == context.construct_id
                &&& c@.metadata == context.metadata
                &&& pipeline.mode_view() == PipelineMode::Observe ==> c@.text == context.text
                &&& c@.text == after_hooks(
                    pipeline.mode_view(),
                    bypassed,
                    context.construct_id,
                    context.text,
                    pipeline.names().take(i),
                    outputs.take(i),
                )->Ok_0.text
                &&& match outputs[i] {
                    Some(output) => o matches Some(x) && x@ == output,
                    None => o is None,
                }
            },
{
    let mode = pipeline.mode_view();
    let names = pipeline.names().take(i);
    let given = outputs.take(i);
    let run = after_hooks(mode, bypassed, context.construct_id, context.text, names, given)->Ok_0;
    assert(pipeline.consulted_at(bypassed, context, outputs, i));
    let hook = pipeline.hook_at(i);
    let (c, o) = choose|c: HookContext, o: Option<HookOutput>| #[trigger]
        says(hook, c, o) && c@ == (ContextView { text: run.text, ..context }) && output_opt(o)
            == outputs[i];
    assert(says(hook, c, o));
    assert(call_ensures(H::execute, (&hook, &c), o));
    if mode == PipelineMode::Observe {
        law_observing_changes_nothing(
            bypassed,
            context.construct_id,
            context.text,
            names,
            given,
            Seq::empty(),
        );
    }
}

/// What the hooks found for the construct goes to the one sink, and what they found for
/// the audit to the other, each time with the message as it goes out.
pub proof fn law_sinks_are_told_what_was_found<H: PreSendHook, F: FeedbackSink, A: AuditSink>(
    pipeline: PreSendPipeline<H, F, A>,
    bypassed: Set<Seq<char>>,
    context: ContextView,
    outputs: Seq<Option<OutputView>>,
    feedback: SinkReply,
    audit: SinkReply,
    run: RunView,
)
    requires
        pipeline.told(bypassed, context, outputs, feedback, audit),
        after_hooks(
            pipeline.mode_view(),
            bypassed,
            context.construct_id,
            context.text,
            pipeline.names(),
            outputs,
        ) == Ok::<RunView, Seq<char>>(run),
    ensures
        exists|f: ConstructFeedback, c: HookContext|
            f@ == run.to_construct && c@.text == sink_text(
                pipeline.mode_view(),
                context.text,
                run,
            ) && c@.destination == context.destination && #[trigger] call_ensures(
                F::record,
                (&pipeline.feedback_sink_view(), &f, &c),
                feedback,
            ),
        exists|t: AuditTrail, c: HookContext|
            t@ == run.to_audit && c@.text == sink_text(pipeline.mode_view(), context.text, run)
                && c@.destination == context.destination && #[trigger] call_ensures(
                A::record,
                (&pipeline.audit_sink_view(), &t, &c),
                audit,
            ),
{
    let seen = ContextView {
        text: sink_text(pipeline.mode_view(), context.text, run),
        ..context
    };
    assert(fed(pipeline.feedback_sink_view(), run.to_construct, seen, feedback));
    let (f, c) = choose|f: ConstructFeedback, c: HookContext| #[trigger]
        feeds(pipeline.feedback_sink_view(), f, c, feedback) && f@ == run.to_construct && c@ == seen;
    assert(call_ensures(F::record, (&pipeline.feedback_sink_view(), &f, &c), feedback));
    assert(audited(pipeline.audit_sink_view(), run.to_audit, seen, audit));
    let (t, d) = choose|t: AuditTrail, d: HookContext| #[trigger]
        audits(pipeline.audit_sink_view(), t, d, audit) && t@ == run.to_audit && d@ == seen;
    assert(call_ensures(A::record, (&pipeline.audit_sink_view(), &t, &d), audit));
}

/// A name is made of small letters, digits and hyphens, and neither starts nor ends with a
/// hyphen.
pub proof fn law_names_are_identifiers(name: Seq<char>)
    ensures
        is_identifier(name) <==> name.len() > 0 && name[0] != '-' && name[name.len() - 1] != '-'
            && forall|i: int|
            0 <= i < name.len() ==> 'a' <= (#[trigger] name[i]) <= 'z' || '0' <= name[i] <= '9'
                || name[i] == '-',
{
}

/// The hooks of a pipeline have names of their own: an error is told of exactly where one
/// has a name that is none, or that another before it has.
pub proof fn law_hooks_have_names_of_their_own(names: Seq<Seq<char>>, e: PipelineError)
    ensures
        names_valid(names) <==> (forall|i: int|
            0 <= i < names.len() ==> is_identifier(#[trigger] names[i])) && (forall|i: int, j: int|
            0 <= i < j < names.len() ==> (#[trigger] names[i]) != (#[trigger] names[j])),
        names_error(names, e) ==> !names_valid(names) && (e is InvalidHookName
            || e is DuplicateHookName),
{
    if names_error(names, e) {
        let i = choose|i: int|
            {
                &&& 0 <= i < names.len()
                &&& names_valid(#[trigger] names.take(i))
                &&& match e {
                    PipelineError::InvalidHookName(n) => n@ == names[i] && !is_identifier(names[i]),
                    PipelineError::DuplicateHookName(n) => n@ == names[i] && is_identifier(names[i])
                        && names.take(i).contains(names[i]),
                    _ => false,
                }
            };
        if names.take(i).contains(names[i]) {
            let k = choose|k: int| 0 <= k < names.take(i).len() && names.take(i)[k] == names[i];
            assert(names[k] == names[i] && k < i);
        }
    }
}

/// A sink that recorded what it was given has not failed; any other has, once, and is told
/// of by its kind.
pub proof fn law_failing_sinks_are_told_of(sink: SinkKind, reply: SinkReply)
    ensures
        failures_of(sink, reply).len() == 0 <==> reply is Recorded,
        !(reply is Recorded) ==> failures_of(sink, reply).len() == 1 && failures_of(
            sink,
            reply,
        )[0].0 == sink,
        reply matches SinkReply::Failed(e) ==> failures_of(sink, reply)[0].1 == e.0@,
{
}

/// Findings that differ only in the sign of a zero are the same.
pub proof fn law_zero_has_no_sign(a: AssessmentView, b: AssessmentView)
    ensures
        same_finding(a, a),
        same_finding(a, b) ==> same_finding(b, a),
        same_finding(a, b) ==> a.hook_name == b.hook_name && a.category == b.category && a.detail
            == b.detail,
        same_confidence(0, 0x8000_0000),
        same_confidence(a.confidence, b.confidence) && a.confidence % 0x8000_0000 != 0
            ==> a.confidence == b.confidence,
{
}

/// A pipeline that was just made only looks on, and goes on where a sink fails: it has the
/// hooks that it was given, in order.
pub proof fn law_new_pipelines_look_on<H>(
    hooks: Vec<(HookName, H)>,
    r: Result<PreSendPipeline<H, NullFeedbackSink, NullAuditSink>, PipelineError>,
)
    requires
        call_ensures(
            PreSendPipeline::<H, NullFeedbackSink, NullAuditSink>::named,
            (hooks,),
            r,
        ),
    ensures
        r matches Ok(p) ==> p.mode_view() is Observe && p.policy_view() is Degrade && p.hook_list()
            == hooks@,
        names_valid(names_of(hooks@)) ==> r is Ok,
{
    if r is Err {
        law_hooks_have_names_of_their_own(names_of(hooks@), r->Err_0);
    }
}

/// What is passed over was named, and every name is that of a hook.
pub proof fn law_only_hooks_can_be_passed_over<H, F, A>(
    pipeline: &PreSendPipeline<H, F, A>,
    names: &Vec<HookName>,
    r: Result<NoRly, PipelineError>,
    name: Seq<char>,
)
    requires
        call_ensures(PreSendPipeline::<H, F, A>::no_rly, (pipeline, names), r),
    ensures
        r matches Ok(no_rly) ==> (no_rly@.contains(name) ==> pipeline.names().contains(name)),
        r matches Ok(no_rly) ==> (no_rly@.contains(name) <==> exists|i: int|
            0 <= i < names@.len() && (#[trigger] names@[i])@ == name),
        (forall|i: int| 0 <= i < names@.len() ==> pipeline.names().contains((#[trigger] names@[i])@))
            ==> r is Ok,
{
    if let Ok(no_rly) = r {
        let list = hook_names(names@);
        if no_rly@.contains(name) {
            assert(list.contains(name));
            let i = choose|i: int| 0 <= i < list.len() && list[i] == name;
            assert(names@[i]@ == name);
        }
        if exists|i: int| 0 <= i < names@.len() && (#[trigger] names@[i])@ == name {
            let i = choose|i: int| 0 <= i < names@.len() && (#[trigger] names@[i])@ == name;
            assert(list[i] == name);
            assert(list.contains(name));
        }
    }
}

/// Where hooks are switched off there is no pipeline. Where they are switched on, it has all
/// of them in order, under the names that they give themselves, and the sinks that it was
/// given; it only looks on, and a sink that fails does not stop a message.
pub proof fn law_configured_pipelines_look_on<H: PreSendHook, F, A>(
    enabled: bool,
    hooks: Vec<H>,
    feedback_sink: F,
    audit_sink: A,
    r: Result<Option<PreSendPipeline<H, F, A>>, PipelineError>,
    i: int,
)
    requires
        call_ensures(
            configured_pipeline::<H, F, A>,
            (enabled, hooks, feedback_sink, audit_sink),
            r,
        ),
    ensures
        !enabled ==> r is Ok && r->Ok_0 is None,
        r matches Ok(Some(p)) ==> {
            &&& enabled
            &&& p.mode_view() == PipelineMode::Observe
            &&& p.policy_view() is Degrade
            &&& p.feedback_sink_view() == feedback_sink
            &&& p.audit_sink_view() == audit_sink
            &&& p.hook_list().len() == hooks@.len()
            &&& 0 <= i < hooks@.len() ==> p.hook_list()[i].1 == hooks@[i] && answers_to(
                hooks@[i],
                p.hook_list()[i].0,
            )
        },
        enabled && r is Ok ==> r->Ok_0 is Some,
{
}

} // verus!
