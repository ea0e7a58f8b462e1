//! One message, sent by a process that ends afterwards.
//!
//! Everything that can be refused is refused before anything is posted, and a
//! post that fails is never repeated here. Talking to Discord is left to the
//! caller; what it is told, and what is made of the answers, is decided here.

use vstd::prelude::*;
use crate::contradictionary::Contradictionary;
use crate::gate::contains_id;
use crate::json::{self, Json, JsonView, Object};
use crate::no_rly::judge::{self, OutboundJudge, Verdict};
use crate::pre_send::{
    self, AuditSink, ChannelType, ConstructId, ContextView, DecisionView, FeedbackSink, HookContext,
    HookDecision, HookName, NoRly, OutboundDestination, OutputView, PipelineError,
    PipelineOutcome, PreSendHook, PreSendPipeline, SinkReply,
};
use crate::text;

verus! {

// ── Token source ────────────────────────────────────────────────────────────

/// Where the bot token is read from.
#[derive(Debug, PartialEq, Eq)]
pub enum TokenSource {
    /// The configuration.
    Config,
    /// An environment variable, by name.
    Env(String),
}

impl Clone for TokenSource {
    fn clone(&self) -> (r: Self)
        ensures
            r == *self,
    {
        match self {
            TokenSource::Config => TokenSource::Config,
            TokenSource::Env(var) => TokenSource::Env(var.clone()),
        }
    }
}

/// Whether a name is made of ASCII letters, digits and underscores.
pub open spec fn is_variable_name(name: Seq<char>) -> bool {
    &&& name.len() > 0
    &&& forall|i: int|
        0 <= i < name.len() ==> {
            let c = #[trigger] name[i];
            text::is_digit(c) || 'a' <= c <= 'z' || 'A' <= c <= 'Z' || c == '_'
        }
}

fn valid_variable_name(name: &Vec<char>, from: usize) -> (r: bool)
    requires
        from <= name@.len(),
    ensures
        r == is_variable_name(name@.skip(from as int)),
{
    let ghost var = name@.skip(from as int);
    if from == name.len() {
        return false;
    }
    let mut i: usize = from;
    while i < name.len()
        invariant
            from <= i <= name@.len(),
            var == name@.skip(from as int),
            forall|k: int|
                0 <= k < i - from ==> {
                    let c = #[trigger] var[k];
                    text::is_digit(c) || 'a' <= c <= 'z' || 'A' <= c <= 'Z' || c == '_'
                },
        decreases name@.len() - i,
    {
        let c: char = name[i];
        assert(var[i - from] == c);
        if !((c >= '0' && c <= '9') || (c >= 'a' && c <= 'z') || (c >= 'A' && c <= 'Z') || c
            == '_') {
            return false;
        }
        i = i + 1;
    }
    true
}

/// The text of a token source.
pub open spec fn source_text(source: TokenSource) -> Seq<char> {
    match source {
        TokenSource::Config => "config"@,
        TokenSource::Env(var) => "env:"@ + var@,
    }
}

impl TokenSource {
    /// Reads `config` or `env:` and a variable's name.
    pub fn parse(value: &str) -> (r: Result<TokenSource, String>)
        ensures
            value@ == "config"@ <==> r matches Ok(TokenSource::Config),
            match r {
                Ok(TokenSource::Config) => value@ == "config"@,
                Ok(TokenSource::Env(var)) => value@ == "env:"@ + var@ && is_variable_name(var@),
                Err(message) => {
                    &&& value@ != "config"@
                    &&& if text::occurs_at(value@, "env:"@, 0) {
                        &&& !is_variable_name(value@.skip(4))
                        &&& message@
                            == "--token-source env:<VAR> needs a non-empty [A-Za-z0-9_] variable name, got "@
                            + text::debug_text(value@)
                    } else {
                        message@ == "--token-source must be `config` or `env:<VAR>`, got "@
                            + text::debug_text(value@)
                    }
                },
            },
    {
        proof {
            reveal_strlit("config");
            reveal_strlit("env:");
        }
        if text::str_eq(value, "config") {
            return Ok(TokenSource::Config);
        }
        let shown: String = text::debug_string(value);
        if text::starts_with(value, "env:") {
            let chars: Vec<char> = text::chars_of(value);
            if !valid_variable_name(&chars, 4) {
                let mut message: String =
                    "--token-source env:<VAR> needs a non-empty [A-Za-z0-9_] variable name, got ".to_owned();
                message.append(shown.as_str());
                return Err(message);
            }
            let var: String = text::string_between(&chars, 4, chars.len());
            assert(chars@.subrange(4, chars@.len() as int) =~= value@.skip(4));
            assert(value@ =~= value@.subrange(0, 4) + value@.skip(4));
            return Ok(TokenSource::Env(var));
        }
        let mut message: String = "--token-source must be `config` or `env:<VAR>`, got ".to_owned();
        message.append(shown.as_str());
        Err(message)
    }

    /// The source as [`TokenSource::parse`] reads it.
    pub fn to_string(&self) -> (r: String)
        ensures
            r@ == source_text(*self),
    {
        match self {
            TokenSource::Config => "config".to_owned(),
            TokenSource::Env(var) => {
                let mut out: String = "env:".to_owned();
                out.append(var.as_str());
                out
            },
        }
    }
}

// ── Requests, refusals, outcomes ────────────────────────────────────────────

/// What is asked for.
pub struct SendRequest {
    pub channel_id: u64,
    pub expect_identity: u64,
    pub message: String,
    pub token_source: TokenSource,
    pub allow_multi_chunk: bool,
    pub dry_run: bool,
    /// A key under which Discord drops a prompt repetition.
    pub nonce: Option<String>,
}

/// The most characters that Discord takes in a nonce.
pub const NONCE_MAX_LEN: usize = 25;

/// Why a message is refused.
#[derive(Clone, Copy, Debug, PartialEq, Eq, Structural)]
pub enum Reason {
    /// The arguments are wrong.
    Usage,
    ConfigInvalid,
    NoToken,
    IdentityMismatch,
    NotPermittedTarget,
    WouldChunk,
    ContradictionaryBounce,
    SendFailed,
}

/// The word for a reason.
pub open spec fn slug_text(reason: Reason) -> Seq<char> {
    match reason {
        Reason::Usage => "usage"@,
        Reason::ConfigInvalid => "config_invalid"@,
        Reason::NoToken => "no_token"@,
        Reason::IdentityMismatch => "identity_mismatch"@,
        Reason::NotPermittedTarget => "not_permitted_target"@,
        Reason::WouldChunk => "would_chunk"@,
        Reason::ContradictionaryBounce => "contradictionary_bounce"@,
        Reason::SendFailed => "send_failed"@,
    }
}

/// The exit status for a reason: one for a wrong call, two for a refusal before
/// anything was posted, three where Discord failed.
pub open spec fn exit_status(reason: Reason) -> i32 {
    match reason {
        Reason::Usage | Reason::ConfigInvalid => 1,
        Reason::SendFailed => 3,
        _ => 2,
    }
}

impl Reason {
    /// Every reason.
    pub fn all() -> (r: Vec<Reason>)
        ensures
            r@.no_duplicates(),
            forall|reason: Reason| #[trigger] r@.contains(reason),
    {
        let r: Vec<Reason> = vec![
            Reason::Usage,
            Reason::ConfigInvalid,
            Reason::NoToken,
            Reason::IdentityMismatch,
            Reason::NotPermittedTarget,
            Reason::WouldChunk,
            Reason::ContradictionaryBounce,
            Reason::SendFailed,
        ];
        proof {
            assert forall|reason: Reason| #[trigger] r@.contains(reason) by {
                match reason {
                    Reason::Usage => assert(r@[0] == reason),
                    Reason::ConfigInvalid => assert(r@[1] == reason),
                    Reason::NoToken => assert(r@[2] == reason),
                    Reason::IdentityMismatch => assert(r@[3] == reason),
                    Reason::NotPermittedTarget => assert(r@[4] == reason),
                    Reason::WouldChunk => assert(r@[5] == reason),
                    Reason::ContradictionaryBounce => assert(r@[6] == reason),
                    Reason::SendFailed => assert(r@[7] == reason),
                }
            }
        }
        r
    }

    /// The word for the reason.
    pub fn slug(self) -> (r: &'static str)
        ensures
            r@ == slug_text(self),
    {
        match self {
            Reason::Usage => "usage",
            Reason::ConfigInvalid => "config_invalid",
            Reason::NoToken => "no_token",
            Reason::IdentityMismatch => "identity_mismatch",
            Reason::NotPermittedTarget => "not_permitted_target",
            Reason::WouldChunk => "would_chunk",
            Reason::ContradictionaryBounce => "contradictionary_bounce",
            Reason::SendFailed => "send_failed",
        }
    }

    /// The exit status of the process.
    pub fn exit_code(self) -> (r: i32)
        ensures
            r == exit_status(self),
    {
        match self {
            Reason::Usage | Reason::ConfigInvalid => 1,
            Reason::NoToken
            | Reason::IdentityMismatch
            | Reason::NotPermittedTarget
            | Reason::WouldChunk
            | Reason::ContradictionaryBounce => 2,
            Reason::SendFailed => 3,
        }
    }

    /// Whether a refusal for this reason can ever be worth a retry.
    pub fn may_retry(self) -> (r: bool)
        ensures
            r == (self is SendFailed),
    {
        matches!(self, Reason::SendFailed)
    }
}

/// A refusal.
#[derive(Debug, PartialEq, Eq)]
pub struct Refusal {
    pub reason: Reason,
    pub detail: String,
    /// Whether a retry can help.
    pub retryable: bool,
    /// Whether the message may have been posted nevertheless.
    pub delivery_ambiguous: bool,
}

/// A [`Refusal`] as a value.
#[verifier::ext_equal]
pub struct RefusalView {
    pub reason: Reason,
    pub detail: Seq<char>,
    pub retryable: bool,
    pub delivery_ambiguous: bool,
}

impl View for Refusal {
    type V = RefusalView;

    open spec fn view(&self) -> RefusalView {
        RefusalView {
            reason: self.reason,
            detail: self.detail@,
            retryable: self.retryable,
            delivery_ambiguous: self.delivery_ambiguous,
        }
    }
}

/// A refusal that a retry cannot change.
pub open spec fn refusal(reason: Reason, detail: Seq<char>) -> RefusalView {
    RefusalView { reason, detail, retryable: false, delivery_ambiguous: false }
}

/// A failure of Discord.
pub open spec fn failure(detail: Seq<char>, retryable: bool) -> RefusalView {
    RefusalView { reason: Reason::SendFailed, detail, retryable, delivery_ambiguous: false }
}

/// A failure after which the message may have been posted or not.
pub open spec fn ambiguity(detail: Seq<char>) -> RefusalView {
    RefusalView {
        reason: Reason::SendFailed,
        detail: detail + "; delivery ambiguous; reconcile before resending"@,
        retryable: false,
        delivery_ambiguous: true,
    }
}

impl Refusal {
    /// The exit status of the process.
    pub fn exit_code(&self) -> (r: i32)
        ensures
            r == exit_status(self.reason),
    {
        self.reason.exit_code()
    }

    /// A refusal that a retry cannot change.
    pub fn new(reason: Reason, detail: String) -> (r: Self)
        ensures
            r@ == refusal(reason, detail@),
    {
        Refusal { reason, detail, retryable: false, delivery_ambiguous: false }
    }

    /// A failure of Discord.
    pub fn send_failed(detail: String, retryable: bool) -> (r: Self)
        ensures
            r@ == failure(detail@, retryable),
    {
        Refusal { reason: Reason::SendFailed, detail, retryable, delivery_ambiguous: false }
    }

    /// A failure after which the message may have been posted or not.
    pub fn send_ambiguous(detail: String) -> (r: Self)
        ensures
            r@ == ambiguity(detail@),
    {
        let mut text: String = detail;
        text.append("; delivery ambiguous; reconcile before resending");
        Refusal {
            reason: Reason::SendFailed,
            detail: text,
            retryable: false,
            delivery_ambiguous: true,
        }
    }
}

/// The bot that the message is sent as.
#[derive(Debug, PartialEq, Eq)]
pub struct Identity {
    pub bot_user_id: u64,
    pub username: String,
    pub token_source: TokenSource,
}

/// How a call ends.
#[derive(Debug, PartialEq, Eq)]
pub enum Outcome {
    /// The message was posted.
    Sent { channel_id: u64, message_ids: Vec<u64>, identity: Identity },
    /// The message could have been posted, and was not to be.
    PreflightOk { channel_id: u64, chunks: usize, identity: Identity },
    /// The message was refused.
    Refused(Refusal),
}

impl From<Refusal> for Outcome {
    fn from(refusal: Refusal) -> (r: Self) {
        Outcome::Refused(refusal)
    }
}

impl vstd::std_specs::convert::FromSpecImpl<Refusal> for Outcome {
    open spec fn obeys_from_spec() -> bool {
        true
    }

    open spec fn from_spec(refusal: Refusal) -> Outcome {
        Outcome::Refused(refusal)
    }
}

/// The bot as JSON.
pub open spec fn identity_view(identity: Identity) -> JsonView {
    JsonView::Object(
        seq![
            ("bot_user_id"@, json::id_view(identity.bot_user_id)),
            ("username"@, JsonView::Text(identity.username@)),
            ("token_source"@, JsonView::Text(source_text(identity.token_source))),
        ],
    )
}

/// An outcome as JSON: one object, with identifiers as strings.
pub open spec fn outcome_view(outcome: Outcome) -> JsonView {
    match outcome {
        Outcome::Sent { channel_id, message_ids, identity } => JsonView::Object(
            seq![
                ("ok"@, JsonView::Bool(true)),
                ("status"@, JsonView::Text("sent"@)),
                ("retryable"@, JsonView::Bool(false)),
                ("delivery_ambiguous"@, JsonView::Bool(false)),
                ("channel_id"@, json::id_view(channel_id)),
                ("message_ids"@, json::ids_view(message_ids@)),
                ("identity"@, identity_view(identity)),
            ],
        ),
        Outcome::PreflightOk { channel_id, chunks, identity } => JsonView::Object(
            seq![
                ("ok"@, JsonView::Bool(true)),
                ("status"@, JsonView::Text("preflight_ok"@)),
                ("retryable"@, JsonView::Bool(false)),
                ("delivery_ambiguous"@, JsonView::Bool(false)),
                ("channel_id"@, json::id_view(channel_id)),
                ("chunks"@, JsonView::Unsigned(chunks as u64)),
                ("identity"@, identity_view(identity)),
            ],
        ),
        Outcome::Refused(refusal) => JsonView::Object(
            seq![
                ("ok"@, JsonView::Bool(false)),
                ("status"@, JsonView::Text("refused"@)),
                ("reason"@, JsonView::Text(slug_text(refusal.reason))),
                ("detail"@, JsonView::Text(refusal.detail@)),
                ("retryable"@, JsonView::Bool(refusal.retryable)),
                ("delivery_ambiguous"@, JsonView::Bool(refusal.delivery_ambiguous)),
            ],
        ),
    }
}

fn identity_json(identity: &Identity) -> (r: Json)
    ensures
        r@ == identity_view(*identity),
{
    broadcast use json::lemma_json_view;

    let mut o: Object = Object::new();
    o.put("bot_user_id", Json::id(identity.bot_user_id));
    o.put("username", Json::string(identity.username.as_str()));
    let source: String = identity.token_source.to_string();
    o.put("token_source", Json::Text(source));
    assert(o.fields() =~= identity_view(*identity)->Object_0);
    o.done()
}

impl Outcome {
    /// The exit status of the process.
    pub fn exit_code(&self) -> (r: i32)
        ensures
            r == match self {
                Outcome::Refused(refusal) => exit_status(refusal.reason),
                _ => 0,
            },
    {
        match self {
            Outcome::Sent { .. } | Outcome::PreflightOk { .. } => 0,
            Outcome::Refused(refusal) => refusal.reason.exit_code(),
        }
    }

    /// The outcome as JSON.
    pub fn to_json(&self) -> (r: Json)
        ensures
            r@ == outcome_view(*self),
    {
        broadcast use json::lemma_json_view;

        let mut o: Object = Object::new();
        match self {
            Outcome::Sent { channel_id, message_ids, identity } => {
                o.put("ok", Json::Bool(true));
                o.put("status", Json::string("sent"));
                o.put("retryable", Json::Bool(false));
                o.put("delivery_ambiguous", Json::Bool(false));
                o.put("channel_id", Json::id(*channel_id));
                o.put("message_ids", json::ids(message_ids));
                o.put("identity", identity_json(identity));
            },
            Outcome::PreflightOk { channel_id, chunks, identity } => {
                o.put("ok", Json::Bool(true));
                o.put("status", Json::string("preflight_ok"));
                o.put("retryable", Json::Bool(false));
                o.put("delivery_ambiguous", Json::Bool(false));
                o.put("channel_id", Json::id(*channel_id));
                o.put("chunks", Json::Unsigned(*chunks as u64));
                o.put("identity", identity_json(identity));
            },
            Outcome::Refused(refusal) => {
                o.put("ok", Json::Bool(false));
                o.put("status", Json::string("refused"));
                o.put("reason", Json::string(refusal.reason.slug()));
                o.put("detail", Json::string(refusal.detail.as_str()));
                o.put("retryable", Json::Bool(refusal.retryable));
                o.put("delivery_ambiguous", Json::Bool(refusal.delivery_ambiguous));
            },
        }
        assert(o.fields() =~= outcome_view(*self)->Object_0);
        o.done()
    }
}

// ── Configuration ───────────────────────────────────────────────────────────

/// How a message is cut into chunks.
#[derive(Clone, Copy, Debug, PartialEq, Eq, Structural)]
pub enum ChunkMode {
    /// At paragraphs, where possible.
    Paragraph,
    /// By length alone.
    Length,
}

/// The name of a chunk mode.
pub open spec fn mode_text(mode: ChunkMode) -> Seq<char> {
    match mode {
        ChunkMode::Paragraph => "Paragraph"@,
        ChunkMode::Length => "Length"@,
    }
}

/// What a one-shot send reads of the configuration.
pub struct SendConfig {
    pub token: Option<String>,
    /// The configured channels.
    pub channels: Vec<u64>,
    /// The most characters of a chunk; zero for the default.
    pub text_chunk_limit: usize,
    pub chunk_mode: ChunkMode,
    pub pre_send_enabled: bool,
    pub construct_id: ConstructId,
    pub contradictionary: Option<Contradictionary>,
}

/// Why the configuration could not be read.
pub enum ConfigFailure {
    /// There is no file at this path.
    NotFound { path: String },
    /// The file is not TOML, from this line and column on where that is known.
    Parse { location: Option<(usize, usize)> },
    /// The file could not be read; the kind of error.
    Io { kind: String },
    /// The list of contradictions beside it could not be read.
    Sidecar,
    /// The counter of configurations has run out.
    Generation,
}

/// What is said of a configuration that could not be read. Nothing in it comes
/// from the file: a broken line could hold the token.
pub open spec fn config_text(path: Seq<char>, error: ConfigFailure) -> Seq<char> {
    match error {
        ConfigFailure::NotFound { path: at } => "config file not found at "@ + at@,
        ConfigFailure::Parse { location } => path + ": TOML parse error"@ + match location {
            Some((line, column)) => " at line "@ + text::decimal(line as nat) + ", column "@
                + text::decimal(column as nat),
            None => ""@,
        } + " (source excerpt withheld)"@,
        ConfigFailure::Io { kind } => path + ": I/O error reading config ("@ + kind@ + ")"@,
        ConfigFailure::Sidecar => path
            + ": contradictionary sidecar failed to load (details withheld; see stderr)"@,
        ConfigFailure::Generation => path + ": configuration generation counter exhausted"@,
    }
}

/// What is said of a configuration that could not be read.
pub fn redacted_config_error(path: &str, error: &ConfigFailure) -> (r: String)
    ensures
        r@ == config_text(path@, *error),
{
    match error {
        ConfigFailure::NotFound { path: at } => {
            let mut out: String = "config file not found at ".to_owned();
            out.append(at.as_str());
            out
        },
        ConfigFailure::Parse { location } => {
            let mut place: String = "".to_owned();
            if let Some((line, column)) = location {
                place = " at line ".to_owned();
                let n: String = text::decimal_string(*line as u64);
                place.append(n.as_str());
                place.append(", column ");
                let m: String = text::decimal_string(*column as u64);
                place.append(m.as_str());
            }
            let mut out: String = path.to_owned();
            out.append(": TOML parse error");
            out.append(place.as_str());
            out.append(" (source excerpt withheld)");
            out
        },
        ConfigFailure::Io { kind } => {
            let mut out: String = path.to_owned();
            out.append(": I/O error reading config (");
            out.append(kind.as_str());
            out.append(")");
            out
        },
        ConfigFailure::Sidecar => {
            let mut out: String = path.to_owned();
            out.append(": contradictionary sidecar failed to load (details withheld; see stderr)");
            out
        },
        ConfigFailure::Generation => {
            let mut out: String = path.to_owned();
            out.append(": configuration generation counter exhausted");
            out
        },
    }
}

/// The configuration, or the refusal of a message without one.
pub fn load_config_for_send(path: &str, loaded: Result<SendConfig, ConfigFailure>) -> (r: Result<
    SendConfig,
    Refusal,
>)
    ensures
        match loaded {
            Ok(config) => r == Ok::<SendConfig, Refusal>(config),
            Err(error) => r matches Err(e) && e@ == refusal(
                Reason::ConfigInvalid,
                config_text(path@, error),
            ),
        },
{
    match loaded {
        Ok(config) => Ok(config),
        Err(error) => Err(
            Refusal::new(Reason::ConfigInvalid, redacted_config_error(path, &error)),
        ),
    }
}

/// How many of these bytes are line feeds.
pub open spec fn newlines(bytes: Seq<u8>) -> nat {
    bytes.filter(|b: u8| b == 10).len()
}

/// Where the last line of these bytes starts.
pub open spec fn last_line_start(bytes: Seq<u8>) -> nat
    decreases bytes.len(),
{
    if bytes.len() == 0 {
        0
    } else if bytes.last() == 10 {
        bytes.len()
    } else {
        last_line_start(bytes.drop_last())
    }
}

/// The line and the column of a byte, both counted from one. An offset past the
/// end counts as the end.
pub fn line_col_at(bytes: &Vec<u8>, offset: usize) -> (r: (usize, usize))
    requires
        bytes@.len() < usize::MAX,
    ensures
        ({
            let before = if offset <= bytes@.len() {
                bytes@.take(offset as int)
            } else {
                bytes@
            };
            &&& r.0 == newlines(before) + 1
            &&& r.1 == before.len() - last_line_start(before) + 1
        }),
{
    let end: usize = if offset <= bytes.len() {
        offset
    } else {
        bytes.len()
    };
    let ghost before = bytes@.take(end as int);
    let ghost is_newline = |b: u8| b == 10;
    let mut line: usize = 1;
    let mut start: usize = 0;
    let mut i: usize = 0;
    proof {
        reveal(Seq::filter);
        assert(bytes@.take(0) =~= Seq::empty());
    }
    while i < end
        invariant
            i <= end <= bytes@.len() < usize::MAX,
            is_newline == (|b: u8| b == 10),
            line == bytes@.take(i as int).filter(is_newline).len() + 1,
            line <= i + 1,
            start == last_line_start(bytes@.take(i as int)),
            start <= i,
        decreases end - i,
    {
        proof {
            let next = bytes@.take(i + 1);
            assert(next =~= bytes@.take(i as int).push(bytes@[i as int]));
            assert(next.drop_last() =~= bytes@.take(i as int));
            bytes@.take(i as int).lemma_filter_push(bytes@[i as int], is_newline);
        }
        if bytes[i] == 10 {
            line = line + 1;
            start = i + 1;
        }
        i = i + 1;
    }
    assert(bytes@.take(bytes@.len() as int) =~= bytes@);
    (line, end - start + 1)
}

// ── Preflight ───────────────────────────────────────────────────────────────

/// The token that a source gives, without white space around it.
pub open spec fn given_token(found: Option<String>) -> Option<Seq<char>> {
    match found {
        Some(t) => if text::is_blank(t@) {
            None
        } else {
            Some(text::trimmed(t@))
        },
        None => None,
    }
}

/// The environment variable that has to be looked up, if any: the environment is
/// consulted only where a source names it.
pub fn variable_to_read(source: &TokenSource) -> (r: Option<&str>)
    ensures
        match *source {
            TokenSource::Config => r is None,
            TokenSource::Env(var) => r matches Some(v) && v@ == var@,
        },
{
    match source {
        TokenSource::Config => None,
        TokenSource::Env(var) => Some(var.as_str()),
    }
}

/// The token from the named source and no other: `env` is what the variable
/// named by [`variable_to_read`] holds.
pub fn select_token(config: &SendConfig, source: &TokenSource, env: Option<String>) -> (r: Result<
    String,
    Refusal,
>)
    ensures
        match given_token(
            match *source {
                TokenSource::Config => config.token,
                TokenSource::Env(_) => env,
            },
        ) {
            Some(t) => r matches Ok(token) && token@ == t,
            None => r matches Err(e) && e@ == refusal(
                Reason::NoToken,
                "no bot token at token source `"@ + source_text(*source)
                    + "` (ambient DISCORD_BOT_TOKEN is never consulted unless named)"@,
            ),
        },
{
    let found: Option<String> = match source {
        TokenSource::Config => match &config.token {
            Some(t) => Some(t.clone()),
            None => None,
        },
        TokenSource::Env(_) => env,
    };
    if let Some(t) = &found {
        let token: String = text::trim(t.as_str());
        if !token.as_str().is_empty() {
            return Ok(token);
        }
    }
    let mut detail: String = "no bot token at token source `".to_owned();
    let shown: String = source.to_string();
    detail.append(shown.as_str());
    detail.append("` (ambient DISCORD_BOT_TOKEN is never consulted unless named)");
    Err(Refusal::new(Reason::NoToken, detail))
}

/// The refusal of a token that belongs to another bot.
pub open spec fn mismatch(current: u64, expected: u64, source: TokenSource) -> RefusalView {
    refusal(
        Reason::IdentityMismatch,
        "token at `"@ + source_text(source) + "` authenticates as bot user "@ + text::decimal(
            current as nat,
        ) + ", expected "@ + text::decimal(expected as nat),
    )
}

/// Ties the message to the bot's numeric id, and to nothing else.
pub fn check_identity(current: (u64, String), expected: u64, source: &TokenSource) -> (r: Result<
    Identity,
    Refusal,
>)
    ensures
        if current.0 == expected {
            r matches Ok(identity) && identity == (Identity {
                bot_user_id: current.0,
                username: current.1,
                token_source: *source,
            })
        } else {
            r matches Err(e) && e@ == mismatch(current.0, expected, *source)
        },
{
    let (bot_user_id, username) = current;
    if bot_user_id != expected {
        let mut detail: String = "token at `".to_owned();
        let shown: String = source.to_string();
        detail.append(shown.as_str());
        detail.append("` authenticates as bot user ");
        let got: String = text::decimal_string(bot_user_id);
        detail.append(got.as_str());
        detail.append(", expected ");
        let want: String = text::decimal_string(expected);
        detail.append(want.as_str());
        return Err(Refusal::new(Reason::IdentityMismatch, detail));
    }
    Ok(Identity { bot_user_id, username, token_source: source.clone() })
}

/// Who the bot is, by Discord's answer, or what is wrong with that.
pub open spec fn identity_of(
    answer: Result<(u64, String), RestFailure>,
    expected: u64,
    source: TokenSource,
) -> Result<Identity, RefusalView> {
    match answer {
        Ok(current) => if current.0 == expected {
            Ok(
                Identity { bot_user_id: current.0, username: current.1, token_source: source },
            )
        } else {
            Err(mismatch(current.0, expected, source))
        },
        Err(f) => Err(
            if f.status == Some(401u16) {
                refusal(
                    Reason::NoToken,
                    "Discord rejected the token at `"@ + source_text(source)
                        + "` (HTTP 401) during identity lookup"@,
                )
            } else {
                failure(
                    "identity lookup GET /users/@me failed: "@ + f.detail@,
                    retry_helps(Stage::Identity, f.class),
                )
            },
        ),
    }
}

/// What is made of Discord's answer to the question who the bot is.
pub fn verify_identity(
    answer: Result<(u64, String), RestFailure>,
    expected: u64,
    source: &TokenSource,
) -> (r: Result<Identity, Refusal>)
    ensures
        match r {
            Ok(identity) => identity_of(answer, expected, *source) == Ok::<Identity, RefusalView>(
                identity,
            ),
            Err(e) => identity_of(answer, expected, *source) == Err::<Identity, RefusalView>(e@),
        },
{
    match answer {
        Ok(current) => check_identity(current, expected, source),
        Err(f) => {
            if let Some(status) = f.status {
                if status == 401 {
                    let mut detail: String = "Discord rejected the token at `".to_owned();
                    let shown: String = source.to_string();
                    detail.append(shown.as_str());
                    detail.append("` (HTTP 401) during identity lookup");
                    return Err(Refusal::new(Reason::NoToken, detail));
                }
            }
            let mut detail: String = "identity lookup GET /users/@me failed: ".to_owned();
            detail.append(f.detail.as_str());
            Err(Refusal::send_failed(detail, retryable_for(Stage::Identity, f.class, false)))
        },
    }
}

/// The refusal of a channel that is not configured.
pub open spec fn refused_target(channel_id: u64) -> RefusalView {
    refusal(
        Reason::NotPermittedTarget,
        "channel "@ + text::decimal(channel_id as nat)
            + " is not in [[channels]]; DM and thread-of-allowed-parent rules need gateway state and are unavailable in one-shot mode"@,
    )
}

/// Whether a channel is configured. Channels of direct messages and threads need
/// what only a running gateway knows, so they are refused.
pub fn check_target(config: &SendConfig, channel_id: u64) -> (r: Result<(), Refusal>)
    ensures
        if config.channels@.contains(channel_id) {
            r is Ok
        } else {
            r matches Err(e) && e@ == refused_target(channel_id)
        },
{
    if contains_id(&config.channels, channel_id) {
        return Ok(());
    }
    let mut detail: String = "channel ".to_owned();
    let id: String = text::decimal_string(channel_id);
    detail.append(id.as_str());
    detail.append(
        " is not in [[channels]]; DM and thread-of-allowed-parent rules need gateway state and are unavailable in one-shot mode",
    );
    Err(Refusal::new(Reason::NotPermittedTarget, detail))
}

/// The most characters that Discord takes in a message.
pub const DISCORD_MESSAGE_LIMIT: usize = 2000;

/// Whoever cuts a text into chunks that can be posted.
pub trait Chunker {
    /// Cuts a text into chunks of at most `limit` characters, or says why it
    /// cannot be done.
    fn chunk(&self, text: &str, limit: usize, mode: ChunkMode) -> (r: Result<Vec<String>, String>);
}

/// How a configuration has messages cut: without a limit, at paragraphs and as
/// long as Discord takes them.
pub open spec fn chunk_settings(limit: usize, mode: ChunkMode) -> (usize, ChunkMode) {
    if limit == 0 {
        (2000, ChunkMode::Paragraph)
    } else {
        (limit, mode)
    }
}

/// What is made of what the chunker says.
pub open spec fn chunks_reply(
    limit: usize,
    mode: ChunkMode,
    chunked: Result<Vec<String>, String>,
    allow_multi_chunk: bool,
) -> Result<Seq<Seq<char>>, RefusalView> {
    match chunked {
        Err(e) => Err(
            refusal(Reason::WouldChunk, "message cannot be delivered inline: "@ + e@),
        ),
        Ok(chunks) => if chunks@.len() == 0 {
            Err(
                refusal(Reason::WouldChunk, "message is empty after chunking; nothing to send"@),
            )
        } else if chunks@.len() > 1 && !allow_multi_chunk {
            Err(
                refusal(
                    Reason::WouldChunk,
                    "message would be delivered as "@ + text::decimal(chunks@.len())
                        + " chunks under text_chunk_limit="@ + text::decimal(limit as nat)
                        + " chunk_mode="@ + mode_text(mode)
                        + "; pass --allow-multi-chunk to accept"@,
                ),
            )
        } else {
            Ok(text::texts(chunks@))
        },
    }
}

/// The value of chunks or of their refusal.
pub open spec fn chunks_view(r: Result<Vec<String>, Refusal>) -> Result<Seq<Seq<char>>, RefusalView> {
    match r {
        Ok(chunks) => Ok(text::texts(chunks@)),
        Err(e) => Err(e@),
    }
}

/// Takes the chunks that were made of a message, or refuses it. More than one has
/// to be allowed.
pub fn accept_chunks(
    limit: usize,
    mode: ChunkMode,
    chunked: Result<Vec<String>, String>,
    allow_multi_chunk: bool,
) -> (r: Result<Vec<String>, Refusal>)
    ensures
        chunks_view(r) == chunks_reply(limit, mode, chunked, allow_multi_chunk),
{
    match chunked {
        Err(e) => {
            let mut detail: String = "message cannot be delivered inline: ".to_owned();
            detail.append(e.as_str());
            Err(Refusal::new(Reason::WouldChunk, detail))
        },
        Ok(chunks) => {
            if chunks.len() == 0 {
                return Err(
                    Refusal::new(
                        Reason::WouldChunk,
                        "message is empty after chunking; nothing to send".to_owned(),
                    ),
                );
            }
            if chunks.len() > 1 && !allow_multi_chunk {
                let mut detail: String = "message would be delivered as ".to_owned();
                let n: String = text::decimal_string(chunks.len() as u64);
                detail.append(n.as_str());
                detail.append(" chunks under text_chunk_limit=");
                let l: String = text::decimal_string(limit as u64);
                detail.append(l.as_str());
                detail.append(" chunk_mode=");
                match mode {
                    ChunkMode::Paragraph => detail.append("Paragraph"),
                    ChunkMode::Length => detail.append("Length"),
                }
                detail.append("; pass --allow-multi-chunk to accept");
                return Err(Refusal::new(Reason::WouldChunk, detail));
            }
            Ok(chunks)
        },
    }
}

/// Whether what the chunker made of a message is what came of it: a single chunk goes
/// through, and more than one where that is allowed; nothing else does.
pub open spec fn taken(
    chunked: Result<Vec<String>, String>,
    allow_multi_chunk: bool,
    r: Result<Vec<String>, Refusal>,
) -> bool {
    match r {
        Ok(list) => chunked matches Ok(chunks) && text::texts(list@) == text::texts(chunks@)
            && list@.len() == chunks@.len() && (chunks@.len() == 1 || chunks@.len() > 1
            && allow_multi_chunk),
        Err(e) => {
            &&& e.reason == Reason::WouldChunk
            &&& !e.retryable
            &&& !e.delivery_ambiguous
            &&& chunked matches Ok(chunks) ==> chunks@.len() == 0 || chunks@.len() > 1
                && !allow_multi_chunk
        },
    }
}

/// Whether cutting a text can come to this.
pub open spec fn cuts<C: Chunker>(
    chunker: &C,
    text: &str,
    limit: usize,
    mode: ChunkMode,
    chunked: Result<Vec<String>, String>,
) -> bool {
    call_ensures(C::chunk, (chunker, text, limit, mode), chunked)
}

/// Whether a message was cut, and accepted or refused, as it has to be.
pub open spec fn chunked_as<C: Chunker>(
    config: SendConfig,
    chunker: &C,
    message: Seq<char>,
    allow_multi_chunk: bool,
    r: Result<Vec<String>, Refusal>,
) -> bool {
    let (limit, mode) = chunk_settings(config.text_chunk_limit, config.chunk_mode);
    if text::is_blank(message) {
        r matches Err(e) && e@ == refusal(
            Reason::WouldChunk,
            "message is empty; nothing to send"@,
        )
    } else if limit > DISCORD_MESSAGE_LIMIT {
        r matches Err(e) && e@ == refusal(
            Reason::ConfigInvalid,
            "delivery.text_chunk_limit="@ + text::decimal(limit as nat) + " exceeds Discord's "@
                + text::decimal(DISCORD_MESSAGE_LIMIT as nat)
                + "-character message limit; a chunk that size would be rejected at send time"@,
        )
    } else {
        exists|s: &str, chunked: Result<Vec<String>, String>|
            {
                &&& #[trigger] cuts(chunker, s, limit, mode, chunked)
                &&& s@ == message
                &&& chunks_view(r) == chunks_reply(limit, mode, chunked, allow_multi_chunk)
            }
    }
}

/// Cuts a message into chunks, or refuses it.
pub fn chunk_message<C: Chunker>(
    config: &SendConfig,
    chunker: &C,
    message: &str,
    allow_multi_chunk: bool,
) -> (r: Result<Vec<String>, Refusal>)
    ensures
        chunked_as(*config, chunker, message@, allow_multi_chunk, r),
        config.text_chunk_limit == 0 && !text::is_blank(message@) ==> exists|
            s: &str,
            chunked: Result<Vec<String>, String>,
        |
            s@ == message@ && #[trigger] call_ensures(
                C::chunk,
                (chunker, s, DISCORD_MESSAGE_LIMIT, ChunkMode::Paragraph),
                chunked,
            ) && taken(chunked, allow_multi_chunk, r),
{
    if text::str_is_blank(message) {
        return Err(
            Refusal::new(Reason::WouldChunk, "message is empty; nothing to send".to_owned()),
        );
    }
    let (limit, mode): (usize, ChunkMode) = if config.text_chunk_limit == 0 {
        (2000, ChunkMode::Paragraph)
    } else {
        (config.text_chunk_limit, config.chunk_mode)
    };
    if limit > DISCORD_MESSAGE_LIMIT {
        let mut detail: String = "delivery.text_chunk_limit=".to_owned();
        let l: String = text::decimal_string(limit as u64);
        detail.append(l.as_str());
        detail.append(" exceeds Discord's ");
        let m: String = text::decimal_string(DISCORD_MESSAGE_LIMIT as u64);
        detail.append(m.as_str());
        detail.append(
            "-character message limit; a chunk that size would be rejected at send time",
        );
        return Err(Refusal::new(Reason::ConfigInvalid, detail));
    }
    let chunked: Result<Vec<String>, String> = chunker.chunk(message, limit, mode);
    let ghost said = chunked;
    let r: Result<Vec<String>, Refusal> = accept_chunks(limit, mode, chunked, allow_multi_chunk);
    assert(cuts(chunker, message, limit, mode, said));
    proof {
        lemma_taken(limit, mode, said, allow_multi_chunk, r);
    }
    r
}

/// The context in which the pipeline sees the message.
pub open spec fn oneshot_context(
    config: SendConfig,
    channel_id: u64,
    identity: Identity,
    message: Seq<char>,
) -> ContextView {
    ContextView {
        text: message,
        author_id: Some(identity.bot_user_id),
        destination: OutboundDestination::Channel(channel_id),
        channel_type: ChannelType::Public,
        guild_id: None,
        reply_to_message_id: None,
        construct_id: config.construct_id@,
        metadata: Map::<Seq<char>, Seq<char>>::empty().insert("outbound_surface"@, "oneshot"@),
    }
}

/// The text that is left after the pipeline has run, or the refusal.
pub open spec fn after_pipeline(
    message: Seq<char>,
    ran: Option<Result<PipelineOutcome, PipelineError>>,
) -> Result<Seq<char>, RefusalView> {
    match ran {
        None => Ok(message),
        Some(Err(e)) => Err(
            refusal(Reason::ConfigInvalid, "pre-send pipeline failed: "@ + e.message()),
        ),
        Some(Ok(outcome)) => match outcome@.decision {
            DecisionView::Halt { reason } => Err(
                refusal(
                    Reason::ContradictionaryBounce,
                    "pre-send pipeline halted the message: "@ + reason,
                ),
            ),
            DecisionView::Redirect { channel_id } => Err(
                refusal(
                    Reason::NotPermittedTarget,
                    "pre-send pipeline redirected to channel "@ + text::decimal(channel_id as nat)
                        + "; redirects are unavailable in one-shot mode"@,
                ),
            ),
            _ => match outcome@.final_text {
                Some(t) => Ok(t),
                None => Ok(message),
            },
        },
    }
}

/// The text that is posted, or the refusal.
pub open spec fn judged_text(
    contradictionary: Option<Contradictionary>,
    piped: Result<Seq<char>, RefusalView>,
) -> Result<Seq<char>, RefusalView> {
    match piped {
        Err(e) => Err(e),
        Ok(t) => match contradictionary {
            None => Ok(t),
            Some(c) => {
                let rules = judge::blocking(
                    crate::contradictionary::hits_on(c.entries@, t),
                );
                if rules.len() == 0 {
                    Ok(t)
                } else {
                    Err(
                        refusal(
                            Reason::ContradictionaryBounce,
                            "contradictionary blocked the message: "@ + judge::reason_text(rules)
                                + " (no hold ticket is issued in one-shot mode; revise and resend)"@,
                        ),
                    )
                }
            },
        },
    }
}

/// The value of a text or of its refusal.
pub open spec fn text_or_refusal(r: Result<String, Refusal>) -> Result<Seq<char>, RefusalView> {
    match r {
        Ok(t) => Ok(t@),
        Err(e) => Err(e@),
    }
}

/// Judges a message after the pipeline has run. What bounces is refused: nothing
/// would ever release it here.
pub fn judge_after_pipeline(
    config: &SendConfig,
    message: &str,
    ran: Option<Result<PipelineOutcome, PipelineError>>,
) -> (r: Result<String, Refusal>)
    ensures
        text_or_refusal(r) == judged_text(config.contradictionary, after_pipeline(message@, ran)),
{
    let mut final_text: String = message.to_owned();
    match ran {
        None => {},
        Some(Err(e)) => {
            let mut detail: String = "pre-send pipeline failed: ".to_owned();
            let shown: String = e.to_string();
            detail.append(shown.as_str());
            return Err(Refusal::new(Reason::ConfigInvalid, detail));
        },
        Some(Ok(outcome)) => {
            match outcome.decision() {
                HookDecision::Halt { reason } => {
                    let mut detail: String = "pre-send pipeline halted the message: ".to_owned();
                    detail.append(reason.as_str());
                    return Err(Refusal::new(Reason::ContradictionaryBounce, detail));
                },
                HookDecision::Redirect { channel_id } => {
                    let mut detail: String = "pre-send pipeline redirected to channel ".to_owned();
                    let id: String = text::decimal_string(*channel_id);
                    detail.append(id.as_str());
                    detail.append("; redirects are unavailable in one-shot mode");
                    return Err(Refusal::new(Reason::NotPermittedTarget, detail));
                },
                HookDecision::Continue | HookDecision::Rewrite { .. } => {},
            }
            if let Some(rewritten) = outcome.final_text() {
                final_text = rewritten.to_owned();
            }
        },
    }
    if let Some(c) = &config.contradictionary {
        if let Verdict::Bounce(reason) = c.judge(final_text.as_str()) {
            let mut detail: String = "contradictionary blocked the message: ".to_owned();
            let shown: String = reason.to_string();
            detail.append(shown.as_str());
            detail.append(" (no hold ticket is issued in one-shot mode; revise and resend)");
            return Err(Refusal::new(Reason::ContradictionaryBounce, detail));
        }
    }
    Ok(final_text)
}

/// A pipeline that was made, or the refusal where it could not be.
pub fn accept_pipeline<H, F, A>(made: Result<PreSendPipeline<H, F, A>, PipelineError>) -> (r: Result<
    PreSendPipeline<H, F, A>,
    Refusal,
>)
    ensures
        match made {
            Ok(p) => r == Ok::<PreSendPipeline<H, F, A>, Refusal>(p),
            Err(e) => r matches Err(x) && x@ == refusal(
                Reason::ConfigInvalid,
                "pre-send pipeline could not be built: "@ + e.message(),
            ),
        },
{
    match made {
        Ok(p) => Ok(p),
        Err(e) => {
            let mut detail: String = "pre-send pipeline could not be built: ".to_owned();
            let shown: String = e.to_string();
            detail.append(shown.as_str());
            Err(Refusal::new(Reason::ConfigInvalid, detail))
        },
    }
}

/// The pipeline of a process that sends one message: it observes, and has no hooks,
/// so that it can always be built.
pub fn unhooked_pipeline<H: PreSendHook, F, A>(feedback_sink: F, audit_sink: A) -> (r: Result<
    PreSendPipeline<H, F, A>,
    Refusal,
>)
    ensures
        r matches Ok(p) && pre_send::observes(p, Seq::empty(), feedback_sink, audit_sink),
{
    let hooks: Vec<H> = Vec::new();
    let made: Result<PreSendPipeline<H, F, A>, PipelineError> = pre_send::observe_pipeline(
        hooks,
        feedback_sink,
        audit_sink,
    );
    proof {
        let named = choose|named: Seq<(HookName, H)>| #[trigger]
            pre_send::introduced(hooks@, named) && match made {
                Ok(p) => pre_send::observes(p, named, feedback_sink, audit_sink),
                Err(e) => pre_send::names_error(pre_send::names_of(named), e),
            };
        assert(named =~= Seq::empty());
    }
    accept_pipeline(made)
}

/// Whether the pipeline ran over a message as it has to, and came to this.
pub open spec fn piped_as<H: PreSendHook, F: FeedbackSink, A: AuditSink>(
    pipeline: PreSendPipeline<H, F, A>,
    context: ContextView,
    ran: Result<PipelineOutcome, PipelineError>,
) -> bool {
    exists|outputs: Seq<Option<OutputView>>, feedback: SinkReply, audit: SinkReply|
        pipeline.consulted(Set::empty(), context, outputs) && pipeline.told(
            Set::empty(),
            context,
            outputs,
            feedback,
            audit,
        ) && #[trigger] pre_send::ran_with(
            pipeline.mode_view(),
            pipeline.policy_view(),
            Set::empty(),
            context,
            pipeline.names(),
            outputs,
            feedback,
            audit,
            ran,
        )
}

/// Whether a message was judged as it has to be.
pub open spec fn judged_as<H: PreSendHook, F: FeedbackSink, A: AuditSink>(
    config: SendConfig,
    pipeline: PreSendPipeline<H, F, A>,
    channel_id: u64,
    identity: Identity,
    message: Seq<char>,
    r: Result<String, Refusal>,
) -> bool {
    if config.pre_send_enabled {
        exists|ran: Result<PipelineOutcome, PipelineError>|
            #[trigger] piped_as(
                pipeline,
                oneshot_context(config, channel_id, identity, message),
                ran,
            ) && text_or_refusal(r) == judged_text(
                config.contradictionary,
                after_pipeline(message, Some(ran)),
            )
    } else {
        text_or_refusal(r) == judged_text(config.contradictionary, Ok(message))
    }
}

/// Runs the pipeline over the message, where it is switched on, and judges what
/// is left.
pub fn judge_message<H: PreSendHook, F: FeedbackSink, A: AuditSink>(
    config: &SendConfig,
    pipeline: &PreSendPipeline<H, F, A>,
    channel_id: u64,
    identity: &Identity,
    message: &str,
) -> (r: Result<String, Refusal>)
    requires
        pipeline.wf(),
    ensures
        judged_as(*config, *pipeline, channel_id, *identity, message@, r),
{
    if !config.pre_send_enabled {
        return judge_after_pipeline(config, message, None);
    }
    let context: HookContext = HookContext::new(
        message,
        OutboundDestination::Channel(channel_id),
        ChannelType::Public,
        config.construct_id.clone(),
    ).with_author_id(Some(identity.bot_user_id)).with_metadata("outbound_surface", "oneshot");
    let none: NoRly = NoRly::none();
    let ran: Result<PipelineOutcome, PipelineError> = pipeline.run(&context, &none);
    assert(piped_as(*pipeline, oneshot_context(*config, channel_id, *identity, message@), ran));
    judge_after_pipeline(config, message, Some(ran))
}

// ── Nonces ──────────────────────────────────────────────────────────────────

/// The nonce of a chunk: the caller's key itself where there is but one chunk,
/// else the key and the number of the chunk.
pub open spec fn chunk_nonce(key: Seq<char>, chunk_count: nat, i: nat) -> Seq<char> {
    if chunk_count <= 1 {
        key
    } else {
        key + "-"@ + text::decimal(i)
    }
}

/// How many nonces there are: one at least where there is a key.
pub open spec fn nonce_count(chunk_count: nat) -> nat {
    if chunk_count <= 1 {
        1
    } else {
        chunk_count
    }
}

/// What is said of a nonce that is too long.
pub open spec fn long_nonce_text(nonce: Seq<char>) -> Seq<char> {
    "nonce "@ + text::debug_text(nonce) + " is "@ + text::decimal(nonce.len())
        + " characters; Discord allows at most "@ + text::decimal(NONCE_MAX_LEN as nat)
        + " (multi-chunk sends append `-<index>`)"@
}

/// A key gives different chunks different nonces.
pub proof fn law_nonces_are_distinct(key: Seq<char>, chunk_count: nat, i: nat, j: nat)
    requires
        i < chunk_count,
        j < chunk_count,
        chunk_nonce(key, chunk_count, i) == chunk_nonce(key, chunk_count, j),
    ensures
        i == j,
{
    if chunk_count > 1 {
        let prefix = key + "-"@;
        assert(chunk_nonce(key, chunk_count, i).skip(prefix.len() as int) =~= text::decimal(i));
        assert(chunk_nonce(key, chunk_count, j).skip(prefix.len() as int) =~= text::decimal(j));
        text::lemma_decimal_injective(i, j);
    }
}

/// Whether the nonces of the chunks are what they have to be.
pub open spec fn nonces_as(
    nonce: Option<Seq<char>>,
    chunk_count: nat,
    r: Result<Vec<Option<String>>, Refusal>,
) -> bool {
    match nonce {
        None => r matches Ok(list) && list@.len() == chunk_count && forall|i: int|
            0 <= i < list@.len() ==> #[trigger] list@[i] is None,
        Some(key) => match r {
            Ok(list) => {
                &&& key.len() > 0
                &&& list@.len() == nonce_count(chunk_count)
                &&& forall|i: int|
                    0 <= i < list@.len() ==> {
                        let n = chunk_nonce(key, chunk_count, i as nat);
                        text::text_opt(#[trigger] list@[i]) == Some(n) && n.len()
                            <= NONCE_MAX_LEN
                    }
            },
            Err(e) => {
                ||| key.len() == 0 && e@ == refusal(
                    Reason::Usage,
                    "--nonce must not be empty"@,
                )
                ||| key.len() > 0 && exists|i: nat|
                    {
                        let n = #[trigger] chunk_nonce(key, chunk_count, i);
                        &&& i < nonce_count(chunk_count)
                        &&& n.len() > NONCE_MAX_LEN
                        &&& forall|k: nat|
                            k < i ==> #[trigger] chunk_nonce(
                                key,
                                chunk_count,
                                k,
                            ).len() <= NONCE_MAX_LEN
                        &&& e@ == refusal(Reason::Usage, long_nonce_text(n))
                    }
            },
        },
    }
}

/// The nonces of the chunks, made from the caller's key.
pub fn chunk_nonces(nonce: Option<&str>, chunk_count: usize) -> (r: Result<
    Vec<Option<String>>,
    Refusal,
>)
    ensures
        nonces_as(
            match nonce {
                Some(key) => Some(key@),
                None => None,
            },
            chunk_count as nat,
            r,
        ),
{
    let mut out: Vec<Option<String>> = Vec::new();
    match nonce {
        None => {
            let mut i: usize = 0;
            while i < chunk_count
                invariant
                    i <= chunk_count,
                    out@.len() == i,
                    forall|k: int| 0 <= k < i ==> #[trigger] out@[k] is None,
                decreases chunk_count - i,
            {
                out.push(None);
                i = i + 1;
            }
            Ok(out)
        },
        Some(key) => {
            if key.is_empty() {
                return Err(
                    Refusal::new(Reason::Usage, "--nonce must not be empty".to_owned()),
                );
            }
            let total: usize = if chunk_count <= 1 {
                1
            } else {
                chunk_count
            };
            let mut i: usize = 0;
            while i < total
                invariant
                    nonce == Some(key),
                    i <= total == nonce_count(chunk_count as nat),
                    key@.len() > 0,
                    out@.len() == i,
                    forall|k: int|
                        0 <= k < i ==> {
                            let n = chunk_nonce(key@, chunk_count as nat, k as nat);
                            text::text_opt(#[trigger] out@[k]) == Some(n) && n.len()
                                <= NONCE_MAX_LEN
                        },
                    forall|k: nat|
                        k < i ==> #[trigger] chunk_nonce(key@, chunk_count as nat, k).len()
                            <= NONCE_MAX_LEN,
                decreases total - i,
            {
                let mut derived: String = key.to_owned();
                if chunk_count > 1 {
                    derived.append("-");
                    let n: String = text::decimal_string(i as u64);
                    derived.append(n.as_str());
                }
                assert(derived@ == chunk_nonce(key@, chunk_count as nat, i as nat));
                let len: usize = derived.as_str().unicode_len();
                if len > NONCE_MAX_LEN {
                    let mut detail: String = "nonce ".to_owned();
                    let shown: String = text::debug_string(derived.as_str());
                    detail.append(shown.as_str());
                    detail.append(" is ");
                    let n: String = text::decimal_string(len as u64);
                    detail.append(n.as_str());
                    detail.append(" characters; Discord allows at most ");
                    let m: String = text::decimal_string(NONCE_MAX_LEN as u64);
                    detail.append(m.as_str());
                    detail.append(" (multi-chunk sends append `-<index>`)");
                    return Err(Refusal::new(Reason::Usage, detail));
                }
                out.push(Some(derived));
                i = i + 1;
            }
            Ok(out)
        },
    }
}

// ── Failures of Discord ─────────────────────────────────────────────────────

/// How a call to Discord failed.
#[derive(Clone, Copy, Debug, PartialEq, Eq, Structural)]
pub enum FailureClass {
    /// Too many requests: nothing was created.
    RateLimited,
    /// The server failed, perhaps after it had created the message.
    ServerError,
    /// The request was wrong.
    ClientError,
    /// There was no connection: the request was never sent.
    ConnectFailed,
    /// The request may have been sent and the answer lost.
    Timeout,
    /// Some other failure after the request may have been sent.
    Transport,
    /// A failure that has nothing to do with the network.
    Other,
}

/// Whether a message may have been created although posting it failed this way.
pub open spec fn may_have_posted(class: FailureClass) -> bool {
    class is ServerError || class is Timeout || class is Transport
}

impl FailureClass {
    /// Whether a message may have been created although posting it failed this way.
    pub fn post_is_ambiguous(self) -> (r: bool)
        ensures
            r == may_have_posted(self),
    {
        matches!(self, FailureClass::ServerError | FailureClass::Timeout | FailureClass::Transport)
    }
}

/// Which call failed.
#[derive(Clone, Copy, Debug, PartialEq, Eq, Structural)]
pub enum Stage {
    /// The question who the bot is, which creates nothing.
    Identity,
    /// The post.
    Post,
}

/// Whether a retry can help, and do no harm.
pub open spec fn retry_helps(stage: Stage, class: FailureClass) -> bool {
    class is RateLimited || class is ConnectFailed || (stage is Identity && may_have_posted(class))
}

/// Whether a call that failed may be repeated. A nonce makes no difference:
/// Discord forgets it after a few minutes.
pub fn retryable_for(stage: Stage, class: FailureClass, has_nonce: bool) -> (r: bool)
    ensures
        r == retry_helps(stage, class),
{
    match class {
        FailureClass::RateLimited | FailureClass::ConnectFailed => true,
        FailureClass::ClientError | FailureClass::Other => false,
        FailureClass::ServerError | FailureClass::Timeout | FailureClass::Transport => match stage {
            Stage::Identity => true,
            Stage::Post => false,
        },
    }
}

/// A post that may have gone through is never to be repeated.
pub proof fn law_ambiguous_posts_are_not_retried(class: FailureClass)
    ensures
        may_have_posted(class) ==> !retry_helps(Stage::Post, class),
{
}

/// A failure, fit to be shown.
#[derive(Debug, PartialEq, Eq)]
pub struct RestFailure {
    pub status: Option<u16>,
    pub class: FailureClass,
    pub detail: String,
}

/// The class of an HTTP status.
pub open spec fn status_class(status: u16) -> FailureClass {
    if status == 429 {
        FailureClass::RateLimited
    } else if 500 <= status <= 599 {
        FailureClass::ServerError
    } else {
        FailureClass::ClientError
    }
}

/// The class of an HTTP status.
pub fn classify_status(status: u16) -> (r: FailureClass)
    ensures
        r == status_class(status),
{
    if status == 429 {
        FailureClass::RateLimited
    } else if status >= 500 && status <= 599 {
        FailureClass::ServerError
    } else {
        FailureClass::ClientError
    }
}

/// A failed call to Discord, as the client reports it.
pub enum RestError {
    /// Discord answered with an error.
    Unsuccessful { status: u16, method: String, url: String, message: String, code: i64 },
    /// The request did not get through.
    Request { is_connect: bool, is_timeout: bool, text: String },
    /// Another failure of the HTTP client.
    Http { text: String },
    /// Any other failure.
    Other { text: String },
}

/// The class of a failed call.
pub open spec fn error_class(error: RestError) -> FailureClass {
    match error {
        RestError::Unsuccessful { status, .. } => status_class(status),
        RestError::Request { is_connect, is_timeout, .. } => if is_connect {
            FailureClass::ConnectFailed
        } else if is_timeout {
            FailureClass::Timeout
        } else {
            FailureClass::Transport
        },
        _ => FailureClass::Other,
    }
}

/// What is said of a failed call, before the token is taken out.
pub open spec fn error_text(error: RestError) -> Seq<char> {
    match error {
        RestError::Unsuccessful { status, method, url, message, code } => "Discord HTTP "@
            + text::decimal(status as nat) + " on "@ + method@ + " "@ + url@ + ": "@ + message@
            + " (code "@ + text::signed_decimal(code as int) + ")"@,
        RestError::Request { is_connect, is_timeout, text } => "transport error ("@ + (
        if is_connect {
            "ConnectFailed"@
        } else if is_timeout {
            "Timeout"@
        } else {
            "Transport"@
        }) + "): "@ + text@,
        RestError::Http { text } => "HTTP client error: "@ + text@,
        RestError::Other { text } => "Discord client error: "@ + text@,
    }
}

/// A text with the token taken out.
pub open spec fn scrubbed(detail: Seq<char>, token: Seq<char>) -> Seq<char> {
    if token.len() == 0 {
        detail
    } else {
        text::replaced(detail, token, "[redacted]"@)
    }
}

/// Classifies a failed call. The token is taken out of what is said of it.
pub fn classify_rest_error(error: &RestError, token: &str) -> (r: RestFailure)
    ensures
        r.status == match *error {
            RestError::Unsuccessful { status, .. } => Some(status),
            _ => None,
        },
        r.class == error_class(*error),
        r.detail@ == scrubbed(error_text(*error), token@),
{
    let mut detail: String;
    let status: Option<u16>;
    let class: FailureClass;
    match error {
        RestError::Unsuccessful { status: s, method, url, message, code } => {
            status = Some(*s);
            class = classify_status(*s);
            detail = "Discord HTTP ".to_owned();
            let n: String = text::decimal_string(*s as u64);
            detail.append(n.as_str());
            detail.append(" on ");
            detail.append(method.as_str());
            detail.append(" ");
            detail.append(url.as_str());
            detail.append(": ");
            detail.append(message.as_str());
            detail.append(" (code ");
            let c: String = text::signed_string(*code);
            detail.append(c.as_str());
            detail.append(")");
        },
        RestError::Request { is_connect, is_timeout, text } => {
            status = None;
            detail = "transport error (".to_owned();
            if *is_connect {
                class = FailureClass::ConnectFailed;
                detail.append("ConnectFailed");
            } else if *is_timeout {
                class = FailureClass::Timeout;
                detail.append("Timeout");
            } else {
                class = FailureClass::Transport;
                detail.append("Transport");
            }
            detail.append("): ");
            detail.append(text.as_str());
        },
        RestError::Http { text } => {
            status = None;
            class = FailureClass::Other;
            detail = "HTTP client error: ".to_owned();
            detail.append(text.as_str());
        },
        RestError::Other { text } => {
            status = None;
            class = FailureClass::Other;
            detail = "Discord client error: ".to_owned();
            detail.append(text.as_str());
        },
    }
    RestFailure { status, class, detail: scrub_token(detail.as_str(), token) }
}

/// Takes the token out of a text.
pub fn scrub_token(detail: &str, token: &str) -> (r: String)
    ensures
        r@ == scrubbed(detail@, token@),
{
    if token.is_empty() {
        return detail.to_owned();
    }
    text::replace(detail, token, "[redacted]")
}

/// Up to its first replacement a text is unchanged.
proof fn lemma_replaced_prefix(s: Seq<char>, token: Seq<char>, k: int)
    requires
        token.len() > 0,
        0 <= k <= text::replaced(s, token, "[redacted]"@).len(),
    ensures
        ({
            let r = text::replaced(s, token, "[redacted]"@);
            ||| k <= s.len() && r.take(k) == s.take(k)
            ||| exists|j: int| 0 <= j < k && #[trigger] r[j] == '['
        }),
    decreases s.len(),
{
    reveal_strlit("[redacted]");
    let mark = "[redacted]"@;
    let r = text::replaced(s, token, mark);
    if k == 0 {
        assert(r.take(0) =~= s.take(0));
    } else if s.len() < token.len() {
        assert(r == s);
    } else if text::occurs_at(s, token, 0) {
        let tail = text::replaced(s.skip(token.len() as int), token, mark);
        assert(r == mark + tail);
        assert(r[0] == mark[0]);
    } else {
        let rest = s.skip(1);
        let tail = text::replaced(rest, token, mark);
        assert(r == seq![s[0]] + tail);
        lemma_replaced_prefix(rest, token, k - 1);
        if k - 1 <= rest.len() && tail.take(k - 1) == rest.take(k - 1) {
            assert(r.take(k) =~= seq![s[0]] + tail.take(k - 1));
            assert(s.take(k) =~= seq![s[0]] + rest.take(k - 1));
        } else {
            let j = choose|j: int| 0 <= j < k - 1 && #[trigger] tail[j] == '[';
            assert(r[j + 1] == tail[j]);
        }
    }
}

/// What is shown of a failure never holds the token, as long as the token holds
/// no square bracket and is no part of the word that takes its place.
pub proof fn law_scrubbed_text_is_free_of_the_token(detail: Seq<char>, token: Seq<char>)
    requires
        token.len() > 0,
        !token.contains('['),
        !token.contains(']'),
        !text::occurs("redacted"@, token),
    ensures
        !text::occurs(scrubbed(detail, token), token),
    decreases detail.len(),
{
    reveal_strlit("[redacted]");
    reveal_strlit("redacted");
    let mark = "[redacted]"@;
    let n = token.len() as int;
    let r = text::replaced(detail, token, mark);
    assert forall|at: int| !#[trigger] text::occurs_at(r, token, at) by {
        if text::occurs_at(r, token, at) {
            assert forall|k: int| 0 <= k < n implies r[at + k] == #[trigger] token[k] by {
                assert(r.subrange(at, at + n)[k] == r[at + k]);
            }
            if detail.len() < token.len() {
            } else if text::occurs_at(detail, token, 0) {
                let rest = detail.skip(n);
                let tail = text::replaced(rest, token, mark);
                law_scrubbed_text_is_free_of_the_token(rest, token);
                assert(r == mark + tail);
                if at >= mark.len() {
                    assert(tail.subrange(at - mark.len(), at - mark.len() + n) =~= token);
                    assert(text::occurs_at(tail, token, at - mark.len()));
                } else if at + n <= mark.len() {
                    if at == 0 {
                        assert(token[0] == r[0]);
                        assert(mark[0] == '[');
                    } else if at + n == mark.len() {
                        assert(token[n - 1] == r[at + (n - 1)]);
                        assert(mark[9] == ']');
                    } else {
                        assert(mark.subrange(1, 9) =~= "redacted"@);
                        assert("redacted"@.subrange(at - 1, at - 1 + n) =~= token);
                        assert(text::occurs_at("redacted"@, token, at - 1));
                    }
                } else {
                    assert(token[mark.len() - 1 - at] == r[at + (mark.len() - 1 - at)]);
                    assert(mark[9] == ']');
                }
            } else {
                let rest = detail.skip(1);
                let tail = text::replaced(rest, token, mark);
                law_scrubbed_text_is_free_of_the_token(rest, token);
                assert(r == seq![detail[0]] + tail);
                if at >= 1 {
                    assert(tail.subrange(at - 1, at - 1 + n) =~= token);
                    assert(text::occurs_at(tail, token, at - 1));
                } else {
                    lemma_replaced_prefix(detail, token, n);
                    if r.take(n) == detail.take(n) {
                        assert(detail.subrange(0, n) =~= r.subrange(0, n)) by {
                            assert(detail.take(n) =~= detail.subrange(0, n));
                            assert(r.take(n) =~= r.subrange(0, n));
                        }
                        assert(text::occurs_at(detail, token, 0));
                    } else {
                        let j = choose|j: int| 0 <= j < n && #[trigger] r[j] == '[';
                        assert(token[j] == r[at + j]);
                    }
                }
            }
        }
    }
}

// ── Sending ─────────────────────────────────────────────────────────────────

/// What is posted: chunks, each with its nonce.
pub struct Prepared {
    pub chunks: Vec<String>,
    pub nonces: Vec<Option<String>>,
}

impl Prepared {
    /// There is something to post, and each chunk has its place for a nonce.
    pub open spec fn wf(&self) -> bool {
        self.chunks@.len() > 0 && self.nonces@.len() == self.chunks@.len()
    }
}

/// Whether the nonces of the chunks are what they have to be.
pub open spec fn prepared_as(
    nonce: Option<String>,
    chunks: Seq<Seq<char>>,
    r: Result<Prepared, Refusal>,
) -> bool {
    exists|nonces: Result<Vec<Option<String>>, Refusal>|
        #[trigger] nonces_as(text::text_opt(nonce), chunks.len(), nonces) && match nonces {
            Ok(list) => r matches Ok(p) && text::texts(p.chunks@) == chunks && p.nonces == list,
            Err(e) => r matches Err(x) && x@ == e@,
        }
}

/// Whether everything that has to be looked at before posting was looked at, in
/// order: the channel, the length of the message, the hooks and the judge, the
/// length of what they left of it, and the nonces.
pub open spec fn preflight_as<C: Chunker, H: PreSendHook, F: FeedbackSink, A: AuditSink>(
    config: SendConfig,
    chunker: &C,
    pipeline: PreSendPipeline<H, F, A>,
    request: SendRequest,
    identity: Identity,
    r: Result<Prepared, Refusal>,
) -> bool {
    if !config.channels@.contains(request.channel_id) {
        r matches Err(e) && e@ == refused_target(request.channel_id)
    } else {
        exists|chunked: Result<Vec<String>, Refusal>|
            #[trigger] chunked_as(
                config,
                chunker,
                request.message@,
                request.allow_multi_chunk,
                chunked,
            ) && match chunked {
                Err(e) => r matches Err(x) && x@ == e@,
                Ok(chunks) => exists|judged: Result<String, Refusal>|
                    #[trigger] judged_as(
                        config,
                        pipeline,
                        request.channel_id,
                        identity,
                        request.message@,
                        judged,
                    ) && match judged {
                        Err(e) => r matches Err(x) && x@ == e@,
                        Ok(left) => if left@ == request.message@ {
                            prepared_as(request.nonce, text::texts(chunks@), r)
                        } else {
                            exists|again: Result<Vec<String>, Refusal>|
                                #[trigger] chunked_as(
                                    config,
                                    chunker,
                                    left@,
                                    request.allow_multi_chunk,
                                    again,
                                ) && match again {
                                    Err(e) => r matches Err(x) && x@ == e@,
                                    Ok(chunks) => prepared_as(
                                        request.nonce,
                                        text::texts(chunks@),
                                        r,
                                    ),
                                }
                        },
                    },
            }
    }
}

/// Everything that is looked at before anything is posted.
pub fn preflight<C: Chunker, H: PreSendHook, F: FeedbackSink, A: AuditSink>(
    config: &SendConfig,
    chunker: &C,
    pipeline: &PreSendPipeline<H, F, A>,
    request: &SendRequest,
    identity: &Identity,
) -> (r: Result<Prepared, Refusal>)
    requires
        pipeline.wf(),
    ensures
        preflight_as(*config, chunker, *pipeline, *request, *identity, r),
        r matches Ok(p) ==> p.wf(),
{
    if let Err(e) = check_target(config, request.channel_id) {
        return Err(e);
    }
    let first: Result<Vec<String>, Refusal> = chunk_message(
        config,
        chunker,
        request.message.as_str(),
        request.allow_multi_chunk,
    );
    let ghost chunked = first;
    assert(chunked_as(
        *config,
        chunker,
        request.message@,
        request.allow_multi_chunk,
        chunked,
    ));
    let mut chunks: Vec<String> = match first {
        Ok(c) => c,
        Err(e) => {
            return Err(e);
        },
    };
    let verdict: Result<String, Refusal> = judge_message(
        config,
        pipeline,
        request.channel_id,
        identity,
        request.message.as_str(),
    );
    let ghost judged = verdict;
    assert(judged_as(
        *config,
        *pipeline,
        request.channel_id,
        *identity,
        request.message@,
        judged,
    ));
    let left: String = match verdict {
        Ok(t) => t,
        Err(e) => {
            return Err(e);
        },
    };
    if !text::str_eq(left.as_str(), request.message.as_str()) {
        let second: Result<Vec<String>, Refusal> = chunk_message(
            config,
            chunker,
            left.as_str(),
            request.allow_multi_chunk,
        );
        let ghost again = second;
        assert(chunked_as(*config, chunker, left@, request.allow_multi_chunk, again));
        chunks =
        match second {
            Ok(c) => c,
            Err(e) => {
                return Err(e);
            },
        };
    }
    let key: Option<&str> = match &request.nonce {
        Some(n) => Some(n.as_str()),
        None => None,
    };
    let ghost texts = text::texts(chunks@);
    let made: Result<Vec<Option<String>>, Refusal> = chunk_nonces(key, chunks.len());
    let ghost nonces = made;
    assert(nonces_as(text::text_opt(request.nonce), texts.len(), nonces));
    let r: Result<Prepared, Refusal> = match made {
        Ok(list) => Ok(Prepared { chunks, nonces: list }),
        Err(e) => Err(e),
    };
    assert(prepared_as(request.nonce, texts, r));
    r
}

/// A message on its way: the chunks before the next one were posted.
pub struct Posting {
    pub channel_id: u64,
    pub identity: Identity,
    pub prepared: Prepared,
    pub message_ids: Vec<u64>,
}

/// What there is to do next.
pub enum SendStep {
    /// Post the chunks.
    Post(Posting),
    /// Nothing: this is how it ended.
    Done(Outcome),
}

/// Ids as std's `Debug` lists them when they are strings.
pub open spec fn id_list(ids: Seq<u64>) -> Seq<char> {
    "["@ + text::joined(
        ids.map_values(|id: u64| "\""@ + text::decimal(id as nat) + "\""@),
        ", "@,
    ) + "]"@
}

/// What is made of a chunk that could not be posted.
pub open spec fn post_refusal(
    channel_id: u64,
    chunks: nat,
    posted: Seq<u64>,
    class: FailureClass,
    detail: Seq<char>,
) -> RefusalView {
    let start = "POST /channels/"@ + text::decimal(channel_id as nat)
        + "/messages failed on chunk "@;
    if posted.len() == 0 {
        let said = start + "1 of "@ + text::decimal(chunks) + ": "@ + detail;
        if may_have_posted(class) {
            ambiguity(said)
        } else {
            failure(said, retry_helps(Stage::Post, class))
        }
    } else {
        let said = start + text::decimal(posted.len() + 1) + " of "@ + text::decimal(chunks)
            + " after "@ + text::decimal(posted.len()) + " delivered (message_ids "@ + id_list(
            posted,
        ) + "): "@ + detail;
        if may_have_posted(class) {
            ambiguity(said)
        } else {
            failure(said, false)
        }
    }
}

/// Lists ids as std's `Debug` does when they are strings.
fn id_list_string(ids: &Vec<u64>) -> (r: String)
    ensures
        r@ == id_list(ids@),
{
    let ghost quoted = |id: u64| "\""@ + text::decimal(id as nat) + "\""@;
    let mut parts: Vec<String> = Vec::new();
    let mut i: usize = 0;
    while i < ids.len()
        invariant
            i <= ids@.len(),
            quoted == (|id: u64| "\""@ + text::decimal(id as nat) + "\""@),
            parts@.len() == i,
            forall|k: int| 0 <= k < i ==> (#[trigger] parts@[k])@ == quoted(ids@[k]),
        decreases ids@.len() - i,
    {
        let mut part: String = "\"".to_owned();
        let n: String = text::decimal_string(ids[i]);
        part.append(n.as_str());
        part.append("\"");
        assert(part@ == quoted(ids@[i as int]));
        parts.push(part);
        i = i + 1;
    }
    assert(text::texts(parts@) =~= ids@.map_values(quoted));
    let list: String = text::join(&parts, ", ");
    let mut out: String = "[".to_owned();
    out.append(list.as_str());
    out.append("]");
    out
}

/// Starts the posting, unless it was only to be tried.
pub fn begin_post(request: &SendRequest, identity: Identity, prepared: Prepared) -> (r: SendStep)
    requires
        prepared.wf(),
    ensures
        if request.dry_run {
            r == SendStep::Done(
                Outcome::PreflightOk {
                    channel_id: request.channel_id,
                    chunks: prepared.chunks@.len() as usize,
                    identity,
                },
            )
        } else {
            r matches SendStep::Post(p) && p.channel_id == request.channel_id && p.identity
                == identity && p.prepared == prepared && p.message_ids@ == Seq::<u64>::empty()
                && p.wf()
        },
{
    if request.dry_run {
        return SendStep::Done(
            Outcome::PreflightOk {
                channel_id: request.channel_id,
                chunks: prepared.chunks.len(),
                identity,
            },
        );
    }
    SendStep::Post(
        Posting { channel_id: request.channel_id, identity, prepared, message_ids: Vec::new() },
    )
}

/// Whether `step` is what follows on the answer to the question who the bot is: the
/// message is refused, tried or begun to be posted.
pub open spec fn follows<C: Chunker, H: PreSendHook, F: FeedbackSink, A: AuditSink>(
    config: SendConfig,
    chunker: &C,
    pipeline: PreSendPipeline<H, F, A>,
    request: SendRequest,
    answer: Result<(u64, String), RestFailure>,
    step: SendStep,
) -> bool {
    match identity_of(answer, request.expect_identity, request.token_source) {
        Err(e) => step matches SendStep::Done(Outcome::Refused(x)) && x@ == e,
        Ok(identity) => exists|prepared: Result<Prepared, Refusal>|
            #[trigger] preflight_as(config, chunker, pipeline, request, identity, prepared)
                && match prepared {
                Err(e) => step matches SendStep::Done(Outcome::Refused(x)) && x@ == e@,
                Ok(p) => if request.dry_run {
                    step == SendStep::Done(
                        Outcome::PreflightOk {
                            channel_id: request.channel_id,
                            chunks: p.chunks@.len() as usize,
                            identity,
                        },
                    )
                } else {
                    step matches SendStep::Post(q) && q.channel_id == request.channel_id
                        && q.identity == identity && q.prepared == p && q.message_ids@ == Seq::<
                        u64,
                    >::empty()
                },
            },
    }
}

/// Goes on once Discord has said who the bot is: everything is looked at, in order,
/// before the first chunk is posted.
pub fn identified<C: Chunker, H: PreSendHook, F: FeedbackSink, A: AuditSink>(
    config: &SendConfig,
    chunker: &C,
    pipeline: &PreSendPipeline<H, F, A>,
    request: &SendRequest,
    answer: Result<(u64, String), RestFailure>,
) -> (r: SendStep)
    requires
        pipeline.wf(),
    ensures
        follows(*config, chunker, *pipeline, *request, answer, r),
        r matches SendStep::Post(p) ==> p.wf(),
{
    let identity: Identity = match verify_identity(
        answer,
        request.expect_identity,
        &request.token_source,
    ) {
        Ok(identity) => identity,
        Err(e) => {
            return SendStep::Done(Outcome::Refused(e));
        },
    };
    let prepared: Result<Prepared, Refusal> = preflight(
        config,
        chunker,
        pipeline,
        request,
        &identity,
    );
    assert(preflight_as(*config, chunker, *pipeline, *request, identity, prepared));
    match prepared {
        Ok(p) => begin_post(request, identity, p),
        Err(e) => SendStep::Done(Outcome::Refused(e)),
    }
}

/// Nothing is posted but by the bot that was expected, to a configured channel, and
/// where it was not only to be tried.
pub proof fn law_posts_are_by_the_expected_bot<
    C: Chunker,
    H: PreSendHook,
    F: FeedbackSink,
    A: AuditSink,
>(
    config: SendConfig,
    chunker: &C,
    pipeline: PreSendPipeline<H, F, A>,
    request: SendRequest,
    answer: Result<(u64, String), RestFailure>,
    step: SendStep,
)
    requires
        follows(config, chunker, pipeline, request, answer, step),
        step is Post,
    ensures
        answer matches Ok(current) && current.0 == request.expect_identity,
        config.channels@.contains(request.channel_id),
        step->Post_0.channel_id == request.channel_id,
        !request.dry_run,
{
}

impl Posting {
    /// Each message id belongs to a chunk.
    pub open spec fn wf(&self) -> bool {
        self.prepared.wf() && self.message_ids@.len() <= self.prepared.chunks@.len()
    }

    /// The chunk to post next and its nonce, as long as there is one. A chunk with
    /// a nonce is posted so that Discord enforces it.
    pub fn next_chunk(&self) -> (r: Option<(&str, Option<&str>)>)
        requires
            self.wf(),
        ensures
            ({
                let i = self.message_ids@.len() as int;
                if i < self.prepared.chunks@.len() {
                    r matches Some((chunk, nonce)) && chunk@ == self.prepared.chunks@[i]@
                        && match nonce {
                        Some(n) => Some(n@) == text::text_opt(self.prepared.nonces@[i]),
                        None => self.prepared.nonces@[i] is None,
                    }
                } else {
                    r is None
                }
            }),
    {
        let i: usize = self.message_ids.len();
        if i < self.prepared.chunks.len() {
            let nonce: Option<&str> = match &self.prepared.nonces[i] {
                Some(n) => Some(n.as_str()),
                None => None,
            };
            Some((self.prepared.chunks[i].as_str(), nonce))
        } else {
            None
        }
    }

    /// Takes note of a chunk that was posted. The message is sent when it was the
    /// last one.
    pub fn posted(self, message_id: u64) -> (r: SendStep)
        requires
            self.wf(),
            self.message_ids@.len() < self.prepared.chunks@.len(),
        ensures
            if self.message_ids@.len() + 1 == self.prepared.chunks@.len() {
                r matches SendStep::Done(Outcome::Sent { channel_id, message_ids, identity })
                    && channel_id == self.channel_id && identity == self.identity && message_ids@
                    == self.message_ids@.push(message_id)
            } else {
                r matches SendStep::Post(p) && p.wf() && p.channel_id == self.channel_id
                    && p.identity == self.identity && p.prepared == self.prepared && p.message_ids@
                    == self.message_ids@.push(message_id)
            },
    {
        let mut next: Posting = self;
        next.message_ids.push(message_id);
        if next.message_ids.len() == next.prepared.chunks.len() {
            SendStep::Done(
                Outcome::Sent {
                    channel_id: next.channel_id,
                    message_ids: next.message_ids,
                    identity: next.identity,
                },
            )
        } else {
            SendStep::Post(next)
        }
    }

    /// What is made of a chunk that could not be posted. A message of which some
    /// chunk was posted is never to be repeated.
    pub fn failed(self, problem: RestFailure) -> (r: Refusal)
        requires
            self.wf(),
            self.message_ids@.len() < self.prepared.chunks@.len(),
        ensures
            r@ == post_refusal(
                self.channel_id,
                self.prepared.chunks@.len(),
                self.message_ids@,
                problem.class,
                problem.detail@,
            ),
    {
        let mut detail: String = "POST /channels/".to_owned();
        let channel: String = text::decimal_string(self.channel_id);
        let total: String = text::decimal_string(self.prepared.chunks.len() as u64);
        detail.append(channel.as_str());
        detail.append("/messages failed on chunk ");
        if self.message_ids.len() == 0 {
            detail.append("1 of ");
            detail.append(total.as_str());
            detail.append(": ");
            detail.append(problem.detail.as_str());
            if problem.class.post_is_ambiguous() {
                return Refusal::send_ambiguous(detail);
            }
            let has_nonce: bool = self.prepared.nonces[0].is_some();
            return Refusal::send_failed(
                detail,
                retryable_for(Stage::Post, problem.class, has_nonce),
            );
        }
        let count: usize = self.message_ids.len();
        let number: String = text::decimal_string((count + 1) as u64);
        let done: String = text::decimal_string(count as u64);
        let list: String = id_list_string(&self.message_ids);
        detail.append(number.as_str());
        detail.append(" of ");
        detail.append(total.as_str());
        detail.append(" after ");
        detail.append(done.as_str());
        detail.append(" delivered (message_ids ");
        detail.append(list.as_str());
        detail.append("): ");
        detail.append(problem.detail.as_str());
        if problem.class.post_is_ambiguous() {
            return Refusal::send_ambiguous(detail);
        }
        Refusal::send_failed(detail, false)
    }
}

/// Whoever is told to try again cannot post anything twice: nothing was posted,
/// and the failure shows that.
pub proof fn law_retryable_refusals_posted_nothing(
    channel_id: u64,
    chunks: nat,
    posted: Seq<u64>,
    class: FailureClass,
    detail: Seq<char>,
)
    ensures
        post_refusal(channel_id, chunks, posted, class, detail).retryable ==> posted.len() == 0
            && !may_have_posted(class),
{
}

// ── What holds of a send ────────────────────────────────────────────────────

/// Where no limit is configured, a message that is not blank is cut into chunks as long
/// as Discord takes them, at paragraphs, and what is made of it is what is posted or
/// refused.
pub proof fn law_without_a_limit_discords_holds<C: Chunker>(
    config: SendConfig,
    chunker: &C,
    message: Seq<char>,
    allow_multi_chunk: bool,
    r: Result<Vec<String>, Refusal>,
)
    requires
        chunked_as(config, chunker, message, allow_multi_chunk, r),
        config.text_chunk_limit == 0,
        !text::is_blank(message),
    ensures
        DISCORD_MESSAGE_LIMIT == 2000,
        exists|s: &str, chunked: Result<Vec<String>, String>|
            s@ == message && #[trigger] call_ensures(
                C::chunk,
                (chunker, s, DISCORD_MESSAGE_LIMIT, ChunkMode::Paragraph),
                chunked,
            ) && taken(chunked, allow_multi_chunk, r),
{
    let (s, chunked) = choose|s: &str, chunked: Result<Vec<String>, String>|
        {
            &&& #[trigger] cuts(chunker, s, 2000, ChunkMode::Paragraph, chunked)
            &&& s@ == message
            &&& chunks_view(r) == chunks_reply(2000, ChunkMode::Paragraph, chunked, allow_multi_chunk)
        };
    lemma_taken(2000, ChunkMode::Paragraph, chunked, allow_multi_chunk, r);
}

/// A limit that is configured, and that Discord can meet, is kept to, and so is the way
/// of cutting that goes with it.
pub proof fn law_configured_limits_hold<C: Chunker>(
    config: SendConfig,
    chunker: &C,
    message: Seq<char>,
    allow_multi_chunk: bool,
    r: Result<Vec<String>, Refusal>,
)
    requires
        chunked_as(config, chunker, message, allow_multi_chunk, r),
        0 < config.text_chunk_limit <= DISCORD_MESSAGE_LIMIT,
        !text::is_blank(message),
    ensures
        exists|s: &str, chunked: Result<Vec<String>, String>|
            s@ == message && #[trigger] call_ensures(
                C::chunk,
                (chunker, s, config.text_chunk_limit, config.chunk_mode),
                chunked,
            ) && taken(chunked, allow_multi_chunk, r),
{
    let limit = config.text_chunk_limit;
    let mode = config.chunk_mode;
    let (s, chunked) = choose|s: &str, chunked: Result<Vec<String>, String>|
        {
            &&& #[trigger] cuts(chunker, s, limit, mode, chunked)
            &&& s@ == message
            &&& chunks_view(r) == chunks_reply(limit, mode, chunked, allow_multi_chunk)
        };
    lemma_taken(limit, mode, chunked, allow_multi_chunk, r);
}

/// A blank message is never posted, and neither is any under a limit that Discord does
/// not meet.
pub proof fn law_what_cannot_be_posted_is_refused<C: Chunker>(
    config: SendConfig,
    chunker: &C,
    message: Seq<char>,
    allow_multi_chunk: bool,
    r: Result<Vec<String>, Refusal>,
)
    requires
        chunked_as(config, chunker, message, allow_multi_chunk, r),
    ensures
        text::is_blank(message) ==> (r matches Err(e) && e.reason == Reason::WouldChunk
            && !e.retryable),
        !text::is_blank(message) && config.text_chunk_limit > 2000 ==> (r matches Err(e)
            && e.reason == Reason::ConfigInvalid && !e.retryable),
        r matches Ok(chunks) ==> chunks@.len() > 0 && (chunks@.len() > 1 ==> allow_multi_chunk),
{
    if r is Ok {
        let (limit, mode) = chunk_settings(config.text_chunk_limit, config.chunk_mode);
        let (s, chunked) = choose|s: &str, chunked: Result<Vec<String>, String>|
            {
                &&& #[trigger] cuts(chunker, s, limit, mode, chunked)
                &&& s@ == message
                &&& chunks_view(r) == chunks_reply(limit, mode, chunked, allow_multi_chunk)
            };
        lemma_taken(limit, mode, chunked, allow_multi_chunk, r);
    }
}

proof fn lemma_taken(
    limit: usize,
    mode: ChunkMode,
    chunked: Result<Vec<String>, String>,
    allow_multi_chunk: bool,
    r: Result<Vec<String>, Refusal>,
)
    requires
        chunks_view(r) == chunks_reply(limit, mode, chunked, allow_multi_chunk),
    ensures
        taken(chunked, allow_multi_chunk, r),
{
    if r is Ok {
        assert(text::texts(r->Ok_0@).len() == r->Ok_0@.len());
        assert(text::texts(chunked->Ok_0@).len() == chunked->Ok_0@.len());
    } else {
        assert(chunks_view(r) == Err::<Seq<Seq<char>>, RefusalView>(r->Err_0@));
        assert(r->Err_0.reason == r->Err_0@.reason);
    }
}

/// What the pipeline decides is what becomes of a message: one that is halted, moved to
/// another channel or not judged to the end is refused, each for its own reason and
/// without the prospect of a retry. Any other goes on with the text that the pipeline
/// came to, or with its own.
pub proof fn law_pipelines_decide(message: Seq<char>, outcome: PipelineOutcome, e: PipelineError)
    ensures
        after_pipeline(message, None) == Ok::<Seq<char>, RefusalView>(message),
        after_pipeline(message, Some(Err(e))) matches Err(x) && x.reason == Reason::ConfigInvalid
            && !x.retryable,
        outcome@.decision is Halt ==> (after_pipeline(message, Some(Ok(outcome))) matches Err(x)
            && x.reason == Reason::ContradictionaryBounce && !x.retryable),
        outcome@.decision is Redirect ==> (after_pipeline(message, Some(Ok(outcome))) matches Err(
            x,
        ) && x.reason == Reason::NotPermittedTarget && !x.retryable),
        outcome@.decision is Continue || outcome@.decision is Rewrite ==> after_pipeline(
            message,
            Some(Ok(outcome)),
        ) == Ok::<Seq<char>, RefusalView>(
            match outcome@.final_text {
                Some(t) => t,
                None => message,
            },
        ),
{
}

/// The judge lets a text through unchanged or not at all, and not where an entry that
/// blocks matches it. A message that the pipeline refused stays refused.
pub proof fn law_blocked_texts_are_refused(
    contradictionary: Option<Contradictionary>,
    piped: Result<Seq<char>, RefusalView>,
)
    ensures
        piped is Err ==> judged_text(contradictionary, piped) == piped,
        judged_text(contradictionary, piped) is Ok ==> judged_text(contradictionary, piped)
            == piped,
        contradictionary is None ==> judged_text(contradictionary, piped) == piped,
        contradictionary matches Some(c) ==> (piped matches Ok(t) ==> (judged_text(
            contradictionary,
            piped,
        ) is Err <==> exists|i: int|
            0 <= i < c.entries@.len() && crate::contradictionary::entry_matches(
                #[trigger] c.entries@[i],
                t,
            ) && c.entries@[i].action == crate::contradictionary::Action::Block)),
        piped is Ok ==> (judged_text(contradictionary, piped) matches Err(e) ==> e.reason
            == Reason::ContradictionaryBounce && !e.retryable),
{
    if let Some(c) = contradictionary {
        if let Ok(t) = piped {
            judge::law_texts_bounce_on_blocking_entries(c.entries@, t);
        }
    }
}

/// The hooks are shown the message itself, by the bot that Discord says is speaking and
/// in the channel that it is for.
pub proof fn law_hooks_are_shown_the_message(
    config: SendConfig,
    channel_id: u64,
    identity: Identity,
    message: Seq<char>,
)
    ensures
        ({
            let context = oneshot_context(config, channel_id, identity, message);
            &&& context.text == message
            &&& context.author_id == Some(identity.bot_user_id)
            &&& context.destination == OutboundDestination::Channel(channel_id)
            &&& context.channel_type == ChannelType::Public
            &&& context.reply_to_message_id is None
            &&& context.construct_id == config.construct_id@
            &&& context.metadata.contains_pair("outbound_surface"@, "oneshot"@)
        }),
{
}

/// A token is taken without the white space around it, and one that is nothing else is
/// no token.
pub proof fn law_tokens_are_not_blank(found: Option<String>)
    ensures
        given_token(found) is Some <==> (found matches Some(t) && !text::is_blank(t@)),
        given_token(found) is Some ==> given_token(found) == Some(text::trimmed(found->0@)),
        given_token(found) matches Some(t) ==> t.len() > 0,
{
}

/// The bot is taken for the one that is expected only where Discord says so. Any other
/// answer is refused: another bot as a mismatch, a token that Discord does not know as
/// no token, and neither is worth a retry. A question that failed is worth one, unless
/// Discord called it wrong.
pub proof fn law_only_the_expected_bot_speaks(
    answer: Result<(u64, String), RestFailure>,
    expected: u64,
    source: TokenSource,
)
    ensures
        identity_of(answer, expected, source) matches Ok(identity) ==> identity.bot_user_id
            == expected && identity.token_source == source && (answer matches Ok(current)
            && current.0 == expected && identity.username == current.1),
        answer matches Ok(current) && current.0 == expected ==> identity_of(
            answer,
            expected,
            source,
        ) is Ok,
        answer matches Ok(current) && current.0 != expected ==> (identity_of(
            answer,
            expected,
            source,
        ) matches Err(e) && e.reason == Reason::IdentityMismatch && !e.retryable),
        answer matches Err(f) && f.status == Some(401u16) ==> (identity_of(
            answer,
            expected,
            source,
        ) matches Err(e) && e.reason == Reason::NoToken && !e.retryable),
        answer matches Err(f) ==> (f.status != Some(401u16) ==> (identity_of(
            answer,
            expected,
            source,
        ) matches Err(e) && e.reason == Reason::SendFailed && !e.delivery_ambiguous && (e.retryable
            <==> f.class != FailureClass::ClientError && f.class != FailureClass::Other))),
{
}

/// What Discord says of a request tells whether it can have been carried out all the
/// same, and whether to try again: a post is tried again only where it cannot have
/// arrived, a question wherever another answer may come.
pub proof fn law_failures_tell_whether_to_retry(class: FailureClass)
    ensures
        may_have_posted(class) <==> class == FailureClass::ServerError || class
            == FailureClass::Timeout || class == FailureClass::Transport,
        retry_helps(Stage::Post, class) <==> class == FailureClass::RateLimited || class
            == FailureClass::ConnectFailed,
        retry_helps(Stage::Identity, class) <==> class != FailureClass::ClientError && class
            != FailureClass::Other,
{
}

/// Too many requests, failures of the server and all other answers are told apart by
/// their status.
pub proof fn law_statuses_tell_the_failure(status: u16)
    ensures
        status_class(status) == FailureClass::RateLimited <==> status == 429,
        status_class(status) == FailureClass::ServerError <==> 500 <= status <= 599,
        status_class(status) == FailureClass::ClientError <==> status != 429 && !(500 <= status
            <= 599),
{
}

/// A request that did not get through is told from one that was lost on the way, for
/// only the second can have arrived.
pub proof fn law_lost_requests_are_told_apart(error: RestError)
    ensures
        error matches RestError::Unsuccessful { status, .. } ==> error_class(error)
            == status_class(status),
        error matches RestError::Request { is_connect, .. } ==> (is_connect <==> error_class(error)
            == FailureClass::ConnectFailed),
        error matches RestError::Request { is_connect, is_timeout, .. } ==> (!is_connect
            && is_timeout <==> error_class(error) == FailureClass::Timeout),
        error matches RestError::Request { is_connect, is_timeout, .. } ==> (!is_connect
            && !is_timeout <==> error_class(error) == FailureClass::Transport),
        error is Http || error is Other ==> error_class(error) == FailureClass::Other,
{
}

/// A post that failed is refused as a failed send. It is ambiguous where it can have
/// arrived all the same, and a retry is offered where it cannot have and nothing was
/// posted before it.
pub proof fn law_failed_posts_are_told_truly(
    channel_id: u64,
    chunks: nat,
    posted: Seq<u64>,
    class: FailureClass,
    detail: Seq<char>,
)
    ensures
        ({
            let refusal = post_refusal(channel_id, chunks, posted, class, detail);
            &&& refusal.reason == Reason::SendFailed
            &&& refusal.delivery_ambiguous <==> class == FailureClass::ServerError || class
                == FailureClass::Timeout || class == FailureClass::Transport
            &&& refusal.retryable <==> posted.len() == 0 && (class == FailureClass::RateLimited
                || class == FailureClass::ConnectFailed)
            &&& !(refusal.retryable && refusal.delivery_ambiguous)
        }),
{
}

/// What is refused before anything was posted is neither worth a retry nor ambiguous.
pub proof fn law_refusals_before_posting_are_plain(reason: Reason, detail: Seq<char>)
    ensures
        refusal(reason, detail).reason == reason,
        refusal(reason, detail).detail == detail,
        !refusal(reason, detail).retryable,
        !refusal(reason, detail).delivery_ambiguous,
{
}

/// The status of the process tells who is to act: 1 the one who called it, 2 the one
/// whose message was refused, 3 the one who may try again. No refusal exits with 0.
pub proof fn law_exit_statuses_tell_who_is_to_act(reason: Reason)
    ensures
        exit_status(reason) == 1 <==> reason == Reason::Usage || reason == Reason::ConfigInvalid,
        exit_status(reason) == 3 <==> reason == Reason::SendFailed,
        1 <= exit_status(reason) <= 3,
{
}

/// No two reasons are written alike.
pub proof fn law_slugs_are_distinct(a: Reason, b: Reason)
    requires
        slug_text(a) == slug_text(b),
    ensures
        a == b,
{
    reveal_strlit("usage");
    reveal_strlit("config_invalid");
    reveal_strlit("no_token");
    reveal_strlit("identity_mismatch");
    reveal_strlit("not_permitted_target");
    reveal_strlit("would_chunk");
    reveal_strlit("contradictionary_bounce");
    reveal_strlit("send_failed");
    assert("usage"@.len() == 5);
    assert("config_invalid"@.len() == 14);
    assert("no_token"@.len() == 8);
    assert("identity_mismatch"@.len() == 17);
    assert("not_permitted_target"@.len() == 20);
    assert("would_chunk"@.len() == 11 && "would_chunk"@[0] == 'w');
    assert("contradictionary_bounce"@.len() == 23);
    assert("send_failed"@.len() == 11 && "send_failed"@[0] == 's');
}

/// The receipt says `ok` exactly of what was not refused, and offers a retry, or calls
/// the delivery ambiguous, exactly where the refusal does. What was sent is told by its
/// channel and by every message.
pub proof fn law_receipts_tell_the_outcome(outcome: Outcome)
    ensures
        outcome_view(outcome) matches JsonView::Object(fields) && {
            &&& fields[0] == ("ok"@, JsonView::Bool(!(outcome is Refused)))
            &&& outcome matches Outcome::Refused(x) ==> fields.contains(
                ("retryable"@, JsonView::Bool(x.retryable)),
            ) && fields.contains(("delivery_ambiguous"@, JsonView::Bool(x.delivery_ambiguous)))
                && fields.contains(("reason"@, JsonView::Text(slug_text(x.reason))))
                && fields.contains(("detail"@, JsonView::Text(x.detail@)))
                && fields.contains(("status"@, JsonView::Text("refused"@)))
            &&& outcome matches Outcome::Sent { channel_id, message_ids, .. } ==> fields.contains(
                ("status"@, JsonView::Text("sent"@)),
            ) && fields.contains(("channel_id"@, json::id_view(channel_id))) && fields.contains(
                ("message_ids"@, json::ids_view(message_ids@)),
            ) && fields.contains(("retryable"@, JsonView::Bool(false)))
            &&& outcome matches Outcome::PreflightOk { channel_id, chunks, .. } ==> fields.contains(
                ("status"@, JsonView::Text("preflight_ok"@)),
            ) && fields.contains(("channel_id"@, json::id_view(channel_id))) && fields.contains(
                ("chunks"@, JsonView::Unsigned(chunks as u64)),
            ) && fields.contains(("retryable"@, JsonView::Bool(false)))
        },
{
    let fields = outcome_view(outcome)->Object_0;
    assert(fields.contains(fields[1]));
    assert(fields.contains(fields[2]));
    assert(fields.contains(fields[3]));
    assert(fields.contains(fields[4]));
    assert(fields.contains(fields[5]));
}

/// The nonce of a message that is not cut is the caller's key itself. That of a chunk
/// starts with the key and ends with its number.
pub proof fn law_nonces_carry_the_key(key: Seq<char>, chunk_count: nat, i: nat)
    ensures
        key.is_prefix_of(chunk_nonce(key, chunk_count, i)),
        chunk_count <= 1 ==> chunk_nonce(key, chunk_count, i) == key,
        chunk_count > 1 ==> chunk_nonce(key, chunk_count, i) == key + seq!['-'] + text::decimal(i),
{
    reveal_strlit("-");
    assert("-"@ =~= seq!['-']);
    assert(key =~= chunk_nonce(key, chunk_count, i).subrange(0, key.len() as int));
}

/// Every chunk has its nonce where the caller gave a key, and none has one where the
/// caller gave none. No nonce is longer than Discord takes them, and a key that is
/// empty, or too long by itself, is the caller's fault.
pub proof fn law_every_chunk_has_its_nonce(
    nonce: Option<Seq<char>>,
    chunk_count: nat,
    r: Result<Vec<Option<String>>, Refusal>,
)
    requires
        nonces_as(nonce, chunk_count, r),
        chunk_count > 0,
    ensures
        nonce is None ==> r is Ok,
        r matches Ok(list) ==> list@.len() == chunk_count && forall|i: int|
            0 <= i < chunk_count ==> {
                &&& (#[trigger] list@[i]) is Some <==> nonce is Some
                &&& list@[i] matches Some(n) ==> 0 < n@.len() <= 25 && nonce->0.is_prefix_of(n@)
            },
        r matches Err(e) ==> e.reason == Reason::Usage && !e.retryable && (nonce matches Some(key)
            && (key.len() == 0 || key.len() > 25 || chunk_count > 1)),
        nonce matches Some(key) && (key.len() == 0 || key.len() > 25) ==> r is Err,
{
    if let Some(key) = nonce {
        if let Ok(list) = r {
            assert forall|i: int| 0 <= i < chunk_count implies (#[trigger] list@[i]) is Some
                && 0 < list@[i]->0@.len() <= 25 && key.is_prefix_of(list@[i]->0@) by {
                assert(text::text_opt(list@[i]) == Some(chunk_nonce(key, chunk_count, i as nat)));
                law_nonces_carry_the_key(key, chunk_count, i as nat);
            }
            assert(list@[0] is Some);
        }
    }
}

/// What is posted is what the chunker made of the text that the hooks and the judge
/// left of the message, and the message itself could be cut as well. Where the hooks
/// are switched off, it is the message.
pub proof fn law_what_is_posted_was_judged<
    C: Chunker,
    H: PreSendHook,
    F: FeedbackSink,
    A: AuditSink,
>(
    config: SendConfig,
    chunker: &C,
    pipeline: PreSendPipeline<H, F, A>,
    request: SendRequest,
    identity: Identity,
    r: Result<Prepared, Refusal>,
)
    requires
        preflight_as(config, chunker, pipeline, request, identity, r),
        r is Ok,
    ensures
        config.channels@.contains(request.channel_id),
        exists|first: Result<Vec<String>, Refusal>|
            first is Ok && #[trigger] chunked_as(
                config,
                chunker,
                request.message@,
                request.allow_multi_chunk,
                first,
            ),
        exists|left: Result<String, Refusal>, chunks: Result<Vec<String>, Refusal>|
            left is Ok && chunks is Ok && #[trigger] judged_as(
                config,
                pipeline,
                request.channel_id,
                identity,
                request.message@,
                left,
            ) && #[trigger] chunked_as(
                config,
                chunker,
                left->Ok_0@,
                request.allow_multi_chunk,
                chunks,
            ) && text::texts(r->Ok_0.chunks@) == text::texts(chunks->Ok_0@) && (
            !config.pre_send_enabled ==> left->Ok_0@ == request.message@) && (
            config.contradictionary matches Some(c) ==> forall|i: int|
                0 <= i < c.entries@.len() && crate::contradictionary::entry_matches(
                    #[trigger] c.entries@[i],
                    left->Ok_0@,
                ) ==> c.entries@[i].action != crate::contradictionary::Action::Block),
{
    let first = choose|chunked: Result<Vec<String>, Refusal>|
        #[trigger] chunked_as(
            config,
            chunker,
            request.message@,
            request.allow_multi_chunk,
            chunked,
        ) && match chunked {
            Err(e) => r matches Err(x) && x@ == e@,
            Ok(chunks) => exists|judged: Result<String, Refusal>|
                #[trigger] judged_as(
                    config,
                    pipeline,
                    request.channel_id,
                    identity,
                    request.message@,
                    judged,
                ) && match judged {
                    Err(e) => r matches Err(x) && x@ == e@,
                    Ok(left) => if left@ == request.message@ {
                        prepared_as(request.nonce, text::texts(chunks@), r)
                    } else {
                        exists|again: Result<Vec<String>, Refusal>|
                            #[trigger] chunked_as(
                                config,
                                chunker,
                                left@,
                                request.allow_multi_chunk,
                                again,
                            ) && match again {
                                Err(e) => r matches Err(x) && x@ == e@,
                                Ok(chunks) => prepared_as(request.nonce, text::texts(chunks@), r),
                            }
                    },
                },
        };
    assert(first is Ok);
    let left = choose|judged: Result<String, Refusal>|
        #[trigger] judged_as(
            config,
            pipeline,
            request.channel_id,
            identity,
            request.message@,
            judged,
        ) && match judged {
            Err(e) => r matches Err(x) && x@ == e@,
            Ok(left) => if left@ == request.message@ {
                prepared_as(request.nonce, text::texts(first->Ok_0@), r)
            } else {
                exists|again: Result<Vec<String>, Refusal>|
                    #[trigger] chunked_as(
                        config,
                        chunker,
                        left@,
                        request.allow_multi_chunk,
                        again,
                    ) && match again {
                        Err(e) => r matches Err(x) && x@ == e@,
                        Ok(chunks) => prepared_as(request.nonce, text::texts(chunks@), r),
                    }
            },
        };
    assert(left is Ok);
    lemma_judged_clear(config, pipeline, request.channel_id, identity, request.message@, left);
    let chunks = if left->Ok_0@ == request.message@ {
        first
    } else {
        choose|again: Result<Vec<String>, Refusal>|
            #[trigger] chunked_as(
                config,
                chunker,
                left->Ok_0@,
                request.allow_multi_chunk,
                again,
            ) && match again {
                Err(e) => r matches Err(x) && x@ == e@,
                Ok(chunks) => prepared_as(request.nonce, text::texts(chunks@), r),
            }
    };
    assert(chunks is Ok);
    assert(chunked_as(config, chunker, left->Ok_0@, request.allow_multi_chunk, chunks));
    assert(prepared_as(request.nonce, text::texts(chunks->Ok_0@), r));
}

proof fn lemma_judged_clear<H: PreSendHook, F: FeedbackSink, A: AuditSink>(
    config: SendConfig,
    pipeline: PreSendPipeline<H, F, A>,
    channel_id: u64,
    identity: Identity,
    message: Seq<char>,
    left: Result<String, Refusal>,
)
    requires
        judged_as(config, pipeline, channel_id, identity, message, left),
        left is Ok,
    ensures
        !config.pre_send_enabled ==> left->Ok_0@ == message,
        config.contradictionary matches Some(c) ==> forall|i: int|
            0 <= i < c.entries@.len() && crate::contradictionary::entry_matches(
                #[trigger] c.entries@[i],
                left->Ok_0@,
            ) ==> c.entries@[i].action != crate::contradictionary::Action::Block,
{
    let piped = if config.pre_send_enabled {
        let ran = choose|ran: Result<PipelineOutcome, PipelineError>|
            #[trigger] piped_as(
                pipeline,
                oneshot_context(config, channel_id, identity, message),
                ran,
            ) && text_or_refusal(left) == judged_text(
                config.contradictionary,
                after_pipeline(message, Some(ran)),
            );
        after_pipeline(message, Some(ran))
    } else {
        Ok(message)
    };
    assert(text_or_refusal(left) == judged_text(config.contradictionary, piped));
    law_blocked_texts_are_refused(config.contradictionary, piped);
}

/// Nothing is posted in a dry run, and nothing is called posted in one.
pub proof fn law_dry_runs_post_nothing<
    C: Chunker,
    H: PreSendHook,
    F: FeedbackSink,
    A: AuditSink,
>(
    config: SendConfig,
    chunker: &C,
    pipeline: PreSendPipeline<H, F, A>,
    request: SendRequest,
    answer: Result<(u64, String), RestFailure>,
    step: SendStep,
)
    requires
        follows(config, chunker, pipeline, request, answer, step),
    ensures
        request.dry_run ==> !(step is Post),
        !(step matches SendStep::Done(Outcome::Sent { .. })),
        step matches SendStep::Done(Outcome::PreflightOk { channel_id, identity, .. })
            ==> request.dry_run && channel_id == request.channel_id && identity.bot_user_id
            == request.expect_identity,
{
}

/// A text that does not hold the token is not touched by taking it out.
pub proof fn law_scrubbing_spares_other_text(detail: Seq<char>, token: Seq<char>)
    requires
        !text::occurs(detail, token),
    ensures
        scrubbed(detail, token) == detail,
{
    if token.len() > 0 {
        lemma_nothing_replaced(detail, token);
    }
}

proof fn lemma_nothing_replaced(s: Seq<char>, token: Seq<char>)
    requires
        token.len() > 0,
        !text::occurs(s, token),
    ensures
        text::replaced(s, token, "[redacted]"@) == s,
    decreases s.len(),
{
    if s.len() >= token.len() {
        assert(!text::occurs_at(s, token, 0));
        let rest = s.skip(1);
        assert forall|at: int| !text::occurs_at(rest, token, at) by {
            if text::occurs_at(rest, token, at) {
                assert(s.subrange(at + 1, at + 1 + token.len()) =~= rest.subrange(
                    at,
                    at + token.len(),
                ));
                assert(text::occurs_at(s, token, at + 1));
            }
        }
        lemma_nothing_replaced(rest, token);
        assert(seq![s[0]] + rest =~= s);
    }
}

/// Where a token comes from is told: the configuration, or a variable by its name.
pub proof fn law_sources_are_told(var: String, identity: Identity)
    ensures
        source_text(TokenSource::Config) == "config"@,
        source_text(TokenSource::Env(var)) == "env:"@ + var@,
        identity_view(identity) matches JsonView::Object(fields) && fields.len() == 3 && fields[0]
            == ("bot_user_id"@, JsonView::Text(text::decimal(identity.bot_user_id as nat)))
            && fields[1] == ("username"@, JsonView::Text(identity.username@)) && fields[2] == (
            "token_source"@,
            JsonView::Text(source_text(identity.token_source)),
        ),
{
}

/// Variables have names of letters, digits and underscores, and no name is empty.
pub proof fn law_variables_have_names(name: Seq<char>, c: char)
    ensures
        !is_variable_name(Seq::empty()),
        name.len() > 0 ==> (is_variable_name(name.push(c)) <==> is_variable_name(name) && ('0' <= c
            <= '9' || 'a' <= c <= 'z' || 'A' <= c <= 'Z' || c == '_')),
        is_variable_name(seq![c]) <==> '0' <= c <= '9' || 'a' <= c <= 'z' || 'A' <= c <= 'Z' || c
            == '_',
{
    let longer = name.push(c);
    assert(longer[name.len() as int] == c);
    if name.len() > 0 && is_variable_name(longer) {
        assert forall|i: int| 0 <= i < name.len() implies {
            let d = #[trigger] name[i];
            text::is_digit(d) || 'a' <= d <= 'z' || 'A' <= d <= 'Z' || d == '_'
        } by {
            assert(longer[i] == name[i]);
        }
    }
    assert(seq![c][0] == c);
}

/// Each line feed starts a line, and nothing else does.
pub proof fn law_line_feeds_start_lines(bytes: Seq<u8>, b: u8)
    ensures
        newlines(Seq::empty()) == 0,
        last_line_start(Seq::empty()) == 0,
        newlines(bytes.push(b)) == newlines(bytes) + if b == 10 {
            1nat
        } else {
            0nat
        },
        last_line_start(bytes.push(b)) == if b == 10 {
            bytes.len() + 1
        } else {
            last_line_start(bytes)
        },
{
    reveal(Seq::filter);
    assert(bytes.push(b).drop_last() =~= bytes);
}

/// Where the hooks are switched on, all of them are asked about the message, none is
/// passed over, and what they decide holds: where they fail or halt the message, it is
/// refused.
pub proof fn law_no_hook_is_passed_over<H: PreSendHook, F: FeedbackSink, A: AuditSink>(
    config: SendConfig,
    pipeline: PreSendPipeline<H, F, A>,
    channel_id: u64,
    identity: Identity,
    message: Seq<char>,
    r: Result<String, Refusal>,
)
    requires
        judged_as(config, pipeline, channel_id, identity, message, r),
        config.pre_send_enabled,
    ensures
        exists|
            outputs: Seq<Option<OutputView>>,
            feedback: SinkReply,
            audit: SinkReply,
            ran: Result<PipelineOutcome, PipelineError>,
        |
            pipeline.consulted(
                Set::empty(),
                oneshot_context(config, channel_id, identity, message),
                outputs,
            ) && #[trigger] pre_send::ran_with(
                pipeline.mode_view(),
                pipeline.policy_view(),
                Set::empty(),
                oneshot_context(config, channel_id, identity, message),
                pipeline.names(),
                outputs,
                feedback,
                audit,
                ran,
            ) && (ran is Err ==> r is Err),
{
    let context = oneshot_context(config, channel_id, identity, message);
    let ran = choose|ran: Result<PipelineOutcome, PipelineError>|
        #[trigger] piped_as(pipeline, context, ran) && text_or_refusal(r) == judged_text(
            config.contradictionary,
            after_pipeline(message, Some(ran)),
        );
    assert(piped_as(pipeline, context, ran));
    let (outputs, feedback, audit) = choose|
        outputs: Seq<Option<OutputView>>,
        feedback: SinkReply,
        audit: SinkReply,
    |
        pipeline.consulted(Set::empty(), context, outputs) && pipeline.told(
            Set::empty(),
            context,
            outputs,
            feedback,
            audit,
        ) && #[trigger] pre_send::ran_with(
            pipeline.mode_view(),
            pipeline.policy_view(),
            Set::empty(),
            context,
            pipeline.names(),
            outputs,
            feedback,
            audit,
            ran,
        );
    assert(pre_send::ran_with(
        pipeline.mode_view(),
        pipeline.policy_view(),
        Set::empty(),
        context,
        pipeline.names(),
        outputs,
        feedback,
        audit,
        ran,
    ));
}

/// The chunks of a message are posted one after another, each once and with its own nonce,
/// and behind the last the message is sent: the outcome tells of every message.
pub proof fn law_posts_go_out_in_order(
    before: Posting,
    first: Option<(&str, Option<&str>)>,
    message_id: u64,
    r: SendStep,
)
    requires
        before.wf(),
        before.message_ids@.len() < before.prepared.chunks@.len(),
        call_ensures(Posting::next_chunk, (&before,), first),
        call_ensures(Posting::posted, (before, message_id), r),
    ensures
        first matches Some((chunk, nonce)) && chunk@
            == before.prepared.chunks@[before.message_ids@.len() as int]@ && (nonce is Some
            <==> before.prepared.nonces@[before.message_ids@.len() as int] is Some),
        before.message_ids@.len() + 1 < before.prepared.chunks@.len() <==> r is Post,
        r matches SendStep::Post(p) ==> p.message_ids@ == before.message_ids@.push(message_id)
            && p.prepared == before.prepared && p.channel_id == before.channel_id,
        r matches SendStep::Done(o) ==> (o matches Outcome::Sent { channel_id, message_ids, .. }
            && channel_id == before.channel_id && message_ids@ == before.message_ids@.push(
            message_id,
        )),
{
}

/// A dry run posts nothing; any other message is to be posted, to the channel that was
/// asked for, from its first chunk on.
pub proof fn law_posting_begins_with_the_first_chunk(
    request: &SendRequest,
    identity: Identity,
    prepared: Prepared,
    r: SendStep,
)
    requires
        prepared.wf(),
        call_ensures(begin_post, (request, identity, prepared), r),
    ensures
        r is Done <==> request.dry_run,
        r matches SendStep::Post(p) ==> p.channel_id == request.channel_id
            && p.message_ids@.len() == 0 && p.prepared == prepared,
        r matches SendStep::Done(o) ==> (o matches Outcome::PreflightOk { channel_id, chunks, .. }
            && channel_id == request.channel_id && chunks == prepared.chunks@.len()),
{
    assert(prepared.chunks@.len() == prepared.chunks.len());
}

/// The token comes from where it was said to come from: what the environment holds does not
/// matter where it is to come from the configuration, and the other way round.
pub proof fn law_tokens_come_from_their_source(
    config: &SendConfig,
    source: &TokenSource,
    env: Option<String>,
    r: Result<String, Refusal>,
)
    requires
        call_ensures(select_token, (config, source, env), r),
    ensures
        *source is Config ==> (r matches Ok(token) ==> config.token is Some && token@
            == text::trimmed(config.token->0@)),
        *source is Config && config.token is None ==> r is Err,
        *source is Env ==> (r matches Ok(token) ==> env is Some && token@ == text::trimmed(
            env->0@,
        )),
        *source is Env && env is None ==> r is Err,
        r matches Err(e) ==> e.reason == Reason::NoToken,
{
}

/// Only a channel of the configuration is written to.
pub proof fn law_only_configured_channels_are_written_to(
    config: &SendConfig,
    channel_id: u64,
    r: Result<(), Refusal>,
)
    requires
        call_ensures(check_target, (config, channel_id), r),
    ensures
        r is Ok <==> config.channels@.contains(channel_id),
        r matches Err(e) ==> e.reason == Reason::NotPermittedTarget && !e.retryable
            && !e.delivery_ambiguous,
{
}

/// Where all nonces that are made from a key are short enough, none is refused.
pub proof fn law_short_nonces_are_taken(
    key: Seq<char>,
    chunk_count: nat,
    r: Result<Vec<Option<String>>, Refusal>,
)
    requires
        nonces_as(Some(key), chunk_count, r),
        key.len() > 0,
        forall|i: nat| (#[trigger] chunk_nonce(key, chunk_count, i)).len() <= 25,
    ensures
        r is Ok,
{
}

/// Behind a line feed the next line starts at its first column; behind any other byte the
/// line goes on with its next column.
pub proof fn law_lines_and_columns_are_counted(
    bytes: &Vec<u8>,
    offset: usize,
    next: usize,
    here: (usize, usize),
    there: (usize, usize),
)
    requires
        bytes@.len() < usize::MAX,
        offset < bytes@.len(),
        next == offset + 1,
        call_ensures(line_col_at, (bytes, offset), here),
        call_ensures(line_col_at, (bytes, next), there),
    ensures
        bytes@[offset as int] == 10 ==> there == ((here.0 + 1) as usize, 1usize),
        bytes@[offset as int] != 10 ==> there.0 == here.0 && there.1 == here.1 + 1,
        offset == 0 ==> here == (1usize, 1usize),
{
    let before = bytes@.take(offset as int);
    assert(bytes@.take(next as int) =~= before.push(bytes@[offset as int]));
    law_line_feeds_start_lines(before, bytes@[offset as int]);
    if offset == 0 {
        assert(before =~= Seq::empty());
    }
}

/// The bot is the one that was expected, and is told of with the source of its token; any
/// other bot is refused.
pub proof fn law_other_bots_are_refused(
    current: (u64, String),
    expected: u64,
    source: &TokenSource,
    r: Result<Identity, Refusal>,
)
    requires
        call_ensures(check_identity, (current, expected, source), r),
    ensures
        r is Ok <==> current.0 == expected,
        r matches Ok(identity) ==> identity.bot_user_id == expected && identity.username == current.1
            && identity.token_source == *source,
        r matches Err(e) ==> e.reason == Reason::IdentityMismatch && !e.retryable,
{
}

/// The environment is looked at only where the source says so, and only at the variable
/// that it names.
pub proof fn law_only_named_variables_are_read(source: &TokenSource, r: Option<&str>)
    requires
        call_ensures(variable_to_read, (source,), r),
    ensures
        r is Some <==> *source is Env,
        *source matches TokenSource::Env(var) ==> r->0@ == var@,
{
}

/// What is said of a call that failed names what failed: the status and the address where
/// Discord answered, and else on which part of the way the request was lost.
pub proof fn law_failed_calls_are_told_of(error: RestError)
    ensures
        error matches RestError::Unsuccessful { status, method, url, message, code } ==> error_text(
            error,
        ) == "Discord HTTP "@ + text::decimal(status as nat) + " on "@ + method@ + " "@ + url@
            + ": "@ + message@ + " (code "@ + text::signed_decimal(code as int) + ")"@,
        error matches RestError::Request { is_connect: true, is_timeout, text } ==> error_text(error)
            == "transport error ("@ + "ConnectFailed"@ + "): "@ + text@,
        error matches RestError::Request { is_connect: false, is_timeout: true, text } ==> error_text(
            error,
        ) == "transport error ("@ + "Timeout"@ + "): "@ + text@,
        error matches RestError::Request { is_connect: false, is_timeout: false, text }
            ==> error_text(error) == "transport error ("@ + "Transport"@ + "): "@ + text@,
        error matches RestError::Http { text } ==> error_text(error) == "HTTP client error: "@
            + text@,
        error matches RestError::Other { text } ==> error_text(error) == "Discord client error: "@
            + text@,
{
}

} // verus!
