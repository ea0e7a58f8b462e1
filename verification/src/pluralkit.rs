//! PluralKit identity resolution for proxied messages.
//!
//! A message that PluralKit proxied has the author of a webhook. What PluralKit says of
//! it, which user sent it and for which system and member, is believed only where it
//! speaks of the very event that was seen. Facts are kept for a while, verdicts never.

use std::collections::{HashMap, VecDeque};
use vstd::prelude::*;
use crate::clock::{Duration, Instant};
use crate::table;
use crate::text;

verus! {

/// Where PluralKit answers.
pub const OFFICIAL_PK_ORIGIN: &'static str = "https://api.pluralkit.me";

/// How many facts are kept.
pub const CACHE_CAP: usize = 500;

/// The most bytes of an answer.
pub const MAX_VERIFIED_RESPONSE_BYTES: usize = 65536;

/// The longest wait between two attempts, in milliseconds.
pub const MAX_BACKOFF_MILLIS: u64 = 30_000;

// ── UUIDs ───────────────────────────────────────────────────────────────────

/// Whether a UUID has a hyphen at this place.
pub open spec fn is_hyphen_place(i: int) -> bool {
    i == 8 || i == 13 || i == 18 || i == 23
}

/// Whether a text is a UUID in full: hexadecimal digits in groups of 8, 4, 4, 4 and 12.
pub open spec fn is_uuid(s: Seq<char>) -> bool {
    s.len() == 36 && forall|i: int|
        0 <= i < 36 ==> if is_hyphen_place(i) {
            #[trigger] s[i] == '-'
        } else {
            text::is_hex_digit(s[i])
        }
}

/// The digits of a UUID in full.
pub open spec fn uuid_digits(s: Seq<char>) -> Seq<char> {
    s.subrange(0, 8) + s.subrange(9, 13) + s.subrange(14, 18) + s.subrange(19, 23) + s.subrange(
        24,
        36,
    )
}

fn str_is_uuid(s: &str) -> (r: bool)
    ensures
        r == is_uuid(s@),
{
    let chars: Vec<char> = text::chars_of(s);
    if chars.len() != 36 {
        return false;
    }
    let mut i: usize = 0;
    while i < 36
        invariant
            chars@ == s@,
            chars@.len() == 36,
            i <= 36,
            forall|k: int|
                0 <= k < i ==> if is_hyphen_place(k) {
                    #[trigger] s@[k] == '-'
                } else {
                    text::is_hex_digit(s@[k])
                },
        decreases 36 - i,
    {
        let c: char = chars[i];
        let fits: bool = if i == 8 || i == 13 || i == 18 || i == 23 {
            c == '-'
        } else {
            ('0' <= c && c <= '9') || ('a' <= c && c <= 'f') || ('A' <= c && c <= 'F')
        };
        if !fits {
            assert(s@[i as int] == c);
            return false;
        }
        i = i + 1;
    }
    true
}

/// A PluralKit identifier: a UUID in full, in lower case.
#[derive(Debug, PartialEq, Eq, Hash)]
pub struct PkUuid {
    value: String,
}

/// Why a text is no PluralKit identifier.
pub open spec fn pk_uuid_problem(s: Seq<char>) -> Option<Seq<char>> {
    if s.len() == 0 {
        Some("PK UUID must be non-empty"@)
    } else if !is_uuid(s) {
        Some(
            "PK identifier must be a full UUID (8-4-4-4-12 hex); short IDs are not accepted — use the full UUID from PK's API"@,
        )
    } else {
        None
    }
}

impl PkUuid {
    /// The identifier as text.
    pub closed spec fn view(&self) -> Seq<char> {
        self.value@
    }

    /// Reads an identifier. PluralKit's short identifiers are not accepted: its answers
    /// hold full ones, which a short one would never equal.
    pub fn parse(s: &str) -> (r: Result<PkUuid, &'static str>)
        ensures
            match r {
                Ok(id) => pk_uuid_problem(s@) is None && id@ == text::lowered(s@),
                Err(e) => pk_uuid_problem(s@) == Some(e@),
            },
    {
        if s.unicode_len() == 0 {
            return Err("PK UUID must be non-empty");
        }
        if !str_is_uuid(s) {
            return Err(
                "PK identifier must be a full UUID (8-4-4-4-12 hex); short IDs are not accepted — use the full UUID from PK's API",
            );
        }
        let chars: Vec<char> = text::chars_of(s);
        let mut value: String = String::new();
        let mut i: usize = 0;
        while i < chars.len()
            invariant
                chars@ == s@,
                i <= chars@.len(),
                value@ == text::lowered(s@.take(i as int)),
            decreases chars@.len() - i,
        {
            value.push(text::char_lower(chars[i]));
            i = i + 1;
            assert(value@ =~= text::lowered(s@.take(i as int)));
        }
        assert(s@.take(s@.len() as int) =~= s@);
        Ok(PkUuid { value })
    }

    /// The identifier as text.
    pub fn as_str(&self) -> (r: &str)
        ensures
            r@ == self@,
    {
        self.value.as_str()
    }

    /// The identifier as text.
    pub fn to_string(&self) -> (r: String)
        ensures
            r@ == self@,
    {
        self.value.clone()
    }
}

impl Clone for PkUuid {
    fn clone(&self) -> (r: Self)
        ensures
            r == *self,
    {
        PkUuid { value: self.value.clone() }
    }
}

/// Two spellings of one identifier that differ in case only are the same identifier.
pub proof fn law_identifiers_ignore_case(a: Seq<char>, b: Seq<char>)
    requires
        is_uuid(a),
        text::lowered(a) == text::lowered(b),
    ensures
        is_uuid(b),
        pk_uuid_problem(a) is None,
        pk_uuid_problem(b) is None,
{
    assert(text::lowered(a).len() == a.len());
    assert(text::lowered(b).len() == b.len());
    assert forall|i: int| 0 <= i < 36 implies if is_hyphen_place(i) {
        #[trigger] b[i] == '-'
    } else {
        text::is_hex_digit(b[i])
    } by {
        assert(text::lowered(a)[i] == text::lower(a[i]));
        assert(text::lowered(b)[i] == text::lower(b[i]));
    }
}

/// What `uuid::Uuid::parse_str` makes of a text: the 128 bits, or its message.
pub uninterp spec fn uuid_of(s: Seq<char>) -> Result<u128, Seq<char>>;

/// The value of what a UUID was read as.
pub open spec fn uuid_result(r: Result<u128, String>) -> Result<u128, Seq<char>> {
    match r {
        Ok(bits) => Ok(bits),
        Err(e) => Err(e@),
    }
}

/// `uuid::Uuid::parse_str`: reads a UUID in any of its forms, or says what is wrong with
/// it. Both depend on the text alone. In the full form, the digits are the bits in
/// hexadecimal.
#[verifier::external_body]
fn read_uuid(s: &str) -> (r: Result<u128, String>)
    ensures
        uuid_result(r) == uuid_of(s@),
        is_uuid(s@) ==> r is Ok,
        is_uuid(s@) ==> uuid_result(r)->Ok_0 == text::hexadecimal_value(uuid_digits(s@)),
{
    match uuid::Uuid::parse_str(s) {
        Ok(u) => Ok(u.as_u128()),
        Err(e) => Err(e.to_string()),
    }
}

// ── Failures ────────────────────────────────────────────────────────────────

/// Why an identity was not resolved.
#[derive(Debug, PartialEq, Eq)]
pub enum PkResolveError {
    /// PluralKit does not know the message: it is not a proxied one.
    NotFound,
    /// PluralKit asked to wait, too often.
    RateLimited,
    /// PluralKit could not be asked.
    HttpError(String),
    /// There was no answer in time.
    Timeout,
    /// The answer speaks of another event.
    BindingMismatch { dimension: &'static str, expected: u64, actual: u64 },
    /// The resolver is shutting down.
    SemaphoreClosed,
    /// The answer makes no sense.
    InvalidResponse(String),
}

/// The value of a failure.
#[verifier::ext_equal]
pub enum PkResolveErrorView {
    NotFound,
    RateLimited,
    HttpError(Seq<char>),
    Timeout,
    BindingMismatch { dimension: Seq<char>, expected: u64, actual: u64 },
    SemaphoreClosed,
    InvalidResponse(Seq<char>),
}

impl View for PkResolveError {
    type V = PkResolveErrorView;

    open spec fn view(&self) -> PkResolveErrorView {
        match self {
            PkResolveError::NotFound => PkResolveErrorView::NotFound,
            PkResolveError::RateLimited => PkResolveErrorView::RateLimited,
            PkResolveError::HttpError(m) => PkResolveErrorView::HttpError(m@),
            PkResolveError::Timeout => PkResolveErrorView::Timeout,
            PkResolveError::BindingMismatch { dimension, expected, actual } => {
                PkResolveErrorView::BindingMismatch {
                    dimension: dimension@,
                    expected: *expected,
                    actual: *actual,
                }
            },
            PkResolveError::SemaphoreClosed => PkResolveErrorView::SemaphoreClosed,
            PkResolveError::InvalidResponse(m) => PkResolveErrorView::InvalidResponse(m@),
        }
    }
}

/// What a failure says.
pub open spec fn failure_text(e: PkResolveErrorView) -> Seq<char> {
    match e {
        PkResolveErrorView::NotFound => "PK API returned 404"@,
        PkResolveErrorView::RateLimited => "PK API rate limited (429 exhausted)"@,
        PkResolveErrorView::HttpError(m) => "PK API HTTP error: "@ + m,
        PkResolveErrorView::Timeout => "PK API request timed out"@,
        PkResolveErrorView::BindingMismatch { dimension, expected, actual } => "PK response "@
            + dimension + " binding mismatch: expected "@ + text::decimal(expected as nat)
            + ", got "@ + text::decimal(actual as nat),
        PkResolveErrorView::SemaphoreClosed => "PK resolver semaphore closed"@,
        PkResolveErrorView::InvalidResponse(m) => "PK API invalid response: "@ + m,
    }
}

impl PkResolveError {
    /// What the failure says.
    pub fn to_string(&self) -> (r: String)
        ensures
            r@ == failure_text(self@),
    {
        match self {
            PkResolveError::NotFound => text::owned("PK API returned 404"),
            PkResolveError::RateLimited => text::owned("PK API rate limited (429 exhausted)"),
            PkResolveError::HttpError(m) => {
                let mut r: String = text::owned("PK API HTTP error: ");
                r.append(m.as_str());
                r
            },
            PkResolveError::Timeout => text::owned("PK API request timed out"),
            PkResolveError::BindingMismatch { dimension, expected, actual } => {
                let mut r: String = text::owned("PK response ");
                r.append(dimension);
                r.append(" binding mismatch: expected ");
                r.append(text::decimal_string(*expected).as_str());
                r.append(", got ");
                r.append(text::decimal_string(*actual).as_str());
                r
            },
            PkResolveError::SemaphoreClosed => text::owned("PK resolver semaphore closed"),
            PkResolveError::InvalidResponse(m) => {
                let mut r: String = text::owned("PK API invalid response: ");
                r.append(m.as_str());
                r
            },
        }
    }
}

/// The failure of a request that got no answer, for one that ran out of time or not.
pub fn transport_failure(timed_out: bool, message: String) -> (r: PkResolveError)
    ensures
        r@ == (if timed_out {
            PkResolveErrorView::Timeout
        } else {
            PkResolveErrorView::HttpError(message@)
        }),
{
    if timed_out {
        PkResolveError::Timeout
    } else {
        PkResolveError::HttpError(message)
    }
}

// ── Settings ────────────────────────────────────────────────────────────────

/// How identities are resolved.
#[derive(Clone, Copy, Debug)]
pub struct PkResolverConfig {
    /// How long all of a resolution may take.
    pub request_timeout: Duration,
    /// How many requests go on at the same time.
    pub max_concurrent: usize,
    /// How often a request is repeated when PluralKit asks to wait.
    pub max_retries: u32,
    /// How long facts are kept.
    pub cache_ttl: Duration,
}

impl Default for PkResolverConfig {
    fn default() -> (r: Self)
        ensures
            r.request_timeout.nanos == 5_000_000_000,
            r.max_concurrent == 5,
            r.max_retries == 3,
            r.cache_ttl.nanos == 300_000_000_000,
    {
        PkResolverConfig {
            request_timeout: Duration::from_secs(5),
            max_concurrent: 5,
            max_retries: 3,
            cache_ttl: Duration::from_secs(300),
        }
    }
}

/// What is wrong with settings, the first of it.
pub open spec fn config_problem(config: PkResolverConfig) -> Option<Seq<char>> {
    if config.max_concurrent == 0 {
        Some("max_concurrent must be > 0"@)
    } else if config.max_retries > 10 {
        Some("max_retries must be <= 10"@)
    } else if config.request_timeout.nanos > 60_000_000_000 {
        Some("request_timeout must be <= 60s"@)
    } else if config.cache_ttl.nanos > 3_600_000_000_000 {
        Some("cache_ttl must be <= 1 hour"@)
    } else {
        None
    }
}

// ── Facts and events ────────────────────────────────────────────────────────

/// What PluralKit says of an event, and nothing else: no verdict, no place.
#[derive(Clone, Copy, Debug, PartialEq, Eq, Structural)]
pub enum VerifiedPkFacts {
    /// The application acted for nobody.
    AppOnly,
    /// The application acted for a user, a system and a member.
    Represented { discord_user_id: u64, system_id: Option<u128>, member_id: Option<u128> },
}

/// Where an event took place.
#[derive(Clone, Copy, Debug, PartialEq, Eq, Structural)]
pub enum VerifiedBindingContext {
    Guild(u64),
    DirectMessage,
}

/// The event that was seen.
#[derive(Clone, Copy, Debug, PartialEq, Eq, Structural)]
pub struct EventBinding {
    pub message_id: u64,
    pub channel_id: u64,
    pub context: VerifiedBindingContext,
}

/// The place that an answer speaks of.
#[derive(Clone, Copy, Debug, PartialEq, Eq, Structural)]
pub struct VerifiedResponseBinding {
    pub channel_id: u64,
    pub context: VerifiedBindingContext,
}

/// What PluralKit answers of a message, as far as it is needed.
#[derive(Debug)]
pub struct PkMessageResponse {
    pub id: u64,
    pub sender: u64,
    pub channel: u64,
    pub guild: u64,
    /// The UUID of the system.
    pub system: Option<String>,
    /// The UUID of the member.
    pub member: Option<String>,
}

/// The guild that an answer must name: none is written as zero.
pub open spec fn guild_number(context: VerifiedBindingContext) -> u64 {
    match context {
        VerifiedBindingContext::Guild(id) => id,
        VerifiedBindingContext::DirectMessage => 0,
    }
}

fn guild_of(context: VerifiedBindingContext) -> (r: u64)
    ensures
        r == guild_number(context),
{
    match context {
        VerifiedBindingContext::Guild(id) => id,
        VerifiedBindingContext::DirectMessage => 0,
    }
}

/// The failure where an answer differs from the event in one respect.
pub open spec fn mismatch(dimension: Seq<char>, expected: u64, actual: u64) -> PkResolveErrorView {
    PkResolveErrorView::BindingMismatch { dimension, expected, actual }
}

/// What a UUID that an answer may hold is read as; `what` begins the message where it
/// is none.
pub open spec fn uuid_field(field: Option<Seq<char>>, what: Seq<char>) -> Result<
    Option<u128>,
    PkResolveErrorView,
> {
    match field {
        None => Ok(None),
        Some(s) => match uuid_of(s) {
            Ok(bits) => Ok(Some(bits)),
            Err(e) => Err(PkResolveErrorView::InvalidResponse(what + e)),
        },
    }
}

/// What is wrong with an answer's place.
pub open spec fn place_problem(binding: EventBinding, response: PkMessageResponse) -> Option<
    PkResolveErrorView,
> {
    if response.id != binding.message_id {
        Some(mismatch("message_id"@, binding.message_id, response.id))
    } else if response.channel != binding.channel_id {
        Some(mismatch("channel_id"@, binding.channel_id, response.channel))
    } else if response.guild != guild_number(binding.context) {
        Some(mismatch("guild_id"@, guild_number(binding.context), response.guild))
    } else {
        None
    }
}

/// The facts that come of an answer, once its UUIDs have been read.
pub open spec fn facts_of(
    binding: EventBinding,
    response: PkMessageResponse,
    system: Result<Option<u128>, PkResolveErrorView>,
    member: Result<Option<u128>, PkResolveErrorView>,
) -> Result<VerifiedPkFacts, PkResolveErrorView> {
    match place_problem(binding, response) {
        Some(e) => Err(e),
        None => if response.sender == 0 {
            Err(PkResolveErrorView::InvalidResponse("sender snowflake must be nonzero"@))
        } else {
            match (system, member) {
                (Err(e), _) => Err(e),
                (_, Err(e)) => Err(e),
                (Ok(system_id), Ok(member_id)) => Ok(
                    VerifiedPkFacts::Represented {
                        discord_user_id: response.sender,
                        system_id,
                        member_id,
                    },
                ),
            }
        },
    }
}

/// The facts that come of an answer.
pub open spec fn response_facts(binding: EventBinding, response: PkMessageResponse) -> Result<
    VerifiedPkFacts,
    PkResolveErrorView,
> {
    facts_of(
        binding,
        response,
        uuid_field(text::text_opt(response.system), "system UUID: "@),
        uuid_field(text::text_opt(response.member), "member UUID: "@),
    )
}

/// The place of an event.
pub open spec fn place_of(binding: EventBinding) -> VerifiedResponseBinding {
    VerifiedResponseBinding { channel_id: binding.channel_id, context: binding.context }
}

fn check_place(binding: &EventBinding, response: &PkMessageResponse) -> (r: Result<
    (),
    PkResolveError,
>)
    ensures
        match r {
            Ok(_) => place_problem(*binding, *response) is None,
            Err(e) => place_problem(*binding, *response) == Some(e@),
        },
{
    if response.id != binding.message_id {
        return Err(
            PkResolveError::BindingMismatch {
                dimension: "message_id",
                expected: binding.message_id,
                actual: response.id,
            },
        );
    }
    if response.channel != binding.channel_id {
        return Err(
            PkResolveError::BindingMismatch {
                dimension: "channel_id",
                expected: binding.channel_id,
                actual: response.channel,
            },
        );
    }
    let guild: u64 = guild_of(binding.context);
    if response.guild != guild {
        return Err(
            PkResolveError::BindingMismatch {
                dimension: "guild_id",
                expected: guild,
                actual: response.guild,
            },
        );
    }
    Ok(())
}

/// What the reading of an optional UUID comes to.
pub open spec fn field_result(read: Option<Result<u128, String>>, what: Seq<char>) -> Result<
    Option<u128>,
    PkResolveErrorView,
> {
    match read {
        None => Ok(None),
        Some(Ok(bits)) => Ok(Some(bits)),
        Some(Err(e)) => Err(PkResolveErrorView::InvalidResponse(what + e@)),
    }
}

fn finish_field(read: Option<Result<u128, String>>, what: &str) -> (r: Result<
    Option<u128>,
    PkResolveError,
>)
    ensures
        match r {
            Ok(x) => field_result(read, what@) == Ok::<Option<u128>, PkResolveErrorView>(x),
            Err(e) => field_result(read, what@) == Err::<Option<u128>, PkResolveErrorView>(e@),
        },
{
    match read {
        None => Ok(None),
        Some(Ok(bits)) => Ok(Some(bits)),
        Some(Err(e)) => {
            let mut m: String = text::owned(what);
            m.append(e.as_str());
            Err(PkResolveError::InvalidResponse(m))
        },
    }
}

/// The facts that come of an answer whose UUIDs were read as `system` and `member`,
/// where it has them.
pub fn facts_from_parts(
    binding: &EventBinding,
    response: &PkMessageResponse,
    system: Option<Result<u128, String>>,
    member: Option<Result<u128, String>>,
) -> (r: Result<(VerifiedPkFacts, VerifiedResponseBinding), PkResolveError>)
    ensures
        ({
            let facts = facts_of(
                *binding,
                *response,
                field_result(system, "system UUID: "@),
                field_result(member, "member UUID: "@),
            );
            match r {
                Ok((f, place)) => facts == Ok::<VerifiedPkFacts, PkResolveErrorView>(f) && place
                    == place_of(*binding),
                Err(e) => facts == Err::<VerifiedPkFacts, PkResolveErrorView>(e@),
            }
        }),
{
    if let Err(e) = check_place(binding, response) {
        return Err(e);
    }
    if response.sender == 0 {
        return Err(
            PkResolveError::InvalidResponse(text::owned("sender snowflake must be nonzero")),
        );
    }
    let system_id: Option<u128> = match finish_field(system, "system UUID: ") {
        Ok(id) => id,
        Err(e) => {
            return Err(e);
        },
    };
    let member_id: Option<u128> = match finish_field(member, "member UUID: ") {
        Ok(id) => id,
        Err(e) => {
            return Err(e);
        },
    };
    Ok(
        (
            VerifiedPkFacts::Represented { discord_user_id: response.sender, system_id, member_id },
            VerifiedResponseBinding { channel_id: binding.channel_id, context: binding.context },
        ),
    )
}

fn read_field(field: &Option<String>) -> (r: Option<Result<u128, String>>)
    ensures
        forall|what: Seq<char>| #[trigger]
            field_result(r, what) == uuid_field(text::text_opt(*field), what),
{
    match field {
        Some(s) => Some(read_uuid(s.as_str())),
        None => None,
    }
}

/// The facts that come of an answer, with the place that they hold for.
pub fn verified_facts_from_response(binding: &EventBinding, response: &PkMessageResponse) -> (r:
    Result<(VerifiedPkFacts, VerifiedResponseBinding), PkResolveError>)
    ensures
        match r {
            Ok((f, place)) => response_facts(*binding, *response) == Ok::<
                VerifiedPkFacts,
                PkResolveErrorView,
            >(f) && place == place_of(*binding),
            Err(e) => response_facts(*binding, *response) == Err::<
                VerifiedPkFacts,
                PkResolveErrorView,
            >(e@),
        },
{
    let system: Option<Result<u128, String>> = read_field(&response.system);
    let member: Option<Result<u128, String>> = read_field(&response.member);
    facts_from_parts(binding, response, system, member)
}

/// Facts come only of an answer that speaks of the very event: its message, its channel
/// and its guild.
pub proof fn law_facts_belong_to_their_event(
    binding: EventBinding,
    response: PkMessageResponse,
    system: Result<Option<u128>, PkResolveErrorView>,
    member: Result<Option<u128>, PkResolveErrorView>,
)
    ensures
        facts_of(binding, response, system, member) is Ok ==> response.id == binding.message_id
            && response.channel == binding.channel_id && response.guild == guild_number(
            binding.context,
        ) && response.sender != 0 && facts_of(binding, response, system, member)->Ok_0 == (
        VerifiedPkFacts::Represented {
            discord_user_id: response.sender,
            system_id: system->Ok_0,
            member_id: member->Ok_0,
        }),
{
}

/// What is wrong with facts for an event, where they were kept for some place.
pub open spec fn binding_problem(
    binding: EventBinding,
    place: VerifiedResponseBinding,
) -> Option<PkResolveErrorView> {
    if place.channel_id != binding.channel_id {
        Some(mismatch("channel_id"@, binding.channel_id, place.channel_id))
    } else if place.context != binding.context {
        Some(mismatch("guild_id"@, guild_number(binding.context), guild_number(place.context)))
    } else {
        None
    }
}

/// Tells whether kept facts hold for an event.
pub fn verify_response_binding(binding: &EventBinding, place: &VerifiedResponseBinding) -> (r:
    Result<(), PkResolveError>)
    ensures
        match r {
            Ok(_) => binding_problem(*binding, *place) is None,
            Err(e) => binding_problem(*binding, *place) == Some(e@),
        },
{
    if place.channel_id != binding.channel_id {
        return Err(
            PkResolveError::BindingMismatch {
                dimension: "channel_id",
                expected: binding.channel_id,
                actual: place.channel_id,
            },
        );
    }
    if place.context != binding.context {
        return Err(
            PkResolveError::BindingMismatch {
                dimension: "guild_id",
                expected: guild_of(binding.context),
                actual: guild_of(place.context),
            },
        );
    }
    Ok(())
}

// ── The facts that are kept ─────────────────────────────────────────────────

/// Facts, the place that they hold for, and when they came.
#[derive(Clone, Copy, Debug)]
pub struct VerifiedCachedFacts {
    pub facts: VerifiedPkFacts,
    pub response_binding: VerifiedResponseBinding,
    pub cached_at: Instant,
}

/// The facts that are kept, by the message that they speak of, in the order in which
/// they came.
pub struct VerifiedFactsCache {
    entries: HashMap<u64, VerifiedCachedFacts>,
    order: VecDeque<u64>,
    capacity: usize,
}

/// Facts as they are kept: under a message's identifier.
pub type Entry = (u64, VerifiedCachedFacts);

/// The entries of a map in an order of its keys.
spec fn listing(order: Seq<u64>, entries: Map<u64, VerifiedCachedFacts>) -> Seq<Entry> {
    order.map_values(|key: u64| (key, entries[key]))
}

/// Whether facts have not been kept too long.
pub open spec fn is_fresh(entry: Entry, ttl: Duration, now: Instant) -> bool {
    now.since(entry.1.cached_at).nanos < ttl.nanos
}

/// Tells which entries have not been kept too long.
pub open spec fn freshness(ttl: Duration, now: Instant) -> spec_fn(Entry) -> bool {
    |e: Entry| is_fresh(e, ttl, now)
}

/// Tells which entries are of other messages.
pub open spec fn other_than(key: u64) -> spec_fn(Entry) -> bool {
    |e: Entry| e.0 != key
}

/// The entries that have not been kept too long.
pub open spec fn fresh(entries: Seq<Entry>, ttl: Duration, now: Instant) -> Seq<Entry> {
    entries.filter(freshness(ttl, now))
}

/// The entries of other messages.
pub open spec fn without(entries: Seq<Entry>, key: u64) -> Seq<Entry> {
    entries.filter(other_than(key))
}

/// The last `n` entries.
pub open spec fn latest(entries: Seq<Entry>, n: nat) -> Seq<Entry> {
    if entries.len() <= n {
        entries
    } else {
        entries.skip(entries.len() - n)
    }
}

/// The entry of a message, if there is one.
pub open spec fn entry_of(entries: Seq<Entry>, key: u64) -> Option<VerifiedCachedFacts> {
    if table::map_of(entries).contains_key(key) {
        Some(table::map_of(entries)[key])
    } else {
        None
    }
}

/// What is known of an event, from the entries that are fresh.
pub open spec fn known(entries: Seq<Entry>, binding: EventBinding) -> Result<
    Option<VerifiedPkFacts>,
    PkResolveErrorView,
> {
    match entry_of(entries, binding.message_id) {
        None => Ok(None),
        Some(e) => match binding_problem(binding, e.response_binding) {
            Some(problem) => Err(problem),
            None => Ok(Some(e.facts)),
        },
    }
}

proof fn lemma_filter_take(entries: Seq<Entry>, pred: spec_fn(Entry) -> bool, i: int)
    requires
        0 <= i < entries.len(),
    ensures
        entries.take(i + 1).filter(pred) == if pred(entries[i]) {
            entries.take(i).filter(pred).push(entries[i])
        } else {
            entries.take(i).filter(pred)
        },
{
    reveal(Seq::filter);
    assert(entries.take(i + 1).drop_last() =~= entries.take(i));
    assert(entries.take(i + 1).last() == entries[i]);
}

proof fn lemma_filter_all(entries: Seq<Entry>, pred: spec_fn(Entry) -> bool)
    requires
        forall|i: int| 0 <= i < entries.len() ==> pred(#[trigger] entries[i]),
    ensures
        entries.filter(pred) == entries,
    decreases entries.len(),
{
    reveal(Seq::filter);
    if entries.len() > 0 {
        lemma_filter_all(entries.drop_last(), pred);
        assert(pred(entries[entries.len() - 1]));
        assert(entries.drop_last().push(entries.last()) =~= entries);
    }
}

proof fn lemma_filter_split(a: Seq<Entry>, b: Seq<Entry>, pred: spec_fn(Entry) -> bool)
    ensures
        (a + b).filter(pred) == a.filter(pred) + b.filter(pred),
    decreases b.len(),
{
    reveal(Seq::filter);
    if b.len() == 0 {
        assert(a + b =~= a);
        assert(b.filter(pred) =~= Seq::<Entry>::empty());
        assert(a.filter(pred) + b.filter(pred) =~= a.filter(pred));
    } else {
        lemma_filter_split(a, b.drop_last(), pred);
        assert((a + b).drop_last() =~= a + b.drop_last());
        assert((a + b).last() == b.last());
        assert((a + b).filter(pred) =~= a.filter(pred) + b.filter(pred));
    }
}

proof fn lemma_without(entries: Seq<Entry>, i: int)
    requires
        table::distinct(entries),
        0 <= i < entries.len(),
    ensures
        without(entries, entries[i].0) == entries.remove(i),
{
    let key = entries[i].0;
    let pred = other_than(key);
    let front = entries.take(i);
    let back = entries.skip(i + 1);
    let one = seq![entries[i]];
    assert(entries =~= front + (one + back));
    lemma_filter_split(front, one + back, pred);
    lemma_filter_split(one, back, pred);
    assert forall|k: int| 0 <= k < front.len() implies pred(#[trigger] front[k]) by {
        assert(front[k] == entries[k]);
    }
    assert forall|k: int| 0 <= k < back.len() implies pred(#[trigger] back[k]) by {
        assert(back[k] == entries[k + i + 1]);
    }
    lemma_filter_all(front, pred);
    lemma_filter_all(back, pred);
    assert(one.filter(pred) =~= Seq::<Entry>::empty()) by {
        reveal(Seq::filter);
        assert(one.drop_last() =~= Seq::<Entry>::empty());
        assert(one.last() == entries[i]);
        assert(Seq::<Entry>::empty().filter(pred) =~= Seq::<Entry>::empty());
    }
    assert(entries.remove(i) =~= front + back);
    assert(front + (Seq::<Entry>::empty() + back) =~= front + back);
}

proof fn lemma_removed_distinct(entries: Seq<Entry>, i: int)
    requires
        table::distinct(entries),
        0 <= i < entries.len(),
    ensures
        table::distinct(entries.remove(i)),
{
    let left = entries.remove(i);
    assert forall|a: int, b: int| 0 <= a < b < left.len() implies (#[trigger] left[a]).0 != (
    #[trigger] left[b]).0 by {
        assert(left[a] == entries[if a < i { a } else { a + 1 }]);
        assert(left[b] == entries[if b < i { b } else { b + 1 }]);
    }
}

impl VerifiedFactsCache {
    /// The entries, the oldest first.
    pub closed spec fn seq(&self) -> Seq<Entry> {
        listing(self.order@, self.entries@)
    }

    /// The messages in the order are those whose facts are kept, each once.
    pub closed spec fn in_step(&self) -> bool {
        &&& self.order@.no_duplicates()
        &&& forall|key: u64| self.entries@.contains_key(key) <==> #[trigger] self.order@.contains(
            key,
        )
    }

    /// How many entries there is room for.
    pub closed spec fn room(&self) -> usize {
        self.capacity
    }

    /// No message occurs twice, and there is room for all.
    pub open spec fn wf(&self) -> bool {
        self.in_step() && table::distinct(self.seq()) && self.seq().len() <= self.room()
    }

    /// Nothing is kept yet.
    pub fn new(capacity: usize) -> (r: Self)
        ensures
            r.wf(),
            r.seq() == Seq::<Entry>::empty(),
            r.room() == capacity,
    {
        let r: VerifiedFactsCache = VerifiedFactsCache {
            entries: HashMap::new(),
            order: VecDeque::new(),
            capacity,
        };
        assert(r.seq() =~= Seq::<Entry>::empty());
        r
    }

    /// How many entries are kept.
    pub fn len(&self) -> (r: usize)
        ensures
            r == self.seq().len(),
    {
        self.order.len()
    }

    /// Forgets the entry at a place.
    fn forget_at(&mut self, i: usize)
        requires
            old(self).in_step(),
            i < old(self).seq().len(),
        ensures
            final(self).in_step(),
            final(self).seq() == old(self).seq().remove(i as int),
            final(self).capacity == old(self).capacity,
    {
        let ghost order = self.order@;
        let ghost entries = self.entries@;
        if let Some(key) = self.order.remove(i) {
            let _ = self.entries.remove(&key);
            proof {
                let left = self.order@;
                assert forall|a: int, b: int| 0 <= a < left.len() && 0 <= b < left.len() && a
                    != b implies left[a] != left[b] by {
                    let x = if a < i { a } else { a + 1 };
                    let y = if b < i { b } else { b + 1 };
                    assert(left[a] == order[x] && left[b] == order[y]);
                }
                assert forall|k: int| 0 <= k < left.len() implies left[k] != key by {
                    let x = if k < i { k } else { k + 1 };
                    assert(left[k] == order[x]);
                }
                assert forall|other: u64| self.entries@.contains_key(other)
                    <==> #[trigger] left.contains(other) by {
                    if left.contains(other) {
                        let k = choose|k: int| 0 <= k < left.len() && left[k] == other;
                        assert(order.contains(order[if k < i { k } else { k + 1 }]));
                    }
                    if self.entries@.contains_key(other) {
                        assert(order.contains(other));
                        let k = choose|k: int| 0 <= k < order.len() && order[k] == other;
                        assert(left[if k < i { k } else { k - 1 }] == other);
                    }
                }
                assert(self.seq() =~= listing(order, entries).remove(i as int));
            }
        }
    }

    /// Where the entry of a message stands.
    fn place(&self, key: u64) -> (r: Option<usize>)
        requires
            self.in_step(),
        ensures
            match r {
                Some(i) => i < self.seq().len() && self.seq()[i as int].0 == key,
                None => forall|k: int|
                    0 <= k < self.seq().len() ==> (#[trigger] self.seq()[k]).0 != key,
            },
    {
        let mut i: usize = 0;
        while i < self.order.len()
            invariant
                i <= self.order@.len(),
                forall|k: int| 0 <= k < i ==> (#[trigger] self.seq()[k]).0 != key,
            decreases self.order@.len() - i,
        {
            assert(self.seq()[i as int].0 == self.order@[i as int]);
            if self.order[i] == key {
                return Some(i);
            }
            i = i + 1;
        }
        None
    }

    /// Keeps the entry of a message that has none, as the newest.
    fn keep(&mut self, key: u64, entry: VerifiedCachedFacts)
        requires
            old(self).in_step(),
            forall|k: int| 0 <= k < old(self).seq().len() ==> (#[trigger] old(self).seq()[k]).0 != key,
        ensures
            final(self).in_step(),
            final(self).seq() == old(self).seq().push((key, entry)),
            final(self).capacity == old(self).capacity,
    {
        let ghost order = self.order@;
        let ghost entries = self.entries@;
        proof {
            assert forall|k: int| 0 <= k < order.len() implies order[k] != key by {
                assert(self.seq()[k].0 == order[k]);
            }
        }
        self.order.push_back(key);
        self.entries.insert(key, entry);
        proof {
            let now = self.order@;
            assert forall|other: u64| self.entries@.contains_key(other)
                <==> #[trigger] now.contains(other) by {
                if now.contains(other) && other != key {
                    let k = choose|k: int| 0 <= k < now.len() && now[k] == other;
                    assert(order.contains(order[k]));
                }
                if self.entries@.contains_key(other) && other != key {
                    assert(order.contains(other));
                    let k = choose|k: int| 0 <= k < order.len() && order[k] == other;
                    assert(now[k] == other);
                }
                assert(now[order.len() as int] == key);
            }
            assert(self.seq() =~= listing(order, entries).push((key, entry)));
        }
    }

    /// The messages whose facts are kept, the oldest first.
    pub fn keys(&self) -> (r: Vec<u64>)
        ensures
            r@ == self.seq().map_values(|e: Entry| e.0),
    {
        let mut r: Vec<u64> = Vec::new();
        let mut i: usize = 0;
        while i < self.order.len()
            invariant
                i <= self.seq().len(),
                r@.len() == i,
                forall|k: int| 0 <= k < i ==> #[trigger] r@[k] == self.seq()[k].0,
            decreases self.seq().len() - i,
        {
            r.push(self.order[i]);
            i = i + 1;
        }
        assert(r@ =~= self.seq().map_values(|e: Entry| e.0));
        r
    }

    /// Forgets what has been kept too long.
    pub fn remove_expired(&mut self, ttl: Duration, now: Instant)
        requires
            old(self).wf(),
        ensures
            final(self).wf(),
            final(self).room() == old(self).room(),
            final(self).seq() == fresh(old(self).seq(), ttl, now),
    {
        let ghost all = self.seq();
        let ghost pred = freshness(ttl, now);
        let ghost mut done: int = 0;
        let mut i: usize = 0;
        assert(all.take(0) =~= Seq::<Entry>::empty());
        assert(all.take(0).filter(pred) =~= Seq::<Entry>::empty()) by {
            reveal(Seq::filter);
        }
        assert(all.skip(0) =~= all);
        assert(self.seq() =~= all.take(0).filter(pred) + all.skip(0));
        while i < self.order.len()
            invariant
                0 <= done <= all.len(),
                pred == freshness(ttl, now),
                i == all.take(done).filter(pred).len(),
                self.seq() == all.take(done).filter(pred) + all.skip(done),
                self.wf(),
                self.capacity == old(self).capacity,
            decreases self.seq().len() - i,
        {
            let ghost kept = all.take(done).filter(pred);
            assert(self.seq()[i as int] == all[done]);
            assert(all.skip(done).skip(1) =~= all.skip(done + 1));
            proof {
                lemma_filter_take(all, pred, done);
            }
            let key: u64 = self.order[i];
            assert(self.order@.contains(key));
            let kept_long: bool = match self.entries.get(&key) {
                Some(entry) => now.saturating_duration_since(entry.cached_at).nanos >= ttl.nanos,
                None => true,
            };
            if !kept_long {
                assert(pred(all[done]));
                assert(self.seq() =~= kept.push(all[done]) + all.skip(done + 1));
                i = i + 1;
            } else {
                assert(!pred(all[done]));
                let ghost had = self.seq();
                self.forget_at(i);
                proof {
                    lemma_removed_distinct(had, i as int);
                }
                assert(self.seq() =~= kept + all.skip(done + 1));
            }
            proof {
                done = done + 1;
            }
        }
        assert(all.skip(done).len() == 0);
        assert(all.take(done) =~= all);
        assert(self.seq() =~= fresh(all, ttl, now));
    }

    /// What is known of an event. Facts that were kept for another place are no answer.
    pub fn get(&mut self, binding: &EventBinding, ttl: Duration, now: Instant) -> (r: Result<
        Option<VerifiedPkFacts>,
        PkResolveError,
    >)
        requires
            old(self).wf(),
        ensures
            final(self).wf(),
            final(self).room() == old(self).room(),
            final(self).seq() == fresh(old(self).seq(), ttl, now),
            match r {
                Ok(f) => known(final(self).seq(), *binding) == Ok::<
                    Option<VerifiedPkFacts>,
                    PkResolveErrorView,
                >(f),
                Err(e) => known(final(self).seq(), *binding) == Err::<
                    Option<VerifiedPkFacts>,
                    PkResolveErrorView,
                >(e@),
            },
    {
        self.remove_expired(ttl, now);
        let key: u64 = binding.message_id;
        match self.entries.get(&key) {
            None => {
                assert(!self.order@.contains(key));
                assert forall|i: int| 0 <= i < self.seq().len() implies (#[trigger] self.seq()[i]).0
                    != key by {
                    assert(self.order@.contains(self.order@[i]));
                }
                Ok(None)
            },
            Some(entry) => {
                proof {
                    assert(self.order@.contains(key));
                    let i = choose|i: int| 0 <= i < self.order@.len() && self.order@[i] == key;
                    assert(self.seq()[i] == (key, *entry));
                    table::lemma_position(self.seq(), i);
                }
                match verify_response_binding(binding, &entry.response_binding) {
                    Ok(_) => Ok(Some(entry.facts)),
                    Err(e) => Err(e),
                }
            },
        }
    }

    /// Keeps facts, as the newest. Where there is no room, the oldest are forgotten.
    pub fn insert(
        &mut self,
        message_id: u64,
        facts: VerifiedPkFacts,
        response_binding: VerifiedResponseBinding,
        now: Instant,
    )
        requires
            old(self).wf(),
        ensures
            final(self).wf(),
            final(self).room() == old(self).room(),
            final(self).seq() == latest(
                without(old(self).seq(), message_id).push(
                    (message_id, VerifiedCachedFacts { facts, response_binding, cached_at: now }),
                ),
                old(self).room() as nat,
            ),
    {
        let ghost before = self.seq();
        match self.place(message_id) {
            Some(i) => {
                proof {
                    lemma_without(before, i as int);
                    lemma_removed_distinct(before, i as int);
                }
                self.forget_at(i);
            },
            None => {
                assert forall|k: int| 0 <= k < before.len() implies other_than(
                    message_id,
                )(#[trigger] before[k]) by {
                    assert(before[k].0 != message_id);
                }
                proof {
                    lemma_filter_all(before, other_than(message_id));
                }
            },
        }
        let ghost left = self.seq();
        proof {
            assert(left == without(before, message_id));
            assert forall|k: int| 0 <= k < left.len() implies (#[trigger] left[k]).0 != message_id by {
                lemma_filter_holds(before, other_than(message_id), k);
            }
        }
        self.keep(message_id, VerifiedCachedFacts { facts, response_binding, cached_at: now });
        let ghost all = self.seq();
        assert(all.skip(0) =~= all);
        let ghost mut gone: int = 0;
        while self.order.len() > self.capacity
            invariant
                self.in_step(),
                0 <= gone <= all.len(),
                self.seq() == all.skip(gone),
                gone > 0 ==> all.len() - gone >= self.capacity,
                table::distinct(self.seq()),
                self.capacity == old(self).capacity,
            decreases self.seq().len(),
        {
            let ghost had = self.seq();
            self.forget_at(0);
            proof {
                lemma_removed_distinct(had, 0);
            }
            assert(self.seq() =~= all.skip(gone + 1));
            proof {
                gone = gone + 1;
            }
        }
        assert(self.seq() =~= latest(all, self.capacity as nat));
    }
}

/// Facts that were just kept are given back to the event that they were kept for, until
/// they have been kept too long.
pub proof fn law_kept_facts_are_given_back(
    entries: Seq<Entry>,
    binding: EventBinding,
    facts: VerifiedPkFacts,
    cached_at: Instant,
    room: nat,
    ttl: Duration,
    now: Instant,
)
    requires
        table::distinct(entries),
        room > 0,
        now.since(cached_at).nanos < ttl.nanos,
    ensures
        ({
            let entry = VerifiedCachedFacts {
                facts,
                response_binding: place_of(binding),
                cached_at,
            };
            let after = latest(without(entries, binding.message_id).push((binding.message_id, entry)), room);
            known(fresh(after, ttl, now), binding) == Ok::<
                Option<VerifiedPkFacts>,
                PkResolveErrorView,
            >(Some(facts))
        }),
{
    let entry = VerifiedCachedFacts { facts, response_binding: place_of(binding), cached_at };
    let kept = without(entries, binding.message_id);
    let all = kept.push((binding.message_id, entry));
    let after = latest(all, room);
    let pred = freshness(ttl, now);
    let shown = fresh(after, ttl, now);
    lemma_filtered_distinct(entries, other_than(binding.message_id));
    assert forall|k: int| 0 <= k < kept.len() implies (#[trigger] kept[k]).0 != binding.message_id by {
        lemma_filter_holds(entries, other_than(binding.message_id), k);
    }
    assert(table::distinct(all));
    assert(after.last() == (binding.message_id, entry));
    assert(table::distinct(after)) by {
        assert forall|i: int, j: int| 0 <= i < j < after.len() implies (#[trigger] after[i]).0 != (
        #[trigger] after[j]).0 by {
            let d = all.len() - after.len();
            assert(after[i] == all[i + d] && after[j] == all[j + d]);
        }
    }
    reveal(Seq::filter);
    assert(pred(after.last()));
    assert(shown.last() == after.last());
    lemma_filtered_distinct(after, pred);
    table::lemma_position(shown, shown.len() - 1);
}

proof fn lemma_filter_holds(entries: Seq<Entry>, pred: spec_fn(Entry) -> bool, k: int)
    requires
        0 <= k < entries.filter(pred).len(),
    ensures
        pred(entries.filter(pred)[k]),
        entries.contains(entries.filter(pred)[k]),
    decreases entries.len(),
{
    reveal(Seq::filter);
    if entries.len() > 0 {
        let front = entries.drop_last();
        if k < front.filter(pred).len() {
            lemma_filter_holds(front, pred, k);
            let x = front.filter(pred)[k];
            let i = choose|i: int| 0 <= i < front.len() && front[i] == x;
            assert(entries[i] == x);
            assert(entries.filter(pred)[k] == x);
        } else {
            assert(entries.filter(pred)[k] == entries.last());
            assert(entries[entries.len() - 1] == entries.last());
        }
    }
}

proof fn lemma_filtered_distinct(entries: Seq<Entry>, pred: spec_fn(Entry) -> bool)
    requires
        table::distinct(entries),
    ensures
        table::distinct(entries.filter(pred)),
    decreases entries.len(),
{
    reveal(Seq::filter);
    if entries.len() > 0 {
        let front = entries.drop_last();
        assert(table::distinct(front)) by {
            assert forall|i: int, j: int| 0 <= i < j < front.len() implies (#[trigger] front[i]).0
                != (#[trigger] front[j]).0 by {
                assert(front[i] == entries[i] && front[j] == entries[j]);
            }
        }
        lemma_filtered_distinct(front, pred);
        let f = front.filter(pred);
        if pred(entries.last()) {
            assert forall|i: int, j: int| 0 <= i < j < f.push(entries.last()).len() implies (
            #[trigger] f.push(entries.last())[i]).0 != (#[trigger] f.push(entries.last())[j]).0 by {
                lemma_filter_holds(front, pred, i);
                if j == f.len() {
                    let a = choose|a: int| 0 <= a < front.len() && front[a] == f[i];
                    assert(entries[a] == front[a]);
                    assert(entries[entries.len() - 1] == entries.last());
                } else {
                    assert(f[i].0 != f[j].0);
                }
            }
        }
    }
}

/// Kept facts are given to no event in another channel or guild.
pub proof fn law_kept_facts_stay_in_their_place(entries: Seq<Entry>, binding: EventBinding)
    ensures
        known(entries, binding) matches Ok(Some(facts)) ==> (exists|entry: VerifiedCachedFacts| #[trigger]
            entry_of(entries, binding.message_id) == Some(entry) && entry.facts == facts
                && entry.response_binding == place_of(binding)),
{
    if known(entries, binding) matches Ok(Some(facts)) {
        let entry = entry_of(entries, binding.message_id)->Some_0;
        assert(entry_of(entries, binding.message_id) == Some(entry));
    }
}

// ── The resolver ────────────────────────────────────────────────────────────

/// What resolves identities: its settings and what it keeps.
pub struct PkResolver {
    config: PkResolverConfig,
    cache: VerifiedFactsCache,
}

impl PkResolver {
    /// The settings.
    pub closed spec fn settings(&self) -> PkResolverConfig {
        self.config
    }

    /// The facts that are kept, the oldest first.
    pub closed spec fn kept(&self) -> Seq<Entry> {
        self.cache.seq()
    }

    /// The settings are in order, and what is kept is.
    pub closed spec fn wf(&self) -> bool {
        self.cache.wf() && self.cache.room() == CACHE_CAP && config_problem(self.config) is None
    }

    /// A resolver that keeps nothing yet, where the settings are in order.
    pub fn new(config: PkResolverConfig) -> (r: Result<PkResolver, String>)
        ensures
            match r {
                Ok(x) => config_problem(config) is None && x.wf() && x.settings() == config
                    && x.kept() == Seq::<Entry>::empty(),
                Err(e) => config_problem(config) == Some(e@),
            },
    {
        if config.max_concurrent == 0 {
            return Err(text::owned("max_concurrent must be > 0"));
        }
        if config.max_retries > 10 {
            return Err(text::owned("max_retries must be <= 10"));
        }
        if config.request_timeout.nanos > 60_000_000_000 {
            return Err(text::owned("request_timeout must be <= 60s"));
        }
        if config.cache_ttl.nanos > 3_600_000_000_000 {
            return Err(text::owned("cache_ttl must be <= 1 hour"));
        }
        Ok(PkResolver { config, cache: VerifiedFactsCache::new(CACHE_CAP) })
    }

    /// A resolver with the default settings.
    pub fn with_defaults() -> (r: PkResolver)
        ensures
            r.wf(),
            r.settings().request_timeout.nanos == 5_000_000_000,
            r.settings().max_concurrent == 5,
            r.settings().max_retries == 3,
            r.settings().cache_ttl.nanos == 300_000_000_000,
            r.kept() == Seq::<Entry>::empty(),
    {
        let config: PkResolverConfig = PkResolverConfig::default();
        PkResolver { config, cache: VerifiedFactsCache::new(CACHE_CAP) }
    }

    /// The settings.
    pub fn config(&self) -> (r: PkResolverConfig)
        ensures
            r == self.settings(),
    {
        self.config
    }

    /// What is known of an event without asking.
    pub fn lookup(&mut self, binding: &EventBinding, now: Instant) -> (r: Result<
        Option<VerifiedPkFacts>,
        PkResolveError,
    >)
        requires
            old(self).wf(),
        ensures
            final(self).wf(),
            final(self).settings() == old(self).settings(),
            final(self).kept() == fresh(old(self).kept(), old(self).settings().cache_ttl, now),
            match r {
                Ok(f) => known(final(self).kept(), *binding) == Ok::<
                    Option<VerifiedPkFacts>,
                    PkResolveErrorView,
                >(f),
                Err(e) => known(final(self).kept(), *binding) == Err::<
                    Option<VerifiedPkFacts>,
                    PkResolveErrorView,
                >(e@),
            },
    {
        self.cache.get(binding, self.config.cache_ttl, now)
    }

    /// Takes an answer for an event: its facts, which are kept, or what is wrong with it.
    pub fn answered(
        &mut self,
        binding: &EventBinding,
        response: &PkMessageResponse,
        now: Instant,
    ) -> (r: Result<VerifiedPkFacts, PkResolveError>)
        requires
            old(self).wf(),
        ensures
            final(self).wf(),
            final(self).settings() == old(self).settings(),
            match r {
                Ok(facts) => {
                    &&& response_facts(*binding, *response) == Ok::<
                        VerifiedPkFacts,
                        PkResolveErrorView,
                    >(facts)
                    &&& final(self).kept() == latest(
                        without(old(self).kept(), binding.message_id).push(
                            (
                                binding.message_id,
                                VerifiedCachedFacts {
                                    facts,
                                    response_binding: place_of(*binding),
                                    cached_at: now,
                                },
                            ),
                        ),
                        CACHE_CAP as nat,
                    )
                },
                Err(e) => {
                    &&& response_facts(*binding, *response) == Err::<
                        VerifiedPkFacts,
                        PkResolveErrorView,
                    >(e@)
                    &&& final(self).kept() == old(self).kept()
                },
            },
    {
        match verified_facts_from_response(binding, response) {
            Ok((facts, place)) => {
                self.cache.insert(binding.message_id, facts, place, now);
                Ok(facts)
            },
            Err(e) => Err(e),
        }
    }
}

// ── Asking ──────────────────────────────────────────────────────────────────

/// Where a message is asked for.
pub fn message_url(origin: &str, message_id: u64) -> (r: String)
    ensures
        r@ == origin@ + "/v2/messages/"@ + text::decimal(message_id as nat),
{
    let mut r: String = text::owned(origin);
    r.append("/v2/messages/");
    r.append(text::decimal_string(message_id).as_str());
    r
}

/// What to do after an answer's status is known.
#[derive(Debug, PartialEq, Eq)]
pub enum QueryStep {
    /// Read the answer.
    Read,
    /// Wait, then ask again.
    Wait,
    /// Give up.
    Fail(PkResolveError),
}

/// What to do after the answer to attempt number `attempt`, counted from zero, with
/// `shown` the status as it is written.
pub open spec fn step_after(status: u16, shown: Seq<char>, attempt: u32, max_retries: u32) -> Result<
    bool,
    PkResolveErrorView,
> {
    if 200 <= status < 300 {
        Ok(true)
    } else if status == 404 {
        Err(PkResolveErrorView::NotFound)
    } else if status != 429 {
        Err(PkResolveErrorView::HttpError("unexpected status "@ + shown))
    } else if attempt >= max_retries {
        Err(PkResolveErrorView::RateLimited)
    } else {
        Ok(false)
    }
}

/// Decides what to do after the answer to an attempt.
pub fn query_step(status: u16, shown: &str, attempt: u32, max_retries: u32) -> (r: QueryStep)
    ensures
        match r {
            QueryStep::Read => step_after(status, shown@, attempt, max_retries) == Ok::<
                bool,
                PkResolveErrorView,
            >(true),
            QueryStep::Wait => step_after(status, shown@, attempt, max_retries) == Ok::<
                bool,
                PkResolveErrorView,
            >(false) && attempt < max_retries,
            QueryStep::Fail(e) => step_after(status, shown@, attempt, max_retries) == Err::<
                bool,
                PkResolveErrorView,
            >(e@),
        },
{
    if 200 <= status && status < 300 {
        QueryStep::Read
    } else if status == 404 {
        QueryStep::Fail(PkResolveError::NotFound)
    } else if status != 429 {
        let mut m: String = text::owned("unexpected status ");
        m.append(shown);
        QueryStep::Fail(PkResolveError::HttpError(m))
    } else if attempt >= max_retries {
        QueryStep::Fail(PkResolveError::RateLimited)
    } else {
        QueryStep::Wait
    }
}

/// Two to the power of `n`.
pub open spec fn doubled(n: nat) -> nat
    decreases n,
{
    if n == 0 {
        1
    } else {
        2 * doubled((n - 1) as nat)
    }
}

proof fn lemma_doubled_grows(a: nat, b: nat)
    requires
        a <= b,
    ensures
        doubled(a) <= doubled(b),
    decreases b,
{
    if a < b {
        lemma_doubled_grows(a, (b - 1) as nat);
    }
}

/// How long to wait after an attempt where the answer does not say: a tenth of a second,
/// doubled with every attempt, half a minute at most.
pub fn backoff(attempt: u32) -> (r: Duration)
    ensures
        r.whole_millis() == if 100 * doubled(attempt as nat) < MAX_BACKOFF_MILLIS {
            100 * doubled(attempt as nat)
        } else {
            MAX_BACKOFF_MILLIS as nat
        },
        r.nanos % 1_000_000 == 0,
{
    let mut millis: u64 = 100;
    let mut i: u32 = 0;
    while i < attempt && millis < MAX_BACKOFF_MILLIS
        invariant
            i <= attempt,
            millis == 100 * doubled(i as nat),
            millis < 2 * MAX_BACKOFF_MILLIS,
        decreases attempt - i,
    {
        i = i + 1;
        millis = millis * 2;
    }
    proof {
        lemma_doubled_grows(i as nat, attempt as nat);
    }
    if millis > MAX_BACKOFF_MILLIS {
        millis = MAX_BACKOFF_MILLIS;
    }
    Duration::from_millis(millis)
}

/// An answer that is being read, and must not grow too large.
pub struct ResponseBody {
    pub bytes: Vec<u8>,
}

impl ResponseBody {
    /// The answer is not too large.
    pub open spec fn wf(&self) -> bool {
        self.bytes@.len() <= MAX_VERIFIED_RESPONSE_BYTES
    }

    /// Nothing has been read.
    pub fn start() -> (r: Self)
        ensures
            r.wf(),
            r.bytes@ == Seq::<u8>::empty(),
    {
        ResponseBody { bytes: Vec::new() }
    }

    /// Takes a further part of the answer, unless it gets too large.
    pub fn add_chunk(&mut self, chunk: &Vec<u8>) -> (r: Result<(), PkResolveError>)
        requires
            old(self).wf(),
        ensures
            final(self).wf(),
            match r {
                Ok(_) => final(self).bytes@ == old(self).bytes@ + chunk@,
                Err(e) => e@ == PkResolveErrorView::InvalidResponse("response body exceeds 64 KiB"@)
                    && final(self).bytes == old(self).bytes && old(self).bytes@.len() + chunk@.len()
                    > MAX_VERIFIED_RESPONSE_BYTES,
            },
    {
        if chunk.len() > MAX_VERIFIED_RESPONSE_BYTES - self.bytes.len() {
            return Err(
                PkResolveError::InvalidResponse(text::owned("response body exceeds 64 KiB")),
            );
        }
        let ghost before = self.bytes@;
        let mut i: usize = 0;
        assert(before + chunk@.take(0) =~= before);
        while i < chunk.len()
            invariant
                i <= chunk@.len(),
                before.len() + chunk@.len() <= MAX_VERIFIED_RESPONSE_BYTES,
                self.bytes@ == before + chunk@.take(i as int),
            decreases chunk@.len() - i,
        {
            self.bytes.push(chunk[i]);
            assert(self.bytes@ =~= before + chunk@.take(i + 1));
            i = i + 1;
        }
        assert(chunk@.take(chunk@.len() as int) =~= chunk@);
        Ok(())
    }
}

// ── What holds of facts ─────────────────────────────────────────────────────

/// What PluralKit says of a message is believed exactly where it speaks of that message,
/// in that channel and that guild, or in none for a direct message; where it names who
/// sent it; and where the names of the system and the member can be read.
pub proof fn law_answers_are_believed_in_their_place(
    binding: EventBinding,
    response: PkMessageResponse,
    system: Result<Option<u128>, PkResolveErrorView>,
    member: Result<Option<u128>, PkResolveErrorView>,
)
    ensures
        facts_of(binding, response, system, member) is Ok <==> {
            &&& response.id == binding.message_id
            &&& response.channel == binding.channel_id
            &&& match binding.context {
                VerifiedBindingContext::Guild(guild) => response.guild == guild,
                VerifiedBindingContext::DirectMessage => response.guild == 0,
            }
            &&& response.sender != 0
            &&& system is Ok
            &&& member is Ok
        },
        facts_of(binding, response, system, member) matches Ok(facts) ==> (facts matches VerifiedPkFacts::Represented {
            discord_user_id,
            system_id,
            member_id,
        } && discord_user_id == response.sender && system->Ok_0 == system_id && member->Ok_0
            == member_id),
        response.id != binding.message_id ==> (facts_of(binding, response, system, member) matches Err(
            e,
        ) && e == (PkResolveErrorView::BindingMismatch {
            dimension: "message_id"@,
            expected: binding.message_id,
            actual: response.id,
        })),
{
}

/// Facts that were kept hold for an event in the same channel and the same guild, and for
/// no other.
pub proof fn law_facts_hold_in_their_place(binding: EventBinding, place: VerifiedResponseBinding)
    ensures
        binding_problem(binding, place) is None <==> place.channel_id == binding.channel_id
            && place.context == binding.context,
        place_of(binding).channel_id == binding.channel_id,
        place_of(binding).context == binding.context,
        binding_problem(binding, place_of(binding)) is None,
{
}

/// What is known of an event is what was kept of its message. It is an error where that
/// was kept for another place, and nothing where nothing was kept.
pub proof fn law_known_facts_were_kept(entries: Seq<Entry>, binding: EventBinding)
    ensures
        known(entries, binding) == Ok::<Option<VerifiedPkFacts>, PkResolveErrorView>(None)
            <==> entry_of(entries, binding.message_id) is None,
        entry_of(entries, binding.message_id) matches Some(e) ==> (known(entries, binding) is Ok
            <==> e.response_binding.channel_id == binding.channel_id && e.response_binding.context
            == binding.context),
        entry_of(entries, binding.message_id) matches Some(e) ==> (known(entries, binding) is Ok
            ==> known(entries, binding)->Ok_0 == Some(e.facts)),
        entry_of(entries, binding.message_id) is None <==> forall|i: int|
            0 <= i < entries.len() ==> (#[trigger] entries[i]).0 != binding.message_id,
{
    let key = binding.message_id;
    if forall|i: int| 0 <= i < entries.len() ==> (#[trigger] entries[i]).0 != key {
        if table::present(entries, key) {
            let i = choose|i: int|
                0 <= i < entries.len() && table::Key::id(&(#[trigger] entries[i]).0) == key;
            assert(entries[i].0 != key);
        }
    } else {
        let i = choose|i: int| 0 <= i < entries.len() && !((#[trigger] entries[i]).0 != key);
        assert(table::Key::id(&entries[i].0) == key);
        assert(table::present(entries, key));
    }
}

/// What was kept is given out until its time is over, and not from then on; nothing else
/// is given out.
pub proof fn law_kept_facts_grow_stale(
    entries: Seq<Entry>,
    ttl: Duration,
    now: Instant,
    entry: Entry,
)
    ensures
        fresh(entries, ttl, now).contains(entry) <==> entries.contains(entry) && (
        now.nanos < entry.1.cached_at.nanos && ttl.nanos > 0 || now.nanos
            >= entry.1.cached_at.nanos && now.nanos - entry.1.cached_at.nanos < ttl.nanos),
{
    lemma_filter_is(entries, freshness(ttl, now), entry);
}

/// To forget a message is to forget that message and no other.
pub proof fn law_one_message_is_forgotten(entries: Seq<Entry>, key: u64, entry: Entry)
    ensures
        without(entries, key).contains(entry) <==> entries.contains(entry) && entry.0 != key,
{
    lemma_filter_is(entries, other_than(key), entry);
}

proof fn lemma_filter_is(entries: Seq<Entry>, pred: spec_fn(Entry) -> bool, entry: Entry)
    ensures
        entries.filter(pred).contains(entry) <==> entries.contains(entry) && pred(entry),
    decreases entries.len(),
{
    reveal(Seq::filter);
    if entries.len() > 0 {
        let front = entries.drop_last();
        let last = entries.last();
        lemma_filter_is(front, pred, entry);
        let before = front.filter(pred);
        let after = entries.filter(pred);
        assert(after == if pred(last) {
            before.push(last)
        } else {
            before
        });
        if before.contains(entry) {
            let i = choose|i: int| 0 <= i < before.len() && before[i] == entry;
            assert(after[i] == entry);
        }
        if after.contains(entry) {
            let i = choose|i: int| 0 <= i < after.len() && after[i] == entry;
            if i < before.len() {
                assert(before[i] == entry);
            }
        }
        if pred(last) {
            assert(after[before.len() as int] == last);
        }
        if front.contains(entry) {
            let i = choose|i: int| 0 <= i < front.len() && front[i] == entry;
            assert(entries[i] == entry);
        }
        if entries.contains(entry) {
            let i = choose|i: int| 0 <= i < entries.len() && entries[i] == entry;
            if i < front.len() {
                assert(front[i] == entry);
            }
        }
        assert(entries[entries.len() - 1] == last);
    }
}

/// Where there is no more room, the oldest go and the newest stay, in their order.
pub proof fn law_the_oldest_make_room(entries: Seq<Entry>, n: nat)
    ensures
        latest(entries, n).len() == if entries.len() <= n {
            entries.len()
        } else {
            n
        },
        forall|i: int|
            0 <= i < latest(entries, n).len() ==> #[trigger] latest(entries, n)[i] == entries[i
                + entries.len() - latest(entries, n).len()],
{
}

/// A resolver is made only with settings that can be kept to: at least one request at a
/// time, at most ten retries, a minute for an answer and an hour for facts.
pub proof fn law_settings_are_bounded(config: PkResolverConfig)
    ensures
        config_problem(config) is None <==> config.max_concurrent >= 1 && config.max_retries <= 10
            && config.request_timeout.nanos <= 60_000_000_000 && config.cache_ttl.nanos
            <= 3_600_000_000_000,
        CACHE_CAP == 500,
        MAX_VERIFIED_RESPONSE_BYTES == 64 * 1024,
        MAX_BACKOFF_MILLIS == 30_000,
{
}

/// An answer is read where PluralKit gives one. It is waited for where there were too many
/// requests and retries are left. Anything else ends the question.
pub proof fn law_only_crowded_questions_are_repeated(
    status: u16,
    shown: Seq<char>,
    attempt: u32,
    max_retries: u32,
)
    ensures
        step_after(status, shown, attempt, max_retries) == Ok::<bool, PkResolveErrorView>(true)
            <==> 200 <= status <= 299,
        step_after(status, shown, attempt, max_retries) == Ok::<bool, PkResolveErrorView>(false)
            <==> status == 429 && attempt < max_retries,
        step_after(status, shown, attempt, max_retries) == Err::<bool, PkResolveErrorView>(
            PkResolveErrorView::NotFound,
        ) <==> status == 404,
        step_after(status, shown, attempt, max_retries) == Err::<bool, PkResolveErrorView>(
            PkResolveErrorView::RateLimited,
        ) <==> status == 429 && attempt >= max_retries,
{
}

/// Each wait is twice as long as the one before.
pub proof fn law_waits_double(n: nat)
    ensures
        doubled(0) == 1,
        doubled(n + 1) == 2 * doubled(n),
{
}

/// An identifier is taken where it is a UUID in full: 32 hexadecimal digits in five groups,
/// with hyphens between them.
pub proof fn law_identifiers_are_whole(s: Seq<char>)
    ensures
        pk_uuid_problem(s) is None <==> s.len() == 36 && s[8] == '-' && s[13] == '-' && s[18] == '-'
            && s[23] == '-' && forall|i: int|
            0 <= i < 36 && i != 8 && i != 13 && i != 18 && i != 23 ==> text::is_hex_digit(
                #[trigger] s[i],
            ),
{
    if pk_uuid_problem(s) is None {
        assert(is_uuid(s));
        assert(s[8] == '-' && s[13] == '-' && s[18] == '-' && s[23] == '-');
    }
}

/// The system and the member of an answer are its own: each is the one that stands under
/// its name, and none where none stands there.
pub proof fn law_systems_and_members_are_told_apart(
    binding: EventBinding,
    response: PkMessageResponse,
    facts: VerifiedPkFacts,
)
    requires
        response_facts(binding, response) == Ok::<VerifiedPkFacts, PkResolveErrorView>(facts),
    ensures
        facts matches VerifiedPkFacts::Represented { discord_user_id, system_id, member_id } && {
            &&& discord_user_id == response.sender
            &&& response.system is None <==> system_id is None
            &&& response.member is None <==> member_id is None
            &&& response.system matches Some(s) ==> uuid_of(s@) == Ok::<u128, Seq<char>>(system_id->0)
            &&& response.member matches Some(s) ==> uuid_of(s@) == Ok::<u128, Seq<char>>(member_id->0)
        },
{
}

/// An identifier that was read is taken as it is; one that could not be read is an error,
/// and one that is not there is none.
pub proof fn law_unreadable_identifiers_are_errors(
    read: Option<Result<u128, String>>,
    what: Seq<char>,
)
    ensures
        read is None ==> field_result(read, what) == Ok::<Option<u128>, PkResolveErrorView>(None),
        read matches Some(Ok(bits)) ==> field_result(read, what) == Ok::<
            Option<u128>,
            PkResolveErrorView,
        >(Some(bits)),
        read matches Some(Err(e)) ==> field_result(read, what) == Err::<
            Option<u128>,
            PkResolveErrorView,
        >(PkResolveErrorView::InvalidResponse(what + e@)),
{
}

/// Later attempts wait no less long than earlier ones, and none more than half a minute.
pub proof fn law_waits_grow(a: u32, b: u32, first: Duration, second: Duration)
    requires
        a <= b,
        call_ensures(backoff, (a,), first),
        call_ensures(backoff, (b,), second),
    ensures
        100 <= first.whole_millis() <= second.whole_millis() <= 30_000,
        a == 0 ==> first.whole_millis() == 100,
        b == a + 1 && first.whole_millis() < 15_000 ==> second.whole_millis() == 2
            * first.whole_millis(),
{
    lemma_doubled_grows(a as nat, b as nat);
    lemma_doubled_grows(0, a as nat);
}

} // verus!
