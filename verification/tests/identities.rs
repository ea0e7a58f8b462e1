use dione::clock::{Duration, Instant};
use dione::nameplates::{
    entries_of, resolve_display_name, Lookup, Nameplate, NameplateProvider,
    DEFAULT_NAMEPLATES_URL,
};
use dione::pluralkit::{
    backoff, facts_from_parts, message_url, query_step, transport_failure,
    verified_facts_from_response, EventBinding, PkMessageResponse, PkResolveError, PkResolver,
    PkResolverConfig, PkUuid, QueryStep, ResponseBody, VerifiedBindingContext,
    VerifiedFactsCache, VerifiedPkFacts, VerifiedResponseBinding, MAX_VERIFIED_RESPONSE_BYTES,
    OFFICIAL_PK_ORIGIN,
};
use dione::pronoundb::{
    english_codes, finish_lookup, settle_lookup, Answer, BoundedBody, PronounCache, PronounDbRecord,
    PronounProviderError, PronounSelection, CACHE_CAPACITY, LOOKUP_URL, MAX_CONCURRENT_LOOKUPS,
    MAX_RESPONSE_BYTES,
};

const SYSTEM: &str = "a0000001-0000-0000-0000-000000000001";
const MEMBER: &str = "b0000001-0000-0000-0000-000000000001";

fn start() -> Instant {
    Instant { nanos: 1_000_000_000 }
}

fn after(secs: u64) -> Instant {
    start().checked_add(Duration::from_secs(secs)).unwrap()
}

// ── PluralKit ───────────────────────────────────────────────────────────────

#[test]
fn test_default_config() {
    let config = PkResolverConfig::default();
    assert_eq!(config.request_timeout, Duration::from_secs(5));
    assert_eq!(config.max_concurrent, 5);
    assert_eq!(config.max_retries, 3);
    assert_eq!(config.cache_ttl, Duration::from_secs(300));
}

#[test]
fn verified_origin_is_fixed_to_official_https_endpoint() {
    assert_eq!(OFFICIAL_PK_ORIGIN, "https://api.pluralkit.me");
    assert!(OFFICIAL_PK_ORIGIN.starts_with("https://"));
    assert_eq!(
        message_url(OFFICIAL_PK_ORIGIN, 5100),
        "https://api.pluralkit.me/v2/messages/5100"
    );
}

fn guild_binding(message_id: u64) -> EventBinding {
    EventBinding {
        message_id,
        channel_id: 500,
        context: VerifiedBindingContext::Guild(1),
    }
}

fn represented_facts(sender: u64) -> VerifiedPkFacts {
    VerifiedPkFacts::Represented {
        discord_user_id: sender,
        system_id: Some(1),
        member_id: Some(2),
    }
}

fn place(binding: EventBinding) -> VerifiedResponseBinding {
    VerifiedResponseBinding {
        channel_id: binding.channel_id,
        context: binding.context,
    }
}

fn response(id: u64, sender: u64, channel: u64, guild: u64) -> PkMessageResponse {
    PkMessageResponse {
        id,
        sender,
        channel,
        guild,
        system: Some(SYSTEM.into()),
        member: Some(MEMBER.into()),
    }
}

fn bare(id: u64, sender: u64, channel: u64, guild: u64) -> PkMessageResponse {
    PkMessageResponse {
        system: None,
        member: None,
        ..response(id, sender, channel, guild)
    }
}

fn resolver() -> PkResolver {
    PkResolver::new(PkResolverConfig {
        request_timeout: Duration::from_secs(1),
        max_concurrent: 2,
        max_retries: 2,
        cache_ttl: Duration::from_secs(60),
    })
    .unwrap_or_else(|e| panic!("{e}"))
}

#[test]
fn verified_resolution_returns_typed_facts_and_rejects_cached_binding_mismatch() {
    let mut resolver = resolver();
    let binding = guild_binding(5100);
    assert_eq!(resolver.lookup(&binding, start()), Ok(None));
    let facts = resolver
        .answered(&binding, &response(5100, 42, 500, 1), start())
        .expect("represented facts");
    assert_eq!(
        facts,
        VerifiedPkFacts::Represented {
            discord_user_id: 42,
            system_id: Some(0xa0000001_0000_0000_0000_000000000001),
            member_id: Some(0xb0000001_0000_0000_0000_000000000001),
        }
    );
    assert_eq!(resolver.lookup(&binding, after(59)), Ok(Some(facts)));
    let changed_channel = EventBinding {
        channel_id: 501,
        ..binding
    };
    assert!(matches!(
        resolver.lookup(&changed_channel, after(59)),
        Err(PkResolveError::BindingMismatch {
            dimension: "channel_id",
            ..
        })
    ));
    assert_eq!(resolver.lookup(&binding, after(60)), Ok(None));
}

#[test]
fn verified_resolution_does_not_treat_404_as_app_only() {
    assert_eq!(
        query_step(404, "404 Not Found", 0, 2),
        QueryStep::Fail(PkResolveError::NotFound)
    );
}

#[test]
fn verified_resolution_exhausts_429_retries_as_rate_limited() {
    let step = |attempt| query_step(429, "429 Too Many Requests", attempt, 2);
    assert_eq!(step(0), QueryStep::Wait);
    assert_eq!(step(1), QueryStep::Wait);
    assert_eq!(step(2), QueryStep::Fail(PkResolveError::RateLimited));
}

#[test]
fn other_statuses_are_read_or_reported() {
    assert_eq!(query_step(200, "200 OK", 0, 2), QueryStep::Read);
    assert_eq!(
        query_step(500, "500 Internal Server Error", 0, 2),
        QueryStep::Fail(PkResolveError::HttpError(
            "unexpected status 500 Internal Server Error".into()
        ))
    );
}

#[test]
fn verified_response_rejects_each_mismatched_binding_coordinate() {
    let binding = guild_binding(5108);
    let cases = [
        (5109, 500, 1, "message_id"),
        (5108, 501, 1, "channel_id"),
        (5108, 500, 2, "guild_id"),
    ];
    for (message_id, channel_id, guild_id, expected_dimension) in cases {
        assert!(matches!(
            verified_facts_from_response(&binding, &bare(message_id, 42, channel_id, guild_id)),
            Err(PkResolveError::BindingMismatch { dimension, .. })
                if dimension == expected_dimension
        ));
    }
}

#[test]
fn verified_response_enforces_nonzero_sender_and_dm_context() {
    let direct_message = EventBinding {
        message_id: 5102,
        channel_id: 500,
        context: VerifiedBindingContext::DirectMessage,
    };
    assert!(matches!(
        verified_facts_from_response(&direct_message, &bare(5102, 42, 500, 0)),
        Ok((
            VerifiedPkFacts::Represented { .. },
            VerifiedResponseBinding {
                context: VerifiedBindingContext::DirectMessage,
                ..
            }
        ))
    ));
    assert!(matches!(
        verified_facts_from_response(&direct_message, &bare(5102, 0, 500, 0)),
        Err(PkResolveError::InvalidResponse(_))
    ));
    assert!(matches!(
        verified_facts_from_response(&direct_message, &bare(5102, 42, 500, 1)),
        Err(PkResolveError::BindingMismatch {
            dimension: "guild_id",
            expected: 0,
            actual: 1,
        })
    ));
}

#[test]
fn unreadable_uuids_are_named_in_the_failure() {
    let binding = guild_binding(1);
    let mut answer = response(1, 42, 500, 1);
    answer.member = Some("{}".into());
    match verified_facts_from_response(&binding, &answer) {
        Err(e) => assert_eq!(
            e.to_string(),
            "PK API invalid response: member UUID: invalid group count: expected 5, found 1"
        ),
        Ok(_) => panic!("expected an error"),
    }
    let parts = facts_from_parts(&binding, &answer, Some(Err("bad".into())), None);
    assert_eq!(
        parts,
        Err(PkResolveError::InvalidResponse("system UUID: bad".into()))
    );
}

#[test]
fn verified_cache_expiry_is_physical() {
    let mut cache = VerifiedFactsCache::new(2);
    let first = guild_binding(5200);
    let second = guild_binding(5201);
    let third = guild_binding(5202);
    for (binding, sender) in [(first, 40), (second, 41), (first, 42), (third, 43)] {
        let facts = if binding.message_id == second.message_id {
            VerifiedPkFacts::AppOnly
        } else {
            represented_facts(sender)
        };
        cache.insert(binding.message_id, facts, place(binding), start());
    }
    assert_eq!(cache.keys(), vec![5200, 5202]);

    cache.remove_expired(Duration::from_secs(1), after(2));
    assert_eq!(cache.len(), 0);
    assert_eq!(
        cache.get(&first, Duration::from_secs(1), after(2)),
        Ok(None)
    );
}

#[test]
fn cached_messages_are_distinct_and_bounded_under_refreshes() {
    for capacity in 0..8 {
        let mut cache = VerifiedFactsCache::new(capacity);
        let mut expected: Vec<u64> = vec![];
        for index in 0..120u64 {
            let id = 1 + (index * 37 + index * index) % 49;
            cache.insert(
                id,
                represented_facts(index % 100 + 1),
                place(guild_binding(id)),
                start(),
            );
            expected.retain(|k| *k != id);
            expected.push(id);
            while expected.len() > capacity {
                expected.remove(0);
            }
            assert_eq!(cache.keys(), expected);
        }
    }
}

#[test]
fn crossed_answers_publish_nothing() {
    let mut resolver = resolver();
    let (first, second) = (guild_binding(10), guild_binding(20));
    assert!(matches!(
        resolver.answered(&first, &response(20, 7, 500, 1), start()),
        Err(PkResolveError::BindingMismatch { .. })
    ));
    assert!(matches!(
        resolver.answered(&second, &response(10, 6, 500, 1), start()),
        Err(PkResolveError::BindingMismatch { .. })
    ));
    assert_eq!(resolver.lookup(&first, start()), Ok(None));
    assert_eq!(resolver.lookup(&second, start()), Ok(None));
}

fn refused(config: PkResolverConfig) -> String {
    match PkResolver::new(config) {
        Ok(_) => panic!("expected a refusal"),
        Err(e) => e,
    }
}

#[test]
fn test_config_zero_concurrent_rejected() {
    assert_eq!(
        refused(PkResolverConfig {
            max_concurrent: 0,
            ..PkResolverConfig::default()
        }),
        "max_concurrent must be > 0"
    );
}

#[test]
fn test_config_excessive_retries_rejected() {
    assert_eq!(
        refused(PkResolverConfig {
            max_retries: 11,
            ..PkResolverConfig::default()
        }),
        "max_retries must be <= 10"
    );
}

#[test]
fn long_timeouts_and_lifetimes_are_rejected() {
    assert_eq!(
        refused(PkResolverConfig {
            request_timeout: Duration::from_millis(60_001),
            ..PkResolverConfig::default()
        }),
        "request_timeout must be <= 60s"
    );
    assert_eq!(
        refused(PkResolverConfig {
            cache_ttl: Duration::from_secs(3601),
            ..PkResolverConfig::default()
        }),
        "cache_ttl must be <= 1 hour"
    );
    assert_eq!(PkResolver::with_defaults().config().max_retries, 3);
}

#[test]
fn test_pk_uuid_empty_rejected() {
    assert!(PkUuid::parse("").is_err());
}

#[test]
fn test_pk_uuid_invalid_format_rejected() {
    assert!(PkUuid::parse("not-a-uuid").is_err());
    assert!(PkUuid::parse("sys-1").is_err());
}

#[test]
fn test_pk_uuid_short_id_rejected() {
    assert!(PkUuid::parse("abcde").is_err());
}

#[test]
fn test_pk_uuid_valid_uuid_accepted() {
    assert!(PkUuid::parse("12345678-1234-1234-1234-123456789abc").is_ok());
}

#[test]
fn test_pk_uuid_uppercase_canonicalized() {
    let uuid = PkUuid::parse("12345678-ABCD-1234-1234-123456789ABC").unwrap();
    assert_eq!(
        uuid.as_str(),
        "12345678-abcd-1234-1234-123456789abc",
        "uppercase UUID must be canonicalized to lowercase"
    );
    assert_eq!(uuid.to_string(), "12345678-abcd-1234-1234-123456789abc");
}

#[test]
fn waits_double_up_to_half_a_minute() {
    assert_eq!(backoff(0), Duration::from_millis(100));
    assert_eq!(backoff(3), Duration::from_millis(800));
    assert_eq!(backoff(8), Duration::from_millis(25_600));
    assert_eq!(backoff(9), Duration::from_millis(30_000));
    assert_eq!(backoff(u32::MAX), Duration::from_millis(30_000));
}

#[test]
fn resolution_failures_say_what_happened() {
    let said = |e: PkResolveError| e.to_string();
    assert_eq!(said(PkResolveError::NotFound), "PK API returned 404");
    assert_eq!(
        said(PkResolveError::RateLimited),
        "PK API rate limited (429 exhausted)"
    );
    assert_eq!(
        said(transport_failure(true, "slow".into())),
        "PK API request timed out"
    );
    assert_eq!(
        said(transport_failure(false, "refused".into())),
        "PK API HTTP error: refused"
    );
    assert_eq!(
        said(PkResolveError::BindingMismatch {
            dimension: "guild_id",
            expected: 1,
            actual: 2,
        }),
        "PK response guild_id binding mismatch: expected 1, got 2"
    );
    assert_eq!(
        said(PkResolveError::SemaphoreClosed),
        "PK resolver semaphore closed"
    );
    assert_eq!(
        said(PkResolveError::InvalidResponse("odd".into())),
        "PK API invalid response: odd"
    );
}

#[test]
fn large_answers_are_not_read() {
    let mut body = ResponseBody::start();
    assert_eq!(
        body.add_chunk(&vec![b'a'; MAX_VERIFIED_RESPONSE_BYTES]),
        Ok(())
    );
    assert_eq!(
        body.add_chunk(&vec![b'b']),
        Err(PkResolveError::InvalidResponse(
            "response body exceeds 64 KiB".into()
        ))
    );
    assert_eq!(body.bytes.len(), MAX_VERIFIED_RESPONSE_BYTES);
}

// ── Nameplates ──────────────────────────────────────────────────────────────

fn plate(name: &str, pronouns: &[&str]) -> Nameplate {
    Nameplate {
        name: name.into(),
        pronouns: pronouns.iter().map(|p| p.to_string()).collect(),
        bio: None,
    }
}

/// The display name of a user, from nameplates that were just fetched.
fn shown(plates: Vec<(&str, Nameplate)>, user_id: u64, name: &str) -> String {
    let mut provider = NameplateProvider::new(Duration::from_secs(3600));
    assert!(matches!(provider.lookup(user_id, start()), Lookup::Fetch));
    let file = plates
        .into_iter()
        .map(|(id, plate)| (id.to_string(), plate))
        .collect();
    let fetched = provider.fetched(user_id, Some(entries_of(file)), start());
    match provider.lookup(user_id, after(10)) {
        Lookup::Known(known) => assert_eq!(known, fetched),
        Lookup::Fetch => panic!("fetched nameplates must be known"),
    }
    assert!(matches!(
        provider.lookup(user_id, after(3600)),
        Lookup::Fetch
    ));
    resolve_display_name(&fetched, name)
}

#[test]
fn test_service_no_nameplate_returns_original() {
    assert_eq!(shown(vec![], 99999, "Unknown"), "Unknown");
}

#[test]
fn test_service_enriches_with_single_pronoun() {
    assert_eq!(
        shown(vec![("42", plate("Lain", &["she/her"]))], 42, "Lain"),
        "Lain (she/her)"
    );
}

#[test]
fn test_service_enriches_with_multiple_pronouns() {
    assert_eq!(
        shown(
            vec![("42", plate("Test", &["she/her", "they/them"]))],
            42,
            "Test"
        ),
        "Test (she/her or they/them)"
    );
}

#[test]
fn test_service_no_pronouns_returns_original() {
    assert_eq!(
        shown(vec![("42", plate("NoPro", &[]))], 42, "NoPro"),
        "NoPro"
    );
}

#[test]
fn nameplates_without_a_number_are_passed_over() {
    let plates = vec![
        ("nobody", plate("Nobody", &["they/them"])),
        ("42", plate("Lain", &["she/her"])),
    ];
    assert_eq!(shown(plates, 42, "Lain"), "Lain (she/her)");
    assert!(DEFAULT_NAMEPLATES_URL.ends_with("nameplates.yaml"));
}

// ── PronounDB ───────────────────────────────────────────────────────────────

fn records() -> Vec<PronounDbRecord> {
    vec![
        PronounDbRecord {
            user_id: "7".into(),
            sets: vec![("fr".into(), vec!["elle".into()])],
        },
        PronounDbRecord {
            user_id: "42".into(),
            sets: vec![
                ("fr".into(), vec!["elle".into()]),
                ("en".into(), vec!["she".into(), "they".into()]),
            ],
        },
    ]
}

#[test]
fn english_pronouns_are_found_by_user() {
    assert_eq!(
        english_codes(&records(), 42),
        Some(&vec!["she".to_string(), "they".to_string()])
    );
    assert_eq!(english_codes(&records(), 7), None);
    assert_eq!(english_codes(&records(), 1), None);
}

#[test]
fn rejects_oversized_declared_and_streamed_bodies() {
    assert!(matches!(
        BoundedBody::start(Some(MAX_RESPONSE_BYTES as u64 + 1)),
        Err(PronounProviderError::MalformedResponse)
    ));
    let mut body = BoundedBody::start(None).unwrap_or_else(|_| panic!("no length"));
    assert_eq!(body.add_chunk(&vec![b'a'; MAX_RESPONSE_BYTES]), Ok(()));
    assert_eq!(
        body.add_chunk(&vec![b'b']),
        Err(PronounProviderError::MalformedResponse)
    );
}

#[test]
fn caches_absence_but_not_provider_errors() {
    let mut cache = PronounCache::new();
    assert_eq!(cache.get(1, start()), None);
    assert_eq!(finish_lookup(&mut cache, 1, false, None, start()), Ok(None));
    assert_eq!(cache.get(1, after(1)), Some(None));

    assert_eq!(
        finish_lookup(&mut cache, 2, true, None, start()),
        Err(PronounProviderError::MalformedResponse)
    );
    assert_eq!(cache.get(2, after(1)), None);
}

fn answer(status: u16, records: Option<Vec<PronounDbRecord>>) -> Answer {
    Answer {
        status,
        content_length: None,
        chunks: vec![],
        broke_off: false,
        records,
    }
}

#[test]
fn whole_lookups_cache_absence_and_no_error() {
    let mut cache = PronounCache::new();
    let she = PronounSelection {
        display: "she/her".into(),
    };
    cache.insert(7, Some(she.clone()), start());
    let of_42 = |codes: &str| {
        Some(vec![PronounDbRecord {
            user_id: "42".into(),
            sets: vec![("en".into(), vec![codes.into()])],
        }])
    };
    let mut settle = |answer: Option<Answer>, read: Option<PronounSelection>| {
        let r = settle_lookup(&mut cache, 42, &answer, read, start());
        (r, cache.get(42, after(1)), cache.get(7, after(1)))
    };
    let seven = Some(Some(she.clone()));
    let transport = (Err(PronounProviderError::Transport), None, seven.clone());
    let malformed = (Err(PronounProviderError::MalformedResponse), None, seven.clone());

    assert_eq!(settle(None, None), transport);
    assert_eq!(settle(Some(answer(404, of_42("she"))), Some(she.clone())), transport);
    assert_eq!(settle(Some(answer(500, None)), None), transport);
    let mut broken = answer(200, None);
    broken.broke_off = true;
    assert_eq!(settle(Some(broken), None), transport);
    assert_eq!(settle(Some(answer(200, None)), None), malformed);
    assert_eq!(settle(Some(answer(200, of_42("?"))), None), malformed);
    let mut claimed = answer(200, of_42("she"));
    claimed.content_length = Some(65_537);
    assert_eq!(settle(Some(claimed), Some(she.clone())), malformed);
    let mut large = answer(200, of_42("she"));
    large.chunks = vec![vec![0; 65_536], vec![0]];
    assert_eq!(settle(Some(large), Some(she.clone())), malformed);

    assert_eq!(settle(Some(answer(200, Some(vec![]))), None), (Ok(None), Some(None), seven.clone()));
    let mut full = answer(200, of_42("she"));
    full.chunks = vec![vec![0; 65_536]];
    assert_eq!(
        settle(Some(full), Some(she.clone())),
        (Ok(Some(she.clone())), Some(Some(she)), seven)
    );
}

#[test]
fn lookups_count_for_an_hour_and_the_oldest_makes_room() {
    let mut cache = PronounCache::new();
    let selection = PronounSelection {
        display: "she/her".into(),
    };
    for id in 0..CACHE_CAPACITY as u64 {
        cache.insert(id, Some(selection.clone()), after(id));
    }
    cache.insert(1000, None, after(300));
    assert_eq!(cache.get(0, after(300)), None);
    assert_eq!(cache.get(1, after(300)), Some(Some(selection)));
    assert_eq!(cache.get(1000, after(3899)), Some(None));
    assert_eq!(cache.get(1000, after(3900)), None);
    assert_eq!(LOOKUP_URL, "https://pronoundb.org/api/v2/lookup");
    assert_eq!(MAX_CONCURRENT_LOOKUPS, 8);
}
