use serde_json::Value;

use dione::contradictionary::{Action, Contradictionary, Entry, MatchMode};
use dione::json::Json;
use dione::oneshot::{
    accept_pipeline, begin_post, check_identity, check_target, chunk_message, chunk_nonces, classify_rest_error,
    classify_status, identified, judge_message, line_col_at, load_config_for_send, preflight, retryable_for,
    scrub_token, select_token, unhooked_pipeline, variable_to_read, verify_identity, ChunkMode, Chunker,
    ConfigFailure, FailureClass, Identity, Outcome, Reason, Refusal, RestError, RestFailure,
    SendConfig, SendRequest, SendStep, Stage, TokenSource, NONCE_MAX_LEN,
};
use dione::pre_send::{
    configured_pipeline, ConstructId, HookContext, HookName, HookOutput, NullAuditSink,
    NullFeedbackSink, PipelineError, PreSendHook, PreSendPipeline,
};

struct NoHook;

impl PreSendHook for NoHook {
    fn name(&self) -> HookName {
        HookName::parse("none").unwrap()
    }

    fn execute(&self, _context: &HookContext) -> Option<HookOutput> {
        None
    }
}

fn no_hooks() -> PreSendPipeline<NoHook, NullFeedbackSink, NullAuditSink> {
    configured_pipeline(true, vec![], NullFeedbackSink, NullAuditSink)
        .unwrap_or_else(|_| panic!("pipeline"))
        .unwrap_or_else(|| panic!("pipeline"))
}

/// Cuts after every `limit` characters.
struct ByLength;

impl Chunker for ByLength {
    fn chunk(&self, text: &str, limit: usize, _mode: ChunkMode) -> Result<Vec<String>, String> {
        let chars: Vec<char> = text.chars().collect();
        Ok(chars
            .chunks(limit)
            .map(|c| c.iter().collect::<String>())
            .collect())
    }
}

fn config_with(channel: u64, mutate: impl FnOnce(&mut SendConfig)) -> SendConfig {
    let mut config = SendConfig {
        token: None,
        channels: vec![channel],
        text_chunk_limit: 0,
        chunk_mode: ChunkMode::Paragraph,
        pre_send_enabled: false,
        construct_id: ConstructId::default(),
        contradictionary: None,
    };
    mutate(&mut config);
    config
}

fn identity() -> Identity {
    Identity {
        bot_user_id: 7,
        username: "trundle".into(),
        token_source: TokenSource::Config,
    }
}

fn refused<T>(r: Result<T, Refusal>) -> Refusal {
    match r {
        Ok(_) => panic!("expected a refusal"),
        Err(e) => e,
    }
}

fn value(j: &Json) -> Value {
    match j {
        Json::Null | Json::Fraction(_) => Value::Null,
        Json::Bool(b) => Value::from(*b),
        Json::Unsigned(n) => Value::from(*n),
        Json::Negative(n) => Value::from(*n),
        Json::Text(s) => Value::from(s.as_str()),
        Json::Array(list) => Value::Array(list.iter().map(value).collect()),
        Json::Object(fields) => Value::Object(
            fields
                .iter()
                .map(|(name, field)| (name.clone(), value(field)))
                .collect(),
        ),
    }
}

#[test]
fn token_source_parses_config_and_env_only() {
    assert_eq!(TokenSource::parse("config"), Ok(TokenSource::Config));
    assert_eq!(
        TokenSource::parse("env:TRUNDLE_TOKEN"),
        Ok(TokenSource::Env("TRUNDLE_TOKEN".into()))
    );
    assert!(TokenSource::parse("env:").is_err());
    assert!(TokenSource::parse("env:BAD-NAME").is_err());
    assert!(TokenSource::parse("environment").is_err());
    assert!(TokenSource::parse("").is_err());
}

/// Reads the variable that the source names, as the caller does.
fn token(
    config: &SendConfig,
    source: &TokenSource,
    env: impl Fn(&str) -> Option<String>,
) -> Result<String, Refusal> {
    let read = variable_to_read(source).and_then(env);
    select_token(config, source, read)
}

#[test]
fn config_source_ignores_ambient_env() {
    let config = config_with(42, |raw| raw.token = Some("config-token".into()));
    let env = |var: &str| (var == "DISCORD_BOT_TOKEN").then(|| "ambient".to_string());
    assert_eq!(
        token(&config, &TokenSource::Config, env).unwrap(),
        "config-token"
    );
}

#[test]
fn config_source_without_token_refuses_no_token_even_if_env_set() {
    let config = config_with(42, |_| {});
    let env = |_: &str| Some("leaked-env-token".to_string());
    let refusal = token(&config, &TokenSource::Config, env).unwrap_err();
    assert_eq!(refusal.reason, Reason::NoToken);
    assert!(!refusal.retryable);
    assert!(!refusal.detail.contains("leaked-env-token"));
}

#[test]
fn env_source_reads_only_the_named_variable() {
    let config = config_with(42, |raw| raw.token = Some("config-token".into()));
    let env = |var: &str| match var {
        "DISCORD_BOT_TOKEN" => Some("ambient".to_string()),
        "TRUNDLE_TOKEN" => Some("named".to_string()),
        _ => None,
    };
    assert_eq!(
        token(&config, &TokenSource::Env("TRUNDLE_TOKEN".into()), env).unwrap(),
        "named"
    );
    let missing = token(&config, &TokenSource::Env("OTHER".into()), env).unwrap_err();
    assert_eq!(missing.reason, Reason::NoToken);
    assert!(missing.detail.contains("env:OTHER"));
}

#[test]
fn blank_token_is_no_token() {
    let config = config_with(42, |raw| raw.token = Some("   ".into()));
    let refusal = token(&config, &TokenSource::Config, |_| None).unwrap_err();
    assert_eq!(refusal.reason, Reason::NoToken);
}

#[test]
fn identity_binds_to_numeric_id_not_username() {
    let ok = check_identity((7, "anything".into()), 7, &TokenSource::Config).unwrap();
    assert_eq!(ok.bot_user_id, 7);
    assert_eq!(ok.username, "anything");
    let bad = check_identity((8, "trundle".into()), 7, &TokenSource::Config).unwrap_err();
    assert_eq!(bad.reason, Reason::IdentityMismatch);
    assert!(!bad.retryable);
    assert!(bad.detail.contains("bot user 8, expected 7"));
}

#[test]
fn target_gate_accepts_configured_channel_only() {
    let config = config_with(42, |_| {});
    assert!(check_target(&config, 42).is_ok());
    let refusal = check_target(&config, 43).unwrap_err();
    assert_eq!(refusal.reason, Reason::NotPermittedTarget);
    assert!(refusal.detail.contains("unavailable in one-shot mode"));
    assert!(refusal.detail.contains("DM"));
    assert!(refusal.detail.contains("thread"));
}

#[test]
fn single_chunk_passes_multi_chunk_refuses_unless_allowed() {
    let config = config_with(42, |raw| {
        raw.text_chunk_limit = 10;
        raw.chunk_mode = ChunkMode::Length;
    });
    assert_eq!(
        chunk_message(&config, &ByLength, "short", false).unwrap(),
        vec!["short"]
    );
    let long = "0123456789abcdef";
    let refusal = chunk_message(&config, &ByLength, long, false).unwrap_err();
    assert_eq!(refusal.reason, Reason::WouldChunk);
    assert!(refusal.detail.contains("2 chunks"));
    assert!(refusal.detail.contains("--allow-multi-chunk"));
    assert_eq!(
        chunk_message(&config, &ByLength, long, true).unwrap().len(),
        2
    );
}

#[test]
fn empty_message_refuses_would_chunk() {
    let config = config_with(42, |_| {});
    assert_eq!(
        chunk_message(&config, &ByLength, "", false)
            .unwrap_err()
            .reason,
        Reason::WouldChunk
    );
}

#[test]
fn contradictionary_bounce_refuses() {
    let config = config_with(42, |raw| {
        raw.contradictionary = Some(Contradictionary::new(vec![Entry {
            pattern: "straightforward".into(),
            action: Action::Block,
            match_mode: MatchMode::Word,
            reason: Some("nothing ever is".into()),
        }]));
    });
    let judge = |text: &str| judge_message(&config, &no_hooks(), 42, &identity(), text);
    let refusal = judge("this is straightforward").unwrap_err();
    assert_eq!(refusal.reason, Reason::ContradictionaryBounce);
    assert!(!refusal.retryable);
    assert!(refusal.detail.contains("straightforward"));
    assert_eq!(judge("this is subtle").unwrap(), "this is subtle");
}

#[test]
fn pre_send_observe_pipeline_passes_text_through() {
    let config = config_with(42, |raw| raw.pre_send_enabled = true);
    assert_eq!(
        judge_message(&config, &no_hooks(), 42, &identity(), "hello").unwrap(),
        "hello"
    );
}

#[test]
fn retryable_table_covers_every_reason_and_status() {
    for reason in Reason::all() {
        let refusal = Refusal::new(reason, "x".into());
        assert!(
            !refusal.retryable,
            "{} defaulted to retryable",
            reason.slug()
        );
        let json = value(&Outcome::Refused(refusal).to_json());
        assert_eq!(json["retryable"], false);
        assert_eq!(json["delivery_ambiguous"], false);
        assert_eq!(json["reason"], reason.slug());
        assert_eq!(reason.may_retry(), reason == Reason::SendFailed);
    }
    assert_eq!(Reason::ConfigInvalid.exit_code(), 1);
    for reason in [
        Reason::NoToken,
        Reason::IdentityMismatch,
        Reason::NotPermittedTarget,
        Reason::WouldChunk,
        Reason::ContradictionaryBounce,
    ] {
        assert_eq!(reason.exit_code(), 2, "{}", reason.slug());
    }
    assert_eq!(Reason::SendFailed.exit_code(), 3);
    let sent = value(
        &Outcome::Sent {
            channel_id: 1,
            message_ids: vec![2],
            identity: identity(),
        }
        .to_json(),
    );
    assert_eq!(sent["retryable"], false);
    assert_eq!(sent["delivery_ambiguous"], false);
    let ok = value(
        &Outcome::PreflightOk {
            channel_id: 1,
            chunks: 1,
            identity: identity(),
        }
        .to_json(),
    );
    assert_eq!(ok["retryable"], false);
    assert_eq!(ok["status"], "preflight_ok");
    assert_eq!(ok["delivery_ambiguous"], false);

    let rows: &[(Stage, FailureClass, bool, bool)] = &[
        (Stage::Post, FailureClass::RateLimited, false, true),
        (Stage::Post, FailureClass::RateLimited, true, true),
        (Stage::Post, FailureClass::ServerError, false, false),
        (Stage::Post, FailureClass::ServerError, true, false),
        (Stage::Post, FailureClass::ConnectFailed, false, true),
        (Stage::Post, FailureClass::ConnectFailed, true, true),
        (Stage::Post, FailureClass::Timeout, false, false),
        (Stage::Post, FailureClass::Timeout, true, false),
        (Stage::Post, FailureClass::Transport, false, false),
        (Stage::Post, FailureClass::Transport, true, false),
        (Stage::Post, FailureClass::ClientError, false, false),
        (Stage::Post, FailureClass::ClientError, true, false),
        (Stage::Post, FailureClass::Other, false, false),
        (Stage::Post, FailureClass::Other, true, false),
        (Stage::Identity, FailureClass::ServerError, false, true),
        (Stage::Identity, FailureClass::ConnectFailed, false, true),
        (Stage::Identity, FailureClass::Timeout, false, true),
        (Stage::Identity, FailureClass::Transport, false, true),
        (Stage::Identity, FailureClass::RateLimited, false, true),
        (Stage::Identity, FailureClass::ClientError, false, false),
        (Stage::Identity, FailureClass::Other, false, false),
    ];
    for (stage, class, has_nonce, retryable) in rows {
        assert_eq!(
            retryable_for(*stage, *class, *has_nonce),
            *retryable,
            "{stage:?} {class:?} nonce={has_nonce}"
        );
        assert_eq!(
            retryable_for(*stage, *class, !*has_nonce),
            *retryable,
            "{stage:?} {class:?} nonce flipped"
        );
        let ambiguous = *stage == Stage::Post && class.post_is_ambiguous();
        let refusal = if ambiguous {
            Refusal::send_ambiguous(format!("{class:?}"))
        } else {
            Refusal::send_failed(format!("{class:?}"), *retryable)
        };
        assert_eq!(refusal.reason, Reason::SendFailed);
        assert_eq!(refusal.retryable, *retryable);
        assert_eq!(refusal.delivery_ambiguous, ambiguous);
        let json = value(&Outcome::Refused(refusal).to_json());
        assert_eq!(json["retryable"], *retryable);
        assert_eq!(json["delivery_ambiguous"], ambiguous);
        if ambiguous {
            assert!(json["detail"]
                .as_str()
                .unwrap()
                .contains("delivery ambiguous; reconcile before resending"));
        }
    }
    for (status, class) in [
        (400, FailureClass::ClientError),
        (401, FailureClass::ClientError),
        (403, FailureClass::ClientError),
        (404, FailureClass::ClientError),
        (429, FailureClass::RateLimited),
        (500, FailureClass::ServerError),
        (502, FailureClass::ServerError),
        (503, FailureClass::ServerError),
    ] {
        assert_eq!(classify_status(status), class, "HTTP {status}");
    }
    let other = classify_rest_error(
        &RestError::Other {
            text: "connection refused (secret-token-value)".into(),
        },
        "secret-token-value",
    );
    assert_eq!(other.class, FailureClass::Other);
    assert_eq!(other.status, None);
}

#[test]
fn chunk_nonces_derive_per_chunk_and_bound_length() {
    assert_eq!(chunk_nonces(None, 2).unwrap(), vec![None, None]);
    assert_eq!(chunk_nonces(Some("k"), 1).unwrap(), vec![Some("k".into())]);
    assert_eq!(
        chunk_nonces(Some("k"), 2).unwrap(),
        vec![Some("k-0".into()), Some("k-1".into())]
    );
    let max = "x".repeat(NONCE_MAX_LEN);
    assert!(chunk_nonces(Some(&max), 1).is_ok());
    let refusal = chunk_nonces(Some(&max), 2).unwrap_err();
    assert_eq!(refusal.reason, Reason::Usage);
    assert_eq!(refusal.exit_code(), 1);
    assert_eq!(chunk_nonces(Some(""), 1).unwrap_err().reason, Reason::Usage);
    assert_eq!(
        chunk_nonces(Some(&"y".repeat(26)), 1).unwrap_err().reason,
        Reason::Usage
    );
}

#[test]
fn a_long_nonce_is_shown_quoted() {
    let refusal = chunk_nonces(Some("a \"quoted\" nonce, too long"), 1).unwrap_err();
    assert!(
        refusal
            .detail
            .contains("\"a \\\"quoted\\\" nonce, too long\""),
        "{}",
        refusal.detail
    );
}

#[test]
fn chunk_limit_above_discord_max_is_config_invalid() {
    let config = config_with(42, |raw| raw.text_chunk_limit = 4000);
    let refusal = chunk_message(&config, &ByLength, "hello", false).unwrap_err();
    assert_eq!(refusal.reason, Reason::ConfigInvalid);
    assert!(refusal.detail.contains("4000"));
    let ok = config_with(42, |raw| raw.text_chunk_limit = 2000);
    assert!(chunk_message(&ok, &ByLength, "hello", false).is_ok());
}

#[test]
fn rest_error_detail_never_carries_the_token() {
    let failure = classify_rest_error(
        &RestError::Other {
            text: "rejected secret-token-value".into(),
        },
        "secret-token-value",
    );
    assert!(!failure.detail.contains("secret-token-value"));
    assert!(failure.detail.contains("[redacted]"));
    assert_eq!(scrub_token("plain", ""), "plain");
}

#[test]
fn malformed_config_detail_never_echoes_token_bytes() {
    let text = "token = \"SECRETTOKENBYTES\n[[channels]]\nid = \"1\"\n";
    let location = line_col_at(&text.as_bytes().to_vec(), 25);
    assert_eq!(location.0, 1);
    let failure = ConfigFailure::Parse {
        location: Some(location),
    };
    let refusal = refused(load_config_for_send("config.toml", Err(failure)));
    assert_eq!(refusal.reason, Reason::ConfigInvalid);
    assert!(!refusal.retryable);
    assert!(refusal.detail.contains("line 1"), "{}", refusal.detail);
    assert!(refusal.detail.contains("source excerpt withheld"));
    assert_eq!(refusal.exit_code(), 1);
    let json = value(&Outcome::Refused(refusal).to_json()).to_string();
    assert!(!json.contains("SECRETTOKENBYTES"), "{json}");
    assert!(json.contains("config_invalid"));
    assert!(json.contains("\"retryable\":false"));

    let missing = refused(load_config_for_send(
        "none.toml",
        Err(ConfigFailure::NotFound {
            path: "none.toml".into(),
        }),
    ));
    assert!(missing.detail.contains("not found"));
}

#[test]
fn lines_and_columns_count_from_one() {
    let text = "ab\ncde\n".as_bytes().to_vec();
    assert_eq!(line_col_at(&text, 0), (1, 1));
    assert_eq!(line_col_at(&text, 1), (1, 2));
    assert_eq!(line_col_at(&text, 3), (2, 1));
    assert_eq!(line_col_at(&text, 5), (2, 3));
}

#[test]
fn json_shapes_use_string_snowflakes() {
    let sent = Outcome::Sent {
        channel_id: 1549533156150087812,
        message_ids: vec![1549533248667910167],
        identity: Identity {
            bot_user_id: 1549533370038362205,
            username: "trundle".into(),
            token_source: TokenSource::Env("TRUNDLE_TOKEN".into()),
        },
    };
    let json = value(&sent.to_json());
    assert_eq!(json["ok"], true);
    assert_eq!(json["status"], "sent");
    assert_eq!(json["channel_id"], "1549533156150087812");
    assert_eq!(json["message_ids"][0], "1549533248667910167");
    assert_eq!(json["identity"]["bot_user_id"], "1549533370038362205");
    assert_eq!(json["identity"]["token_source"], "env:TRUNDLE_TOKEN");
    assert_eq!(sent.exit_code(), 0);
}

fn request(dry_run: bool) -> SendRequest {
    SendRequest {
        channel_id: 42,
        expect_identity: 7,
        message: "0123456789abcdef".into(),
        token_source: TokenSource::Config,
        allow_multi_chunk: true,
        dry_run,
        nonce: Some("key".into()),
    }
}

fn posting(dry_run: bool) -> SendStep {
    let config = config_with(42, |raw| raw.text_chunk_limit = 10);
    let prepared = preflight(
        &config,
        &ByLength,
        &no_hooks(),
        &request(dry_run),
        &identity(),
    )
    .unwrap_or_else(|e| panic!("{}", e.detail));
    begin_post(&request(dry_run), identity(), prepared)
}

#[test]
fn a_dry_run_posts_nothing() {
    match posting(true) {
        SendStep::Done(Outcome::PreflightOk {
            channel_id, chunks, ..
        }) => {
            assert_eq!(channel_id, 42);
            assert_eq!(chunks, 2);
        }
        _ => panic!("expected the preflight's result"),
    }
}

#[test]
fn chunks_are_posted_in_order_with_their_nonces() {
    let SendStep::Post(first) = posting(false) else {
        panic!("expected chunks to post");
    };
    assert_eq!(first.next_chunk(), Some(("0123456789", Some("key-0"))));
    let SendStep::Post(second) = first.posted(100) else {
        panic!("expected another chunk");
    };
    assert_eq!(second.next_chunk(), Some(("abcdef", Some("key-1"))));
    match second.posted(101) {
        SendStep::Done(Outcome::Sent { message_ids, .. }) => {
            assert_eq!(message_ids, vec![100, 101])
        }
        _ => panic!("expected the end"),
    }
}

fn rest_failure(class: FailureClass) -> RestFailure {
    RestFailure {
        status: None,
        class,
        detail: "boom".into(),
    }
}

#[test]
fn a_failure_after_the_first_chunk_is_not_retryable() {
    let SendStep::Post(first) = posting(false) else {
        panic!("expected chunks to post");
    };
    let SendStep::Post(second) = first.posted(100) else {
        panic!("expected another chunk");
    };
    let refusal = second.failed(rest_failure(FailureClass::RateLimited));
    assert_eq!(refusal.reason, Reason::SendFailed);
    assert!(!refusal.retryable);
    assert!(refusal.detail.contains("\"100\""), "{}", refusal.detail);
}

#[test]
fn a_rate_limit_before_the_first_chunk_is_retryable() {
    let SendStep::Post(first) = posting(false) else {
        panic!("expected chunks to post");
    };
    let refusal = first.failed(rest_failure(FailureClass::RateLimited));
    assert!(refusal.retryable);
    assert!(!refusal.delivery_ambiguous);
}

#[test]
fn an_unknown_identity_can_be_asked_for_again() {
    let refusal = verify_identity(
        Err(rest_failure(FailureClass::ServerError)),
        7,
        &TokenSource::Config,
    )
    .unwrap_err();
    assert_eq!(refusal.reason, Reason::SendFailed);
    assert!(refusal.retryable);
}

#[test]
fn token_sources_are_written_as_they_are_read() {
    assert_eq!(TokenSource::Config.to_string(), "config");
    assert_eq!(TokenSource::Env("A_B".into()).to_string(), "env:A_B");
}

#[test]
fn only_the_expected_bot_posts() {
    let config = config_with(42, |raw| raw.text_chunk_limit = 10);
    let expected = request(false).expect_identity;
    match identified(
        &config,
        &ByLength,
        &no_hooks(),
        &request(false),
        Ok((expected, "trundle".into())),
    ) {
        SendStep::Post(posting) => {
            assert_eq!(posting.identity.bot_user_id, expected);
            assert_eq!(posting.next_chunk(), Some(("0123456789", Some("key-0"))));
        }
        SendStep::Done(_) => panic!("expected chunks to post"),
    }
    match identified(
        &config,
        &ByLength,
        &no_hooks(),
        &request(false),
        Ok((expected + 1, "impostor".into())),
    ) {
        SendStep::Done(Outcome::Refused(refusal)) => {
            assert_eq!(refusal.reason, Reason::IdentityMismatch);
        }
        _ => panic!("expected a refusal"),
    }
}

#[test]
fn the_pipeline_of_one_message_has_no_hooks() {
    let pipeline: PreSendPipeline<NoHook, NullFeedbackSink, NullAuditSink> =
        unhooked_pipeline(NullFeedbackSink, NullAuditSink).unwrap_or_else(|_| panic!("pipeline"));
    let config = config_with(42, |raw| raw.pre_send_enabled = true);
    assert_eq!(
        judge_message(&config, &pipeline, 42, &identity(), "hello").unwrap(),
        "hello"
    );
    let made: Result<PreSendPipeline<NoHook, NullFeedbackSink, NullAuditSink>, PipelineError> =
        Err(PipelineError::DuplicateHookName("twin".into()));
    let refusal = refused(accept_pipeline(made));
    assert_eq!(refusal.reason, Reason::ConfigInvalid);
    assert_eq!(
        refusal.detail,
        "pre-send pipeline could not be built: duplicate pre-send hook name `twin`"
    );
}
