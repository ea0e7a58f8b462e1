use dione::contradictionary::{Action, Contradictionary, Entry, MatchMode};
use dione::no_rly::judge::{
    AlwaysClear, OutboundJudge, ReasonEntry, RejectReason, Verdict,
};
use dione::principal_policy::{
    Admission, Attention, DmPolicy, LegacyGuildPolicyInput, LegacyPolicyTranslation,
};

fn entries() -> Vec<Entry> {
    vec![
        Entry {
            pattern: "straightforward".into(),
            action: Action::Block,
            match_mode: MatchMode::Word,
            reason: Some("nothing ever is".into()),
        },
        Entry {
            pattern: "trivial".into(),
            action: Action::Block,
            match_mode: MatchMode::Word,
            reason: None,
        },
        Entry {
            pattern: "honestly".into(),
            action: Action::Log,
            match_mode: MatchMode::Word,
            reason: Some("log tier must not bounce".into()),
        },
        Entry {
            pattern: "prejection".into(),
            action: Action::Celebrate,
            match_mode: MatchMode::Word,
            reason: None,
        },
    ]
}

#[test]
fn block_hit_bounces_with_pattern_and_reason() {
    let judge = Contradictionary::new(entries());
    match judge.judge("a straightforward plan") {
        Verdict::Bounce(reason) => {
            assert_eq!(reason.matches.len(), 1);
            assert_eq!(reason.matches[0].pattern, "straightforward");
            assert_eq!(reason.matches[0].reason.as_deref(), Some("nothing ever is"));
        }
        Verdict::Clear => panic!("block-tier hit must bounce"),
    }
}

#[test]
fn multiple_block_hits_all_named() {
    let judge = Contradictionary::new(entries());
    match judge.judge("a straightforward and trivial fix") {
        Verdict::Bounce(reason) => {
            assert_eq!(reason.patterns(), "straightforward, trivial");
        }
        Verdict::Clear => panic!("expected bounce"),
    }
}

#[test]
fn repeated_pattern_reported_once() {
    let judge = Contradictionary::new(vec![Entry {
        pattern: "rust".into(),
        action: Action::Block,
        match_mode: MatchMode::Substring,
        reason: None,
    }]);
    match judge.judge("rust makes me frustrated, trust me") {
        Verdict::Bounce(reason) => {
            assert_eq!(reason.matches.len(), 1, "same rule fires once per bounce");
        }
        Verdict::Clear => panic!("expected bounce"),
    }
}

#[test]
fn log_and_celebrate_do_not_bounce() {
    let judge = Contradictionary::new(entries());
    assert_eq!(
        judge.judge("honestly, prejection is the word"),
        Verdict::Clear
    );
}

#[test]
fn clean_text_is_clear() {
    let judge = Contradictionary::new(entries());
    assert_eq!(judge.judge("the tests pass"), Verdict::Clear);
}

#[test]
fn always_clear_never_bounces() {
    assert_eq!(AlwaysClear.judge("straightforward trivial"), Verdict::Clear);
}

#[test]
fn display_includes_reasons() {
    let reason = RejectReason {
        matches: vec![
            ReasonEntry {
                pattern: "straightforward".into(),
                reason: Some("nothing ever is".into()),
            },
            ReasonEntry {
                pattern: "trivial".into(),
                reason: None,
            },
        ],
    };
    assert_eq!(
        reason.to_string(),
        "straightforward (nothing ever is), trivial"
    );
}

#[test]
fn words_match_whole_and_in_any_case() {
    let book = Contradictionary::new(entries());
    assert_eq!(book.check("a STRAIGHTFORWARD plan").len(), 1);
    assert_eq!(book.check("straightforwardly").len(), 0);
    assert_eq!(book.check("non-trivial").len(), 1);
}

#[test]
fn guild_legacy_controls_translate_independently_and_combine() {
    let translate = |require_mention, identity_filter_is_active| {
        LegacyPolicyTranslation::guild(LegacyGuildPolicyInput {
            channel_is_configured: true,
            require_mention,
            identity_filter_is_active,
            sender_is_allowed: false,
        })
    };
    let unrestricted = translate(false, false);
    let identity_rejected = translate(false, true);
    let mention_required = translate(true, false);
    let identity_rejected_and_mention_required = translate(true, true);

    assert_eq!(
        (unrestricted.admission, unrestricted.attention),
        (Admission::Admit, Attention::Normal)
    );
    assert_eq!(
        (identity_rejected.admission, identity_rejected.attention),
        (Admission::Reject, Attention::Normal)
    );
    assert_eq!(
        (mention_required.admission, mention_required.attention),
        (Admission::Admit, Attention::MentionOnly)
    );
    assert_eq!(
        (
            identity_rejected_and_mention_required.admission,
            identity_rejected_and_mention_required.attention,
        ),
        (Admission::Reject, Attention::MentionOnly)
    );
}

#[test]
fn direct_messages_follow_their_policy() {
    let admitted = LegacyPolicyTranslation::dm(DmPolicy::Queue, true);
    assert_eq!(admitted.admission, Admission::Admit);
    let dropped = LegacyPolicyTranslation::dm(DmPolicy::Drop, false);
    assert_eq!(dropped.admission, Admission::Reject);
    let disabled = LegacyPolicyTranslation::dm(DmPolicy::Disabled, false);
    assert_eq!(disabled.admission, Admission::Reject);
}
