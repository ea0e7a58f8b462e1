use dione::clock::Timestamp;
use dione::gate::OutboundGate;
use dione::json::Json;
use dione::mcp::tools::access::{
    begin_approval, deny_access, finish_approval, list_access_requests, AccessQueue,
    AccessRequest, ConfigDurability, MutationOutcome,
};
use dione::mcp::tools::bot_state::{
    check_typing, get_presence, presence_snapshot_json, queued_answer, read_presence, set_presence,
    ActivityType,
    DiscordCommand, OnlineStatus, PresenceSnapshot, PresenceStep,
};
use dione::mcp::tools::diagnostics::{get_version, set_stderr_level, set_trace_level};
use dione::mcp::tools::introspection::{
    channel_kind_str, channel_name, get_channel, list_channels, list_emojis, list_guilds,
    list_roles, member_json, user_json, Channel, ChannelInfo, EmojiInfo, GuildInfo, MemberInfo,
    RoleInfo, UserInfo,
};
use dione::mcp::tools::management::{
    check_operation, check_outbound, thread_created, Operation,
};
use dione::mcp::tools::messaging::{
    parse_reaction_type, reject_captionless_hook_overrides, ReactionType, VerifyResult,
};
use dione::mcp::tools::no_rly::{condense_json, cutoff, stats_filter, stats_json, vacuum_json};
use dione::mcp::tools::render::{
    check_formula, fixup_mitex_output, latex_document, simple_formula, typst_document,
};
use dione::mcp::transport::{NotificationQueue, QueueDrain, TransportMode};
use dione::no_rly::journal::{CondenseReport, JournalScan, Outcome, StatsFilter, VacuumReport};
use dione::permissions::{
    permission_prompt, validate_response, PendingPermissions, PermissionError,
};
use dione::pre_send::HookName;

fn at() -> Timestamp {
    Timestamp::at(1_780_000_000, 0).unwrap()
}

fn text<'a>(j: &'a Json, name: &str) -> &'a str {
    j.get(name).and_then(|v| v.as_str()).unwrap_or("")
}

fn yes(j: &Json, name: &str) -> bool {
    j.get(name).and_then(|v| v.as_bool()).unwrap()
}

// ── Presence ────────────────────────────────────────────────────────────────

#[test]
fn get_presence_before_any_request_reports_unset() {
    let out = presence_snapshot_json(&PresenceSnapshot::new());
    assert!(!yes(&out, "set_this_process"));
    assert!(!yes(&out, "sink_installed"));
    assert!(out.get("online_status").is_none());
}

#[test]
fn get_presence_reads_back_the_last_request() {
    let mut presence = PresenceSnapshot::new();
    let request = read_presence("dnd", Some("custom"), Some("booting..."))
        .unwrap_or_else(|e| panic!("{e:?}"));
    presence.set_presence(&request, at());
    let out = presence_snapshot_json(&presence);
    assert!(yes(&out, "set_this_process"));
    assert_eq!(text(&out, "online_status"), "dnd");
    assert_eq!(text(&out, "activity_type"), "custom");
    assert_eq!(text(&out, "activity_name"), "booting...");
    assert!(!yes(&out, "sink_installed"));
    let stamp = text(&out, "set_at");
    assert_eq!(stamp, "2026-05-28T20:26:40+00:00");
    assert!(chrono::DateTime::parse_from_rfc3339(stamp).is_ok());
}

#[test]
fn set_presence_applies_synchronously_even_with_a_blocked_consumer() {
    let mut store = Some(PresenceSnapshot::new());
    let PresenceStep::Answer(out) =
        set_presence(&mut store, true, "idle", Some("custom"), Some("proof"), at())
    else {
        panic!("expected an answer");
    };
    assert!(yes(&out, "ok"));
    assert_eq!(text(&out, "status"), "applied");

    let read = get_presence(&store);
    assert_eq!(text(&read, "online_status"), "idle");
    assert_eq!(text(&read, "activity_name"), "proof");
}

#[test]
fn set_presence_without_a_presence_store_falls_back_to_the_queue() {
    let step = set_presence(&mut None, true, "online", None, None, at());
    assert!(matches!(
        step,
        PresenceStep::Queue(DiscordCommand::SetPresence { .. })
    ));
    let out = queued_answer(&Ok(()));
    assert!(yes(&out, "ok"));
    assert_eq!(text(&out, "status"), "accepted");
    assert_eq!(
        text(&queued_answer(&Err("channel closed".into())), "error"),
        "failed to send presence command: channel closed"
    );
}

#[test]
fn set_presence_rejects_invalid_input_before_touching_state() {
    let mut store = Some(PresenceSnapshot::new());
    let PresenceStep::Answer(bad_status) =
        set_presence(&mut store, false, "sleeping", None, None, at())
    else {
        panic!("expected an answer");
    };
    assert!(bad_status.get("error").is_some());
    let PresenceStep::Answer(missing_name) =
        set_presence(&mut store, false, "online", Some("custom"), None, at())
    else {
        panic!("expected an answer");
    };
    assert!(missing_name.get("error").is_some());
    assert!(store.unwrap().desired.is_none());
}

#[test]
fn presence_words_read_back() {
    for status in OnlineStatus::all() {
        assert_eq!(OnlineStatus::from_str(&status.to_string()), Ok(status));
    }
    for activity in ActivityType::all() {
        assert_eq!(ActivityType::from_str(&activity.to_string()), Ok(activity));
    }
    assert!(OnlineStatus::from_str("sleeping").is_err());
    assert!(ActivityType::from_str("sleeping").is_err());
}

#[test]
fn typing_needs_a_permitted_channel() {
    let gate = OutboundGate::configured(vec![42]);
    assert!(check_typing(&gate, 42).is_ok());
    assert!(check_typing(&gate, 43).is_err());
}

// ── Management ──────────────────────────────────────────────────────────────

#[test]
fn management_configured_channel_is_allowed() {
    assert!(check_outbound(&OutboundGate::configured(vec![100]), 100).is_ok());
}

#[test]
fn unknown_channel_is_denied() {
    assert!(check_outbound(&OutboundGate::configured(vec![100]), 999).is_err());
}

#[test]
fn thread_allowed_via_record_thread_parent() {
    let mut gate = OutboundGate::configured(vec![100]);
    let answer = thread_created(&mut gate, 100, 200, "t");
    assert_eq!(text(&answer, "thread_id"), "200");
    assert!(
        check_outbound(&gate, 200).is_ok(),
        "thread whose parent is in config must be allowed"
    );
}

#[test]
fn thread_denied_when_parent_not_in_config() {
    let mut gate = OutboundGate::configured(vec![999]);
    gate.record_thread_parent(200, 100);
    assert!(
        check_outbound(&gate, 200).is_err(),
        "thread whose parent is absent from config must be denied"
    );
}

#[test]
fn management_ops_block_non_own_unknown_targets() {
    let gate = OutboundGate::configured(vec![42]);
    for op in [
        Operation::DeleteMessage,
        Operation::PinMessage,
        Operation::UnpinMessage,
        Operation::CreateThread,
    ] {
        let verdict =
            check_operation(&gate, op, 42, Some(8), VerifyResult::Unknown, false, true);
        let Err(error) = verdict.allowed else {
            panic!("{op:?} must be blocked");
        };
        assert!(
            text(&error, "error").contains("possible phantom"),
            "{op:?} on a non-own unknown target must trip the phantom canary"
        );
        assert!(verdict.alert.is_some());
        let own = check_operation(&gate, op, 42, Some(8), VerifyResult::Unknown, true, true);
        assert!(own.allowed.is_ok());
        assert!(own.alert.is_none());
    }
}

// ── Formulas ────────────────────────────────────────────────────────────────

#[test]
fn captionless_render_to_channel_rejects_hook_overrides_before_rendering() {
    let hooks = vec![HookName::parse("tier-1").unwrap()];
    let refusal = reject_captionless_hook_overrides(None, &hooks).unwrap();
    assert_eq!(
        text(&refusal, "error"),
        "no_rly_hooks cannot be used when no caption is sent"
    );
}

#[test]
fn plain_formulas_are_set_letter_by_letter() {
    let document = latex_document("ab + c1").unwrap().unwrap();
    assert!(
        document.ends_with("\n$a b  +  c 1 $\n"),
        "{document:?}"
    );
    assert_eq!(
        latex_document("a-b=c<d>e.f:g!h?").unwrap().unwrap(),
        typst_document(mitex::convert_math("a-b=c<d>e.f:g!h?", None)).unwrap()
    );
    assert_eq!(
        latex_document("x = 10").unwrap().unwrap(),
        typst_document(mitex::convert_math("x = 10", None)).unwrap()
    );
}

#[test]
fn simple_formulas_are_converted() {
    assert!(
        latex_document("x^2").unwrap().unwrap().ends_with("\n$x ^(2 )$\n"),
        "{:?}",
        latex_document("x^2")
    );
    let nested = "{".repeat(16) + &"}".repeat(16);
    let scripts = "x".to_owned() + &"^2".repeat(32);
    let carets = "x".to_owned() + &"^".repeat(32);
    for latex in [
        "x_1^2 + (y, z)/[w]", "{a}_{b}", "a' = b''", "$x$", "'", "_", "^", "}", "", "%", "a & b",
        "\"q\"; @ # * ~", "naïve ∑ é", "x^", "x^ ^2", "_^2", "${$", nested.as_str(),
        scripts.as_str(), carets.as_str(),
    ] {
        assert_eq!(
            latex_document(latex).unwrap(),
            typst_document(mitex::convert_math(latex, None)),
            "{latex}"
        );
    }
    assert_eq!(
        latex_document("a}").unwrap().unwrap_err().split(':').next(),
        Some("LaTeX parse error")
    );
}

#[test]
fn conversions_of_simple_formulas_come_back() {
    let parts: Vec<&str> = vec![
        "x", " ", "{", "}", "[", "]", "(", ")", "$", "^", "_", "'", ",", "/", "&", "#", "*", "@",
        "\"", ";", "~", "%", "\n", "é", "\\", "\\\\", "\\ ", "\\,", "\\{", "\\(", "\\)", "\\[",
        "\\alpha ", "\\sqrt", "\\frac", "\\hat", "\\text", "\\textcolor", "\\substack", "\\left",
        "\\right", "\\middle", "\\item", "\\tag", "\\footnote", "\\caption", "\\operatorname*",
        "\\midrule", "\\hline", "\\iff", "\\iffalse", "\\iftrue", "\\ifnum", "\\else", "\\fi",
        "\\nonesuch", "\\@x", "\\begin{pmatrix}", "\\end{pmatrix}", "\\begin{align*}",
        "\\begin{array}", "\\begin{itemize}", "\\end{itemize}", "\\begin{cases}", "\\begin{quote}",
        "\\begin{nonesuch}",
    ];
    let mut formulas = vec![String::new()];
    for round in 0..3 {
        let limit = if round == 2 { 40 } else { parts.len() };
        formulas = formulas
            .iter()
            .flat_map(|start| {
                parts
                    .iter()
                    .rev()
                    .take(limit)
                    .map(move |part| format!("{start}{part}"))
            })
            .collect();
        for formula in &formulas {
            if simple_formula(formula) {
                assert!(latex_document(formula).is_some(), "{formula:?}");
            }
        }
    }
    for sign in '\0'..'\u{3100}' {
        let formula = format!("a{sign}b^{sign} \\{sign}");
        if simple_formula(&formula) {
            assert!(latex_document(&formula).is_some(), "{sign:?}");
        }
    }
}

#[test]
fn deeply_nested_formulas_come_back() {
    for (start, part, end) in [
        ("", "{", ""), ("x", "^", ""), ("x", "^2", ""), ("x", "'", ""), ("", "\\sqrt", "x"),
        ("", "\\frac x", "y"), ("", "\\left(", ""), ("", "\\text", "x"), ("", "\\(", ""),
        ("", "\\substack", "x"), ("", "\\hat ", "x"), ("", "_", ""),
    ] {
        let formula = start.to_owned() + &part.repeat(256) + end;
        assert!(simple_formula(&formula), "{formula}");
        assert!(latex_document(&formula).is_some());
        let deeper = start.to_owned() + &part.repeat(257) + end;
        assert!(!simple_formula(&deeper));
    }
    let nested = "\\begin{pmatrix}".repeat(65) + "x" + &"\\end{pmatrix}".repeat(65);
    assert!(!simple_formula(&nested), "the braces count as well");
    let nested = "\\begin{pmatrix}".repeat(64) + "x" + &"\\end{pmatrix}".repeat(64);
    assert!(latex_document(&nested).unwrap().is_ok());
}

#[test]
fn commands_are_converted() {
    for (latex, math) in [
        ("\\alpha", "alpha "),
        ("\\frac{1}{2}", "frac(1 ,2 )"),
        ("\\sqrt{2}", "sqrt(2 )"),
        ("\\begin{pmatrix}a & b\\end{pmatrix}", "mat(a  zws , b )"),
    ] {
        let document = latex_document(latex).unwrap().unwrap();
        assert!(document.ends_with(&format!("\n${math}$\n")), "{document}");
        assert_eq!(
            Ok(document),
            typst_document(mitex::convert_math(latex, None))
        );
    }
    assert_eq!(
        latex_document("\\nonesuch"),
        Some(typst_document(mitex::convert_math("\\nonesuch", None)))
    );
    assert!(latex_document("\\nonesuch").unwrap().is_err());
}

#[test]
fn other_formulas_are_left_to_be_converted() {
    for latex in [
        "\\label", "a\\label{x}", "\\includegraphics{x}", "1 \\over 2", "n\\choose k",
        "\\sum\\limits", "\\displaystyle x", "{\\bf x}", "\\newcommand{\\a}{\\a}\\a",
        "\\renewcommand*{\\a}{}", "\\begin{tabular}{c}x\\end{tabular}", "\\begin{figure}",
        "\\begin{table*}", "\\begin {pmatrix}", "\\begin%\n{pmatrix}", "\\begin", "\\end{",
        "\\begin{}", "\\begin{a b}", "% \\label", "\\\\\\label",
    ] {
        assert!(!simple_formula(latex), "{latex}");
        assert!(latex_document(latex).is_none(), "{latex}");
    }
    for latex in ["\\\\label", "\\labels", "\\label@", "\\overline x", "\\begin{matrix*}"] {
        assert!(simple_formula(latex), "{latex}");
        assert!(latex_document(latex).is_some(), "{latex}");
    }
    let converted = mitex::convert_math("\\sum\\limits", None);
    assert!(typst_document(converted).is_ok());
}

#[test]
fn unsafe_formulas_are_refused() {
    assert_eq!(
        check_formula("\\iftypst x \\fi"),
        Err("\\iftypst is not supported".to_string())
    );
    assert!(check_formula("x").is_ok());
    assert_eq!(
        typst_document(Ok("a $ b".into())),
        Err("expression produces unsafe typst output".to_string())
    );
    assert_eq!(
        typst_document(Err("boom".into())),
        Err("LaTeX parse error: boom".to_string())
    );
}

#[test]
fn matrices_get_their_delimiters() {
    assert_eq!(
        fixup_mitex_output("bmatrix(a, b) + Bmatrix(c) + vmatrix(d) + pmatrix(e)"),
        "mat(delim: \"[\",a, b) + mat(delim: \"{\",c) + mat(delim: \"|\",d) + mat(e)"
    );
}

// ── Access ──────────────────────────────────────────────────────────────────

fn waiting(user_id: u64) -> AccessQueue {
    let mut queue = AccessQueue::new();
    queue.requests.push(
        user_id,
        AccessRequest {
            user_id,
            username: "pending-user".into(),
            message_preview: "please".into(),
            timestamp: "2026-05-28T20:26:40+00:00".into(),
        },
    );
    queue
}

#[test]
fn unknown_config_durability_retains_the_access_request_for_retry() {
    let mut queue = waiting(42);
    let name = begin_approval(&queue, 42).unwrap();
    let receipt = finish_approval(
        &mut queue,
        42,
        &name,
        &Ok(MutationOutcome {
            generation: 2,
            durability: ConfigDurability::Unknown {
                warning: "directory was not synced".into(),
            },
        }),
    );
    assert!(yes(&receipt, "ok"));
    assert_eq!(text(&receipt, "durability"), "unknown");
    assert!(yes(&receipt, "request_retained"));
    assert!(!text(&receipt, "warning").is_empty());
    assert!(
        queue.peek(42).is_some(),
        "unknown durability must preserve the durable retry handle"
    );
}

#[test]
fn durable_approvals_and_denials_end_the_request() {
    let mut queue = waiting(42);
    assert!(matches!(list_access_requests(&queue), Json::Object(_) | Json::Array(_)));
    let receipt = finish_approval(
        &mut queue,
        42,
        "pending-user",
        &Ok(MutationOutcome {
            generation: 2,
            durability: ConfigDurability::Durable,
        }),
    );
    assert!(!yes(&receipt, "request_retained"));
    assert!(queue.peek(42).is_none());

    let mut queue = waiting(42);
    let failed = finish_approval(&mut queue, 42, "pending-user", &Err("disk full".into()));
    assert_eq!(
        text(&failed, "error"),
        "failed to persist config: disk full"
    );
    assert!(queue.peek(42).is_some());
    assert!(yes(&deny_access(&mut queue, 42), "ok"));
    assert!(queue.peek(42).is_none());
    assert!(deny_access(&mut queue, 42).get("error").is_some());
    assert!(begin_approval(&queue, 42).is_err());
}

#[test]
fn those_who_still_wait_keep_their_order() {
    let queue_of = |ids: &[u64]| {
        let mut queue = AccessQueue::new();
        for id in ids {
            queue.requests.push(
                *id,
                AccessRequest {
                    user_id: *id,
                    username: format!("user-{id}"),
                    message_preview: "please".into(),
                    timestamp: "2026-05-28T20:26:40+00:00".into(),
                },
            );
        }
        queue
    };
    let shown = |queue: &AccessQueue| -> Vec<String> {
        list_access_requests(queue)
            .get("requests")
            .and_then(|v| v.as_array())
            .unwrap()
            .iter()
            .map(|r| text(r, "user_id").to_owned())
            .collect()
    };
    let mut queue = queue_of(&[5, 3, 9, 1]);
    assert!(yes(&deny_access(&mut queue, 3), "ok"));
    assert_eq!(shown(&queue), ["5", "9", "1"]);
    let durable = Ok(MutationOutcome {
        generation: 2,
        durability: ConfigDurability::Durable,
    });
    finish_approval(&mut queue, 5, "user-5", &durable);
    assert_eq!(shown(&queue), ["9", "1"]);
    finish_approval(&mut queue, 9, "user-9", &Err("disk full".into()));
    deny_access(&mut queue, 77);
    assert_eq!(shown(&queue), ["9", "1"]);
}

// ── Looking around ──────────────────────────────────────────────────────────

#[test]
fn listings_carry_ids_as_strings() {
    let guilds = list_guilds(&vec![GuildInfo {
        id: 1,
        name: "G".into(),
    }]);
    let channels = list_channels(&vec![ChannelInfo {
        id: 2,
        name: "C".into(),
        kind: "text".into(),
    }]);
    let roles = list_roles(&vec![RoleInfo {
        id: 3,
        name: "R".into(),
        position: 1,
        mentionable: true,
    }]);
    for (answer, key, id) in [
        (&guilds, "guilds", "1"),
        (&channels, "channels", "2"),
        (&roles, "roles", "3"),
    ] {
        let list = answer.get(key).and_then(|v| v.as_array()).unwrap();
        assert_eq!(list.len(), 1);
        assert_eq!(text(&list[0], "id"), id);
    }
}

#[test]
fn users_members_and_channels_are_shown() {
    let user = user_json(&UserInfo {
        id: 7,
        name: "u".into(),
        discriminator: None,
        bot: true,
    });
    assert_eq!(text(&user, "id"), "7");
    let member = member_json(&MemberInfo {
        user_id: 7,
        username: "u".into(),
        nick: None,
        roles: vec![8],
        joined_at: None,
    });
    assert_eq!(text(&member, "user_id"), "7");
    let channel = Channel::Guild {
        id: 9,
        name: "general".into(),
    };
    assert_eq!(channel_name(&channel), "general");
    assert_eq!(text(&get_channel(&channel), "id"), "9");
    assert_ne!(
        channel_kind_str(&channel),
        channel_kind_str(&Channel::Other { id: 9 })
    );
}

#[test]
fn listed_emojis_can_be_reacted_with() {
    let emojis = list_emojis(&vec![EmojiInfo {
        id: 123,
        name: "blob".into(),
        animated: true,
    }]);
    let list = emojis.get("emojis").and_then(|v| v.as_array()).unwrap();
    let Json::Object(fields) = &list[0] else {
        panic!("expected an object");
    };
    let tag = fields
        .iter()
        .find_map(|(_, v)| v.as_str().filter(|s| s.starts_with("<a:")))
        .expect("an emoji is listed with the text that reacts with it");
    assert_eq!(
        parse_reaction_type(tag),
        Ok(ReactionType::Custom {
            animated: true,
            id: 123,
            name: Some("blob".into()),
        })
    );
}

#[test]
fn diagnostics_answer() {
    assert_eq!(
        text(&set_trace_level("info", Ok(())), "channel_filter"),
        "info"
    );
    assert_eq!(
        text(&set_stderr_level("debug", Ok(())), "stderr_filter"),
        "debug"
    );
    assert_eq!(
        text(&set_trace_level("?", Err("bad filter".into())), "error"),
        "bad filter"
    );
    assert_eq!(text(&get_version("1.2.3"), "version"), "1.2.3");
}

// ── The journal's tools ─────────────────────────────────────────────────────

#[test]
fn journal_filters_are_read() {
    let filter = stats_filter(&at(), Some(1), Some("released"), Some("trivial"))
        .unwrap_or_else(|e| panic!("{e:?}"));
    assert_eq!(filter.outcome, Some(Outcome::Released));
    assert_eq!(filter.since, Timestamp::at(1_780_000_000 - 86_400, 0));
    assert_eq!(filter.pattern.as_deref(), Some("trivial"));
    match stats_filter(&at(), None, Some("gone"), None) {
        Ok(_) => panic!("expected an error"),
        Err(e) => assert_eq!(
            text(&e, "error"),
            "invalid outcome: gone; must be one of: released, rephrased, expired"
        ),
    }
    assert!(stats_filter(&at(), Some(u64::MAX), None, None).is_err());
    assert_eq!(
        cutoff(&at(), None, 2).ok(),
        Timestamp::at(1_780_000_000 - 172_800, 0)
    );
    assert!(cutoff(&at(), Some(u64::MAX), 2).is_err());
}

#[test]
fn journal_reports_are_answered() {
    let stats = JournalScan::empty().stats(&StatsFilter::default());
    let answer = stats_json(&stats, 4);
    assert_eq!(answer.get("bounces"), Some(&Json::Unsigned(0)));
    assert!(answer.get("latency").is_none());
    let condensed = condense_json(&CondenseReport {
        condensed_bounces: 2,
        summaries: 1,
        kept_bounces: 3,
        bytes_before: 100,
        bytes_after: 50,
    });
    assert_eq!(
        condensed.get("condensed_bounces"),
        Some(&Json::Unsigned(2))
    );
    let vacuumed = vacuum_json(&VacuumReport {
        dropped_summaries: 1,
        dropped_malformed: 2,
        kept: 3,
        bytes_before: 100,
        bytes_after: 50,
    });
    assert_eq!(
        vacuumed.get("dropped_malformed"),
        Some(&Json::Unsigned(2))
    );
}

// ── Permissions ─────────────────────────────────────────────────────────────

#[test]
fn only_administrators_answer_for_permissions() {
    match permission_prompt(&vec![], "r1", "tool", "d", "i") {
        Err(e) => assert_eq!(e, PermissionError::NoAdmins),
        Ok(_) => panic!("nobody can be asked"),
    }
    let prompt = permission_prompt(&vec![9], "r1", "tool", "does it", "{}")
        .unwrap_or_else(|e| panic!("{}", e.to_string()));
    assert_eq!(
        prompt.content,
        "**Permission request** — tool `tool`\nDescription: does it\nInput preview:\n```\n{}\n```\nRequest ID: `r1`"
    );
    assert_eq!(prompt.allow_id, "perm:allow:r1");
    assert_eq!(prompt.deny_id, "perm:deny:r1");

    let mut pending = PendingPermissions::new();
    pending.note_asked(100, 42, "r1", at());
    let admins = vec![9];
    assert_eq!(
        validate_response(&pending, &admins, 100, 9),
        Ok("r1".to_string())
    );
    assert_eq!(
        validate_response(&pending, &admins, 100, 8),
        Err(PermissionError::NotAdmin)
    );
    assert_eq!(
        validate_response(&pending, &admins, 101, 9),
        Err(PermissionError::NotFound)
    );
    assert_eq!(
        PermissionError::Http("boom".into()).to_string(),
        "Discord HTTP error: boom"
    );
}

// ── Notifications ───────────────────────────────────────────────────────────

#[test]
fn a_full_queue_drops_the_oldest_and_warns_once() {
    let mut queue: NotificationQueue<u32> = NotificationQueue::new(2);
    assert!(queue.drain_ready().is_none());
    assert!(matches!(queue.drain_at_deadline(), QueueDrain::TimedOut));
    let first = queue.push(1);
    assert!(first.accepted && !first.warn);
    queue.push(2);
    let third = queue.push(3);
    assert!(third.accepted && third.warn);
    assert!(!queue.push(4).warn);
    match queue.drain_ready() {
        Some(QueueDrain::Notifications(list)) => assert_eq!(list, vec![3, 4]),
        _ => panic!("expected the latest notifications"),
    }
}

#[test]
fn a_closed_queue_hands_out_what_it_has() {
    let mut queue: NotificationQueue<u32> = NotificationQueue::new(2);
    queue.push(1);
    queue.close();
    assert!(!queue.push(2).accepted);
    match queue.drain_ready() {
        Some(QueueDrain::Notifications(list)) => assert_eq!(list, vec![1]),
        _ => panic!("expected what came in before"),
    }
    assert!(matches!(queue.drain_ready(), Some(QueueDrain::Closed)));
    assert!(matches!(queue.drain_at_deadline(), QueueDrain::Closed));
    assert_eq!(TransportMode::default(), TransportMode::ClaudeCode);
}
