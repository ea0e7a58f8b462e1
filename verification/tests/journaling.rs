use chrono::{DateTime, TimeZone, Utc};
use dione::clock::Timestamp;
use dione::no_rly::journal::{
    file_lines, file_text, BounceRecord, JournalRecord, JournalScan, Outcome, ReadLine,
    ResolvedBounce, StatsFilter, SummaryRecord,
    JOURNAL_MAX_MESSAGE_LEN,
};
use dione::no_rly::judge::{ReasonEntry, RejectReason};
use dione::no_rly::queue::HoldHandle;

fn time(text: &str) -> Timestamp {
    let t = DateTime::parse_from_rfc3339(text).unwrap();
    Timestamp::at(t.timestamp(), t.timestamp_subsec_nanos()).unwrap()
}

fn day(y: i32, m: u32, d: u32) -> Timestamp {
    let t = Utc.with_ymd_and_hms(y, m, d, 0, 0, 0).unwrap();
    Timestamp::at(t.timestamp(), 0).unwrap()
}

fn reason(pattern: &str) -> RejectReason {
    RejectReason {
        matches: vec![ReasonEntry {
            pattern: pattern.into(),
            reason: Some("test reason".into()),
        }],
    }
}

fn record(handle: &str, outcome: Outcome, resolved_at: &str, latency_ms: u64) -> JournalRecord {
    JournalRecord::Bounce(BounceRecord {
        handle: HoldHandle::new(handle),
        parent: None,
        message: "held text".into(),
        reason: reason("straightforward"),
        outcome,
        replacement: None,
        bounced_at: time("2026-07-07T10:00:00+00:00"),
        resolved_at: time(resolved_at),
        latency_ms,
    })
}

fn child_of(record: JournalRecord, parent: &str) -> JournalRecord {
    match record {
        JournalRecord::Bounce(mut b) => {
            b.parent = Some(HoldHandle::new(parent));
            JournalRecord::Bounce(b)
        }
        JournalRecord::Summary(_) => panic!("expected bounce"),
    }
}

fn scan(records: Vec<JournalRecord>) -> JournalScan {
    let scan = JournalScan {
        records,
        malformed: vec![],
    };
    assert!(scan.is_tallyable());
    assert!(scan.is_foldable(day(2026, 6, 1), day(2026, 8, 1)));
    scan
}

#[test]
fn outcome_wire_forms_agree_with_serde() {
    for (outcome, word) in [
        (Outcome::Released, "released"),
        (Outcome::Rephrased, "rephrased"),
        (Outcome::Expired, "expired"),
    ] {
        assert_eq!(outcome.as_str(), word);
        assert_eq!(
            Outcome::parse(outcome.as_str()),
            Some(outcome),
            "parse must be the inverse of as_str"
        );
    }
    assert_eq!(Outcome::parse("Released"), None, "wire forms are lowercase");
}

#[test]
fn stats_aggregates_counts_and_latency() {
    let journal = scan(vec![
        record("nr-0001-1", Outcome::Released, "2026-07-07T10:00:02+00:00", 2000),
        record("nr-0001-2", Outcome::Released, "2026-07-07T11:00:04+00:00", 4000),
        record("nr-0001-3", Outcome::Expired, "2026-07-07T12:03:00+00:00", 180_000),
    ]);
    let stats = journal.stats(&StatsFilter::default());
    assert_eq!(stats.bounces, 3);
    assert_eq!(stats.by_outcome.get("released"), Some(2));
    assert_eq!(stats.by_outcome.get("expired"), Some(1));
    assert_eq!(stats.by_outcome.get("rephrased"), None);
    assert_eq!(stats.by_pattern.get("straightforward"), Some(3));
    let latency = stats.latency.unwrap();
    assert_eq!(latency.min_ms, 2000);
    assert_eq!(latency.max_ms, 180_000);
    assert_eq!(latency.mean_ms, 62_000);
    assert_eq!(latency.p50_ms, 4000);
    assert_eq!(stats.malformed_lines, 0);
}

#[test]
fn stats_filters_by_outcome_and_since() {
    let journal = scan(vec![
        record("nr-0001-1", Outcome::Released, "2026-07-01T10:00:00+00:00", 1000),
        record("nr-0001-2", Outcome::Expired, "2026-07-07T10:00:00+00:00", 2000),
    ]);
    let by_outcome = journal.stats(&StatsFilter {
        outcome: Some(Outcome::Expired),
        ..Default::default()
    });
    assert_eq!(by_outcome.bounces, 1);

    let since = journal.stats(&StatsFilter {
        since: Some(day(2026, 7, 5)),
        ..Default::default()
    });
    assert_eq!(since.bounces, 1);

    let by_pattern = journal.stats(&StatsFilter {
        pattern: Some("trivial".into()),
        ..Default::default()
    });
    assert_eq!(by_pattern.bounces, 0);
}

#[test]
fn stats_reports_chains_and_dangling_parents() {
    let journal = scan(vec![
        record("nr-0001-1", Outcome::Rephrased, "2026-07-07T10:00:00+00:00", 1000),
        child_of(
            record("nr-0001-2", Outcome::Released, "2026-07-07T10:01:00+00:00", 500),
            "nr-0001-1",
        ),
        child_of(
            record("nr-0001-9", Outcome::Released, "2026-07-07T10:02:00+00:00", 500),
            "nr-dead-1",
        ),
    ]);
    let stats = journal.stats(&StatsFilter::default());
    assert_eq!(stats.chained, 2);
    assert_eq!(stats.dangling_parents, 1);
}

#[test]
fn condense_folds_old_bounces_and_keeps_new() {
    let journal = scan(vec![
        record("nr-0001-1", Outcome::Released, "2026-01-01T10:00:00+00:00", 2000),
        record("nr-0001-2", Outcome::Released, "2026-01-01T11:00:00+00:00", 4000),
        record("nr-0001-3", Outcome::Released, "2026-07-07T10:00:00+00:00", 1000),
    ]);
    let report = journal.condense(day(2026, 6, 1), day(2026, 8, 1));
    assert_eq!(report.condensed_bounces, 2);
    assert_eq!(report.summaries, 1);
    assert_eq!(report.kept_bounces, 1);

    let summaries: Vec<&SummaryRecord> = report
        .records
        .iter()
        .filter_map(|r| match r {
            JournalRecord::Summary(s) => Some(s),
            JournalRecord::Bounce(_) => None,
        })
        .collect();
    assert_eq!(summaries.len(), 1);
    assert_eq!(summaries[0].date, "2026-01-01");
    assert_eq!(summaries[0].count, 2);
    assert_eq!(summaries[0].latency_ms_total, 6000);
    assert_eq!(summaries[0].latency_ms_max, 4000);
    assert_eq!(summaries[0].patterns, "straightforward");
}

#[test]
fn condense_merges_into_existing_summaries() {
    let journal = scan(vec![record(
        "nr-0001-1",
        Outcome::Released,
        "2026-01-01T10:00:00+00:00",
        2000,
    )]);
    let cutoff = day(2026, 6, 1);
    let mut records = journal.condense(cutoff, day(2026, 8, 1)).records;

    records.push(record(
        "nr-0001-2",
        Outcome::Released,
        "2026-01-01T12:00:00+00:00",
        6000,
    ));
    let report = scan(records).condense(cutoff, day(2026, 8, 2));
    assert_eq!(
        report.summaries, 1,
        "same-key summaries must merge, not duplicate"
    );
    match &report.records[0] {
        JournalRecord::Summary(s) => {
            assert_eq!(s.count, 2);
            assert_eq!(s.latency_ms_total, 8000);
            assert_eq!(s.latency_ms_max, 6000);
        }
        other => panic!("expected summary first, got {other:?}"),
    }
}

#[test]
fn vacuum_drops_old_summaries_and_malformed() {
    let journal = JournalScan {
        records: vec![
            JournalRecord::Summary(SummaryRecord {
                date: "2024-01-01".into(),
                patterns: "straightforward".into(),
                outcome: Outcome::Released,
                count: 5,
                latency_ms_total: 10_000,
                latency_ms_max: 4000,
                condensed_at: time("2025-01-01T00:00:00+00:00"),
            }),
            record("nr-0001-1", Outcome::Released, "2026-07-07T10:00:00+00:00", 1000),
        ],
        malformed: vec!["corrupt line".to_string()],
    };
    let report = journal.vacuum(day(2026, 1, 1));
    assert_eq!(report.dropped_summaries, 1);
    assert_eq!(report.dropped_malformed, 1);
    assert_eq!(report.records.len(), 1);
    assert!(matches!(report.records[0], JournalRecord::Bounce(_)));
}

#[test]
fn vacuum_never_drops_raw_bounces() {
    let journal = scan(vec![record(
        "nr-0001-1",
        Outcome::Expired,
        "2020-01-01T10:00:00+00:00",
        1000,
    )]);
    let report = journal.vacuum(day(2026, 1, 1));
    assert_eq!(
        report.records.len(),
        1,
        "raw retention is condense's job, not vacuum's"
    );
}

#[test]
fn maintenance_on_missing_file_reports_zeros() {
    let cutoff = day(2026, 1, 1);
    let condense = JournalScan::empty().condense(cutoff, cutoff);
    assert_eq!(condense.condensed_bounces, 0);
    let vacuum = JournalScan::empty().vacuum(cutoff);
    assert_eq!(vacuum.records.len(), 0);
    let stats = JournalScan::empty().stats(&StatsFilter::default());
    assert_eq!(stats.bounces, 0);
    assert!(stats.latency.is_none());
}

#[test]
fn a_summary_without_a_readable_date_counts_as_old() {
    let journal = scan(vec![JournalRecord::Summary(SummaryRecord {
        date: "some day".into(),
        patterns: "trivial".into(),
        outcome: Outcome::Expired,
        count: 1,
        latency_ms_total: 1,
        latency_ms_max: 1,
        condensed_at: day(2025, 1, 1),
    })]);
    assert_eq!(journal.vacuum(day(2026, 1, 1)).dropped_summaries, 1);
}

#[test]
fn totals_that_do_not_fit_are_told() {
    let journal = JournalScan {
        records: vec![
            record("nr-0001-1", Outcome::Released, "2026-01-01T10:00:00+00:00", u64::MAX),
            record("nr-0001-2", Outcome::Released, "2026-01-01T10:00:00+00:00", 1),
        ],
        malformed: vec![],
    };
    assert!(!journal.is_foldable(day(2026, 6, 1), day(2026, 8, 1)));
    assert!(
        journal.is_foldable(day(2025, 6, 1), day(2026, 8, 1)),
        "bounces that are kept are not added up"
    );
    assert!(journal.is_tallyable(), "latencies are averaged, not totalled");
    let latency = journal.stats(&StatsFilter::default()).latency.unwrap();
    assert_eq!(latency.mean_ms, 1 << 63);
    let summary = |date: &str, count| {
        JournalRecord::Summary(SummaryRecord {
            date: date.into(),
            patterns: "straightforward".into(),
            outcome: Outcome::Released,
            count,
            latency_ms_total: 1,
            latency_ms_max: 1,
            condensed_at: day(2026, 1, 1),
        })
    };
    let journal = JournalScan {
        records: vec![summary("2026-01-01", u64::MAX), summary("2026-01-01", 1)],
        malformed: vec![],
    };
    assert!(!journal.is_foldable(day(2026, 6, 1), day(2026, 8, 1)));
    assert!(!journal.is_tallyable());
    let journal = JournalScan {
        records: vec![summary("2026-01-01", u64::MAX), summary("2026-01-02", 1)],
        malformed: vec![],
    };
    assert!(
        journal.is_foldable(day(2026, 6, 1), day(2026, 8, 1)),
        "summaries of different kinds are not added up"
    );
    assert_eq!(journal.condense(day(2026, 6, 1), day(2026, 8, 1)).summaries, 2);
}

#[test]
fn bounce_record_truncates_long_messages() {
    let long = "x".repeat(JOURNAL_MAX_MESSAGE_LEN + 100);
    let rec = ResolvedBounce {
        handle: "nr-0001-1",
        parent: None,
        message: &long,
        reason: reason("straightforward"),
        outcome: Outcome::Released,
        replacement: Some(&long),
        bounced_at: time("2026-07-07T10:00:00+00:00"),
        latency_ms: 1000,
    }
    .into_record();
    let JournalRecord::Bounce(b) = rec else {
        panic!("expected bounce");
    };
    assert_eq!(b.message.chars().count(), JOURNAL_MAX_MESSAGE_LEN + 1);
    assert!(b.message.ends_with('\u{2026}'));
    assert_eq!(
        b.replacement.unwrap().chars().count(),
        JOURNAL_MAX_MESSAGE_LEN + 1
    );
}

#[test]
fn malformed_lines_are_kept_and_counted() {
    let scan = JournalScan::read(vec![
        ReadLine {
            line: "{}".into(),
            record: Some(record("nr-0001-1", Outcome::Expired, "2026-07-07T10:03:00+00:00", 180_000)),
        },
        ReadLine {
            line: "{not json}".into(),
            record: None,
        },
    ]);
    assert_eq!(scan.records.len(), 1);
    assert_eq!(scan.malformed, vec!["{not json}".to_string()]);
    assert!(scan.is_tallyable());
    assert_eq!(scan.stats(&StatsFilter::default()).malformed_lines, 1);
}

#[test]
fn condense_preserves_malformed_lines() {
    let scan = JournalScan::read(vec![
        ReadLine {
            line: "{}".into(),
            record: Some(record("nr-0001-1", Outcome::Released, "2026-01-01T10:00:00+00:00", 2000)),
        },
        ReadLine {
            line: "corrupt line".into(),
            record: None,
        },
    ]);
    assert!(scan.is_foldable(day(2026, 6, 1), day(2026, 8, 1)));
    let condensed = scan.condense(day(2026, 6, 1), day(2026, 8, 1));
    assert_eq!(
        condensed.malformed,
        vec!["corrupt line".to_string()],
        "condense must not silently destroy unparseable data"
    );
}

#[test]
fn written_journals_are_read_back() {
    let records = vec!["{\"a\":1}".to_string(), "{\"b\":2}".to_string()];
    let malformed = vec!["  corrupt line".to_string()];
    let text = file_text(&records, &malformed);
    assert_eq!(text, "{\"a\":1}\n{\"b\":2}\n  corrupt line\n");
    assert_eq!(
        file_lines(&text),
        vec!["{\"a\":1}", "{\"b\":2}", "  corrupt line"]
    );
    assert_eq!(file_lines("\n  \nx\r\n\n"), vec!["x"]);
    assert!(file_lines("").is_empty());
}

#[test]
fn condensing_again_changes_nothing() {
    let records = || {
        vec![
            record("nr-0001-1", Outcome::Released, "2026-01-02T10:00:00+00:00", 2000),
            record("nr-0001-2", Outcome::Expired, "2026-01-01T11:00:00+00:00", 4000),
            record("nr-0001-3", Outcome::Released, "2026-01-02T12:00:00+00:00", 1000),
            record("nr-0001-4", Outcome::Released, "2026-07-07T10:00:00+00:00", 1000),
        ]
    };
    let cutoff = day(2026, 6, 1);
    let once = scan(records()).condense(cutoff, day(2026, 8, 1)).records;
    let again = scan(scan(records()).condense(cutoff, day(2026, 8, 1)).records)
        .condense(cutoff, day(2026, 9, 1));
    assert_eq!(again.condensed_bounces, 0);
    assert_eq!(again.summaries, 2);
    assert_eq!(again.kept_bounces, 1);
    assert_eq!(again.records, once);
}

#[test]
fn the_first_day_has_a_date() {
    let first = Timestamp::at(-8_334_601_228_800, 0).unwrap();
    assert_eq!(Timestamp::at(-8_334_601_228_801, 0), None);
    assert_eq!(first.to_rfc3339(), "-262143-01-01T00:00:00+00:00");
    let mut old = record("nr-0001-1", Outcome::Released, "2026-01-01T10:00:00+00:00", 1);
    match &mut old {
        JournalRecord::Bounce(b) => b.resolved_at = first,
        JournalRecord::Summary(_) => panic!("expected bounce"),
    }
    let condensed = scan(vec![old]).condense(day(2026, 6, 1), day(2026, 8, 1));
    match &condensed.records[0] {
        JournalRecord::Summary(s) => assert_eq!(s.date, "-262143-01-01"),
        other => panic!("expected summary, got {other:?}"),
    }
}
