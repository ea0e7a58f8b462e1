//! The tools for the journal of bounces.

use vstd::prelude::*;
use crate::clock::{self, Timestamp};
use crate::json::{self, Json, JsonView, Object};
use crate::no_rly::journal::{
    self, CondenseReport, JournalStats, LatencyStats, Outcome, StatsFilter, Tally, VacuumReport,
};

verus! {

/// The time so many days ago, where the calendar has it.
pub fn days_ago(now: &Timestamp, days: u64) -> (r: Option<Timestamp>)
    ensures
        r is Some <==> clock::secs_in_range(now.unix_secs() - days * 86_400),
        r matches Some(t) ==> t.unix_secs() == now.unix_secs() - days * 86_400 && t.subsec()
            == now.subsec(),
{
    now.minus_days(days)
}

/// Whether a word stands for an outcome.
pub open spec fn names_outcome(word: Seq<char>) -> bool {
    exists|outcome: Outcome| word == #[trigger] journal::outcome_text(outcome)
}

/// Reads what the statistics are asked for, or says what is wrong with it.
pub fn stats_filter(
    now: &Timestamp,
    since_days: Option<u64>,
    outcome: Option<&str>,
    pattern: Option<&str>,
) -> (r: Result<StatsFilter, Json>)
    ensures
        if outcome matches Some(word) && !names_outcome(word@) {
            r matches Err(e) && e@ == json::error_view(
                "invalid outcome: "@ + outcome->0@
                    + "; must be one of: released, rephrased, expired"@,
            )
        } else if since_days matches Some(days) && !clock::secs_in_range(
            now.unix_secs() - days * 86_400,
        ) {
            r matches Err(e) && e@ == json::error_view("since_days is out of range"@)
        } else {
            &&& r matches Ok(filter)
            &&& match since_days {
                Some(days) => filter.since matches Some(t) && t.unix_secs() == now.unix_secs()
                    - days * 86_400 && t.subsec() == now.subsec(),
                None => filter.since is None,
            }
            &&& match outcome {
                Some(word) => filter.outcome matches Some(o) && journal::outcome_text(o) == word@,
                None => filter.outcome is None,
            }
            &&& match pattern {
                Some(p) => filter.pattern matches Some(q) && q@ == p@,
                None => filter.pattern is None,
            }
        },
{
    let mut wanted: Option<Outcome> = None;
    if let Some(word) = outcome {
        match Outcome::parse(word) {
            Some(o) => {
                assert(word@ == journal::outcome_text(o));
                wanted = Some(o);
            },
            None => {
                let mut message: String = "invalid outcome: ".to_owned();
                message.append(word);
                message.append("; must be one of: released, rephrased, expired");
                return Err(Json::error(message));
            },
        }
    }
    let mut since: Option<Timestamp> = None;
    if let Some(days) = since_days {
        match days_ago(now, days) {
            Some(t) => {
                since = Some(t);
            },
            None => {
                return Err(Json::error("since_days is out of range".to_owned()));
            },
        }
    }
    let pattern: Option<String> = match pattern {
        Some(p) => Some(p.to_owned()),
        None => None,
    };
    Ok(StatsFilter { since, outcome: wanted, pattern })
}

/// The cutoff of a clean-up: so many days ago, else the default.
pub fn cutoff(now: &Timestamp, older_than_days: Option<u64>, default_days: u32) -> (r: Result<
    Timestamp,
    Json,
>)
    ensures
        ({
            let days = match older_than_days {
                Some(d) => d as int,
                None => default_days as int,
            };
            if clock::secs_in_range(now.unix_secs() - days * 86_400) {
                r matches Ok(t) && t.unix_secs() == now.unix_secs() - days * 86_400 && t.subsec()
                    == now.subsec()
            } else {
                r matches Err(e) && e@ == json::error_view("older_than_days is out of range"@)
            }
        }),
{
    let days: u64 = match older_than_days {
        Some(d) => d,
        None => default_days as u64,
    };
    match days_ago(now, days) {
        Some(t) => Ok(t),
        None => Err(Json::error("older_than_days is out of range".to_owned())),
    }
}

/// Counts as JSON, in the order of the words.
pub open spec fn tally_view(entries: Seq<(String, u64)>) -> JsonView {
    JsonView::Object(
        entries.map_values(|e: (String, u64)| (e.0@, JsonView::Unsigned(e.1))),
    )
}

fn tally_json(tally: &Tally) -> (r: Json)
    ensures
        r@ == tally_view(tally.counts.entries@),
{
    broadcast use json::lemma_json_view;

    let ghost entries = tally.counts.entries@;
    let ghost shown = |e: (String, u64)| (e.0@, JsonView::Unsigned(e.1));
    let mut out: Object = Object::new();
    let mut i: usize = 0;
    assert(out.fields() =~= entries.take(0).map_values(shown));
    while i < tally.counts.entries.len()
        invariant
            entries == tally.counts.entries@,
            i <= entries.len(),
            shown == (|e: (String, u64)| (e.0@, JsonView::Unsigned(e.1))),
            out.fields() == entries.take(i as int).map_values(shown),
        decreases entries.len() - i,
    {
        broadcast use json::lemma_json_view;

        let name: &String = &tally.counts.entries[i].0;
        let count: u64 = tally.counts.entries[i].1;
        out.put(name.as_str(), Json::Unsigned(count));
        assert(entries.take(i + 1).map_values(shown) =~= entries.take(i as int).map_values(
            shown,
        ).push(shown(entries[i as int])));
        i = i + 1;
    }
    assert(entries.take(entries.len() as int) =~= entries);
    out.done()
}

/// Latencies as JSON.
pub open spec fn latency_view(l: LatencyStats) -> JsonView {
    JsonView::Object(
        seq![
            ("min_ms"@, JsonView::Unsigned(l.min_ms)),
            ("p50_ms"@, JsonView::Unsigned(l.p50_ms)),
            ("mean_ms"@, JsonView::Unsigned(l.mean_ms)),
            ("max_ms"@, JsonView::Unsigned(l.max_ms)),
        ],
    )
}

fn latency_json(l: &LatencyStats) -> (r: Json)
    ensures
        r@ == latency_view(*l),
{
    broadcast use json::lemma_json_view;

    let mut out: Object = Object::new();
    out.put("min_ms", Json::Unsigned(l.min_ms));
    out.put("p50_ms", Json::Unsigned(l.p50_ms));
    out.put("mean_ms", Json::Unsigned(l.mean_ms));
    out.put("max_ms", Json::Unsigned(l.max_ms));
    assert(out.fields() =~= latency_view(*l)->Object_0);
    out.done()
}

/// The statistics as JSON, with how many messages are held.
pub open spec fn stats_view(stats: JournalStats, pending: nat) -> JsonView {
    let first = seq![
        ("bounces"@, JsonView::Unsigned(stats.bounces)),
        ("by_outcome"@, tally_view(stats.by_outcome.counts.entries@)),
        ("by_pattern"@, tally_view(stats.by_pattern.counts.entries@)),
    ];
    let timed = match stats.latency {
        Some(l) => first.push(("latency"@, latency_view(l))),
        None => first,
    };
    JsonView::Object(
        timed + seq![
            ("chained"@, JsonView::Unsigned(stats.chained)),
            ("dangling_parents"@, JsonView::Unsigned(stats.dangling_parents)),
            ("summaries"@, JsonView::Unsigned(stats.summaries)),
            ("summarized_bounces"@, JsonView::Unsigned(stats.summarized_bounces)),
            ("malformed_lines"@, JsonView::Unsigned(stats.malformed_lines)),
            ("pending"@, JsonView::Unsigned(pending as u64)),
        ],
    )
}

/// What the statistics are answered with. Latencies are left out where there are
/// none.
pub fn stats_json(stats: &JournalStats, pending: usize) -> (r: Json)
    ensures
        r@ == stats_view(*stats, pending as nat),
{
    broadcast use json::lemma_json_view;

    let mut out: Object = Object::new();
    out.put("bounces", Json::Unsigned(stats.bounces));
    out.put("by_outcome", tally_json(&stats.by_outcome));
    out.put("by_pattern", tally_json(&stats.by_pattern));
    if let Some(l) = &stats.latency {
        out.put("latency", latency_json(l));
    }
    out.put("chained", Json::Unsigned(stats.chained));
    out.put("dangling_parents", Json::Unsigned(stats.dangling_parents));
    out.put("summaries", Json::Unsigned(stats.summaries));
    out.put("summarized_bounces", Json::Unsigned(stats.summarized_bounces));
    out.put("malformed_lines", Json::Unsigned(stats.malformed_lines));
    out.put("pending", Json::Unsigned(pending as u64));
    assert(out.fields() =~= stats_view(*stats, pending as nat)->Object_0);
    out.done()
}

/// What condensing is answered with.
pub open spec fn condense_view(report: CondenseReport) -> JsonView {
    JsonView::Object(
        seq![
            ("condensed_bounces"@, JsonView::Unsigned(report.condensed_bounces)),
            ("summaries"@, JsonView::Unsigned(report.summaries)),
            ("kept_bounces"@, JsonView::Unsigned(report.kept_bounces)),
            ("bytes_before"@, JsonView::Unsigned(report.bytes_before)),
            ("bytes_after"@, JsonView::Unsigned(report.bytes_after)),
        ],
    )
}

/// What condensing is answered with.
pub fn condense_json(report: &CondenseReport) -> (r: Json)
    ensures
        r@ == condense_view(*report),
{
    broadcast use json::lemma_json_view;

    let mut out: Object = Object::new();
    out.put("condensed_bounces", Json::Unsigned(report.condensed_bounces));
    out.put("summaries", Json::Unsigned(report.summaries));
    out.put("kept_bounces", Json::Unsigned(report.kept_bounces));
    out.put("bytes_before", Json::Unsigned(report.bytes_before));
    out.put("bytes_after", Json::Unsigned(report.bytes_after));
    assert(out.fields() =~= condense_view(*report)->Object_0);
    out.done()
}

/// What vacuuming is answered with.
pub open spec fn vacuum_view(report: VacuumReport) -> JsonView {
    JsonView::Object(
        seq![
            ("dropped_summaries"@, JsonView::Unsigned(report.dropped_summaries)),
            ("dropped_malformed"@, JsonView::Unsigned(report.dropped_malformed)),
            ("kept"@, JsonView::Unsigned(report.kept)),
            ("bytes_before"@, JsonView::Unsigned(report.bytes_before)),
            ("bytes_after"@, JsonView::Unsigned(report.bytes_after)),
        ],
    )
}

/// What vacuuming is answered with.
pub fn vacuum_json(report: &VacuumReport) -> (r: Json)
    ensures
        r@ == vacuum_view(*report),
{
    broadcast use json::lemma_json_view;

    let mut out: Object = Object::new();
    out.put("dropped_summaries", Json::Unsigned(report.dropped_summaries));
    out.put("dropped_malformed", Json::Unsigned(report.dropped_malformed));
    out.put("kept", Json::Unsigned(report.kept));
    out.put("bytes_before", Json::Unsigned(report.bytes_before));
    out.put("bytes_after", Json::Unsigned(report.bytes_after));
    assert(out.fields() =~= vacuum_view(*report)->Object_0);
    out.done()
}

/// Each count of the journal is told under its own name, and the latencies only where
/// there are any.
pub proof fn law_counts_are_told_by_name(stats: JournalStats, pending: nat)
    ensures
        stats_view(stats, pending) matches JsonView::Object(fields) && {
            &&& fields[0] == ("bounces"@, JsonView::Unsigned(stats.bounces))
            &&& fields[1] == ("by_outcome"@, tally_view(stats.by_outcome.counts.entries@))
            &&& fields[2] == ("by_pattern"@, tally_view(stats.by_pattern.counts.entries@))
            &&& fields.len() == if stats.latency is Some {
                10int
            } else {
                9
            }
            &&& stats.latency matches Some(l) ==> fields[3] == (
                "latency"@,
                JsonView::Object(
                    seq![
                        ("min_ms"@, JsonView::Unsigned(l.min_ms)),
                        ("p50_ms"@, JsonView::Unsigned(l.p50_ms)),
                        ("mean_ms"@, JsonView::Unsigned(l.mean_ms)),
                        ("max_ms"@, JsonView::Unsigned(l.max_ms)),
                    ],
                ),
            )
            &&& fields[fields.len() - 6] == ("chained"@, JsonView::Unsigned(stats.chained))
            &&& fields[fields.len() - 5] == (
                "dangling_parents"@,
                JsonView::Unsigned(stats.dangling_parents),
            )
            &&& fields[fields.len() - 4] == ("summaries"@, JsonView::Unsigned(stats.summaries))
            &&& fields[fields.len() - 3] == (
                "summarized_bounces"@,
                JsonView::Unsigned(stats.summarized_bounces),
            )
            &&& fields[fields.len() - 2] == (
                "malformed_lines"@,
                JsonView::Unsigned(stats.malformed_lines),
            )
            &&& fields[fields.len() - 1] == ("pending"@, JsonView::Unsigned(pending as u64))
        },
{
}

/// A tally tells each word with its count.
pub proof fn law_tallies_tell_each_word(entries: Seq<(String, u64)>, i: int)
    requires
        0 <= i < entries.len(),
    ensures
        tally_view(entries) matches JsonView::Object(fields) && fields.len() == entries.len()
            && fields[i] == (entries[i].0@, JsonView::Unsigned(entries[i].1)),
{
}

/// What condensing and vacuuming did is told number by number.
pub proof fn law_upkeep_is_told_by_name(condensed: CondenseReport, vacuumed: VacuumReport)
    ensures
        condense_view(condensed) == JsonView::Object(
            seq![
                ("condensed_bounces"@, JsonView::Unsigned(condensed.condensed_bounces)),
                ("summaries"@, JsonView::Unsigned(condensed.summaries)),
                ("kept_bounces"@, JsonView::Unsigned(condensed.kept_bounces)),
                ("bytes_before"@, JsonView::Unsigned(condensed.bytes_before)),
                ("bytes_after"@, JsonView::Unsigned(condensed.bytes_after)),
            ],
        ),
        vacuum_view(vacuumed) == JsonView::Object(
            seq![
                ("dropped_summaries"@, JsonView::Unsigned(vacuumed.dropped_summaries)),
                ("dropped_malformed"@, JsonView::Unsigned(vacuumed.dropped_malformed)),
                ("kept"@, JsonView::Unsigned(vacuumed.kept)),
                ("bytes_before"@, JsonView::Unsigned(vacuumed.bytes_before)),
                ("bytes_after"@, JsonView::Unsigned(vacuumed.bytes_after)),
            ],
        ),
{
}

/// There are three words for how a bounce ended.
pub proof fn law_outcomes_have_three_words(word: Seq<char>)
    ensures
        names_outcome(word) <==> word == "released"@ || word == "rephrased"@ || word == "expired"@,
        journal::outcome_text(Outcome::Released) == "released"@,
        journal::outcome_text(Outcome::Rephrased) == "rephrased"@,
        journal::outcome_text(Outcome::Expired) == "expired"@,
{
    assert(journal::outcome_text(Outcome::Released) == "released"@);
    assert(journal::outcome_text(Outcome::Rephrased) == "rephrased"@);
    assert(journal::outcome_text(Outcome::Expired) == "expired"@);
}

/// The cutoff lies as many days back as was asked for, or as many as there are by default
/// where nothing was asked for.
pub proof fn law_cutoffs_lie_days_back(
    now: &Timestamp,
    older_than_days: Option<u64>,
    default_days: u32,
    r: Result<Timestamp, Json>,
)
    requires
        call_ensures(cutoff, (now, older_than_days, default_days), r),
    ensures
        older_than_days matches Some(d) ==> (r matches Ok(t) ==> now.unix_secs() - t.unix_secs() == d
            * 24 * 60 * 60 && t.subsec() == now.subsec()),
        older_than_days is None ==> (r matches Ok(t) ==> now.unix_secs() - t.unix_secs()
            == default_days * 24 * 60 * 60 && t.subsec() == now.subsec()),
{
}

/// The filter of the statistics asks for what was asked for.
pub proof fn law_filters_ask_for_what_was_asked(
    now: &Timestamp,
    since_days: Option<u64>,
    outcome: Option<&str>,
    pattern: Option<&str>,
    r: Result<StatsFilter, Json>,
)
    requires
        call_ensures(stats_filter, (now, since_days, outcome, pattern), r),
    ensures
        r matches Ok(filter) ==> {
            &&& filter.since is Some <==> since_days is Some
            &&& since_days is Some ==> now.unix_secs() - filter.since->0.unix_secs()
                == since_days->0 * 24 * 60 * 60
            &&& filter.outcome is Some <==> outcome is Some
            &&& outcome is Some ==> journal::outcome_text(filter.outcome->0) == outcome->0@
            &&& filter.pattern is Some <==> pattern is Some
            &&& pattern is Some ==> filter.pattern->0@ == pattern->0@
        },
        since_days is None && outcome is None ==> r is Ok,
{
}

} // verus!
