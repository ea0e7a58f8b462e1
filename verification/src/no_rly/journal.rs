//! The audit journal of the consent gate.
//!
//! Every bounce ends here exactly once, when its outcome is known. Raw records
//! can be condensed into per-day summaries, which keep counts and latencies but
//! not texts, and old summaries can be vacuumed. What is computed on the records
//! is here; reading and writing the file is not.

use vstd::prelude::*;
use crate::clock::{self, Timestamp, FIRST_DAY};
use crate::no_rly::judge::{self, ReasonView, RejectReason};
use crate::no_rly::queue::{self, HoldHandle};
use crate::table::{self, Key, OrderedKey, Slot, Sorted};
use crate::text::{self, Rank};

verus! {

/// The name of the journal's file in the state directory.
pub const JOURNAL_FILE_NAME: &'static str = "no_rly_journal.jsonl";

/// The most characters of message text that a record keeps.
pub const JOURNAL_MAX_MESSAGE_LEN: usize = 2000;

// ── Outcomes ────────────────────────────────────────────────────────────────

/// What became of a bounce.
#[derive(Clone, Copy, Debug, PartialEq, Eq, PartialOrd, Ord, Structural)]
pub enum Outcome {
    /// The held message was sent as it was.
    Released,
    /// Replacement text was offered. Whether it went out is told by the chain:
    /// where it bounced in turn, a further record names this one as its parent.
    Rephrased,
    /// The handle ran out, or the process ended, without a decision.
    Expired,
}

/// The word for an outcome.
pub open spec fn outcome_text(outcome: Outcome) -> Seq<char> {
    match outcome {
        Outcome::Released => "released"@,
        Outcome::Rephrased => "rephrased"@,
        Outcome::Expired => "expired"@,
    }
}

/// The outcome that a word stands for.
pub open spec fn outcome_named(word: Seq<char>) -> Option<Outcome> {
    if word == "released"@ {
        Some(Outcome::Released)
    } else if word == "rephrased"@ {
        Some(Outcome::Rephrased)
    } else if word == "expired"@ {
        Some(Outcome::Expired)
    } else {
        None
    }
}

impl Outcome {
    /// The outcome that a word stands for.
    pub fn parse(s: &str) -> (r: Option<Outcome>)
        ensures
            r == outcome_named(s@),
            r matches Some(outcome) ==> s@ == outcome_text(outcome),
    {
        if text::str_eq(s, "released") {
            Some(Outcome::Released)
        } else if text::str_eq(s, "rephrased") {
            Some(Outcome::Rephrased)
        } else if text::str_eq(s, "expired") {
            Some(Outcome::Expired)
        } else {
            None
        }
    }

    /// The word for the outcome.
    pub fn as_str(&self) -> (r: &'static str)
        ensures
            r@ == outcome_text(*self),
    {
        match self {
            Outcome::Released => "released",
            Outcome::Rephrased => "rephrased",
            Outcome::Expired => "expired",
        }
    }
}

/// Different outcomes have different words, so that parsing undoes printing.
pub proof fn law_outcome_words_are_distinct(a: Outcome, b: Outcome)
    requires
        outcome_text(a) == outcome_text(b),
    ensures
        a == b,
{
    reveal_strlit("released");
    reveal_strlit("rephrased");
    reveal_strlit("expired");
    assert("released"@.len() == 8 && "rephrased"@.len() == 9 && "expired"@.len() == 7);
}

/// The word for an outcome is read back as the outcome.
pub proof fn law_outcome_words_read_back(outcome: Outcome)
    ensures
        outcome_named(outcome_text(outcome)) == Some(outcome),
{
    let named = outcome_named(outcome_text(outcome));
    if named is Some {
        assert(outcome_text(named->Some_0) == outcome_text(outcome));
        law_outcome_words_are_distinct(named->Some_0, outcome);
    }
}

// ── Records ─────────────────────────────────────────────────────────────────

/// A resolved bounce.
#[derive(Debug, PartialEq, Eq)]
pub struct BounceRecord {
    /// The handle that the message was held under.
    pub handle: HoldHandle,
    /// The handle of the bounce that this one chains from.
    pub parent: Option<HoldHandle>,
    /// The held text, cut to [`JOURNAL_MAX_MESSAGE_LEN`] characters.
    pub message: String,
    /// The rules that fired.
    pub reason: RejectReason,
    /// What became of it.
    pub outcome: Outcome,
    /// The replacement text, cut likewise.
    pub replacement: Option<String>,
    /// When the message bounced.
    pub bounced_at: Timestamp,
    /// When the outcome was known.
    pub resolved_at: Timestamp,
    /// How long the decision took, in milliseconds.
    pub latency_ms: u64,
}

/// A [`BounceRecord`] as a value.
#[verifier::ext_equal]
pub struct BounceView {
    pub handle: Seq<char>,
    pub parent: Option<Seq<char>>,
    pub message: Seq<char>,
    pub reason: Seq<ReasonView>,
    pub outcome: Outcome,
    pub replacement: Option<Seq<char>>,
    pub bounced_at: Timestamp,
    pub resolved_at: Timestamp,
    pub latency_ms: u64,
}

impl View for BounceRecord {
    type V = BounceView;

    open spec fn view(&self) -> BounceView {
        BounceView {
            handle: self.handle@,
            parent: queue::handle_opt(self.parent),
            message: self.message@,
            reason: self.reason@,
            outcome: self.outcome,
            replacement: text::text_opt(self.replacement),
            bounced_at: self.bounced_at,
            resolved_at: self.resolved_at,
            latency_ms: self.latency_ms,
        }
    }
}

/// The bounces of one day with the same patterns and the same outcome, taken
/// together.
#[derive(Debug, PartialEq, Eq)]
pub struct SummaryRecord {
    /// The UTC date of resolution, `YYYY-MM-DD`.
    pub date: String,
    /// The patterns, separated by commas.
    pub patterns: String,
    /// The outcome.
    pub outcome: Outcome,
    /// How many bounces these are.
    pub count: u64,
    /// The sum of their latencies.
    pub latency_ms_total: u64,
    /// The largest of their latencies.
    pub latency_ms_max: u64,
    /// When the summary was last added to.
    pub condensed_at: Timestamp,
}

/// A [`SummaryRecord`] as a value.
#[verifier::ext_equal]
pub struct SummaryView {
    pub date: Seq<char>,
    pub patterns: Seq<char>,
    pub outcome: Outcome,
    pub count: nat,
    pub latency_ms_total: nat,
    pub latency_ms_max: nat,
    pub condensed_at: Timestamp,
}

impl View for SummaryRecord {
    type V = SummaryView;

    open spec fn view(&self) -> SummaryView {
        SummaryView {
            date: self.date@,
            patterns: self.patterns@,
            outcome: self.outcome,
            count: self.count as nat,
            latency_ms_total: self.latency_ms_total as nat,
            latency_ms_max: self.latency_ms_max as nat,
            condensed_at: self.condensed_at,
        }
    }
}

/// A line of the journal.
#[derive(Debug, PartialEq, Eq)]
pub enum JournalRecord {
    /// A resolved bounce.
    Bounce(BounceRecord),
    /// A summary of several.
    Summary(SummaryRecord),
}

/// What a reading of the whole journal gives: the records, and the lines that
/// are none, as they stand.
#[derive(Debug)]
pub struct JournalScan {
    /// The records, in the order of the file.
    pub records: Vec<JournalRecord>,
    /// The lines that are no records.
    pub malformed: Vec<String>,
}

/// A line of the journal's file, and the record it holds, if it holds one.
pub struct ReadLine {
    pub line: String,
    pub record: Option<JournalRecord>,
}

/// The records that the lines hold, in their order.
pub open spec fn records_read(lines: Seq<ReadLine>) -> Seq<JournalRecord>
    decreases lines.len(),
{
    if lines.len() == 0 {
        Seq::empty()
    } else {
        match lines.last().record {
            Some(record) => records_read(lines.drop_last()).push(record),
            None => records_read(lines.drop_last()),
        }
    }
}

/// The lines that hold no record, as they stand in the file.
pub open spec fn lines_kept(lines: Seq<ReadLine>) -> Seq<Seq<char>>
    decreases lines.len(),
{
    if lines.len() == 0 {
        Seq::empty()
    } else if lines.last().record is None {
        lines_kept(lines.drop_last()).push(lines.last().line@)
    } else {
        lines_kept(lines.drop_last())
    }
}

/// The lines of the journal's file that are to be read: all but the blank ones.
pub fn file_lines(contents: &str) -> (r: Vec<String>)
    ensures
        text::texts(r@) == text::nonblank_lines(contents@),
{
    text::split_nonblank_lines(contents)
}

/// What is written to the journal's file: a line for each record, and then the
/// lines that hold none.
pub fn file_text(records: &Vec<String>, malformed: &Vec<String>) -> (r: String)
    ensures
        r@ == text::written(text::texts(records@) + text::texts(malformed@)),
{
    let mut all: Vec<String> = Vec::new();
    let mut i: usize = 0;
    while i < records.len()
        invariant
            i <= records@.len(),
            text::texts(all@) == text::texts(records@).take(i as int),
        decreases records@.len() - i,
    {
        let ghost had = all@;
        all.push(records[i].clone());
        assert(text::texts(all@) =~= text::texts(had).push(records@[i as int]@));
        assert(text::texts(records@).take(i + 1) =~= text::texts(had).push(records@[i as int]@));
        i = i + 1;
    }
    assert(text::texts(records@).take(i as int) =~= text::texts(records@));
    let mut j: usize = 0;
    assert(text::texts(malformed@).take(0) =~= Seq::empty());
    while j < malformed.len()
        invariant
            j <= malformed@.len(),
            text::texts(all@) == text::texts(records@) + text::texts(malformed@).take(j as int),
        decreases malformed@.len() - j,
    {
        let ghost had = all@;
        all.push(malformed[j].clone());
        assert(text::texts(all@) =~= text::texts(had).push(malformed@[j as int]@));
        assert(text::texts(malformed@).take(j + 1) =~= text::texts(malformed@).take(j as int).push(
            malformed@[j as int]@,
        ));
        j = j + 1;
    }
    assert(text::texts(malformed@).take(j as int) =~= text::texts(malformed@));
    text::write_lines(&all)
}

/// A journal that was written is read back line by line: first the lines of the
/// records, then the lines that hold none.
pub proof fn law_written_journals_read_back(records: Seq<Seq<char>>, malformed: Seq<Seq<char>>)
    requires
        forall|i: int|
            0 <= i < records.len() ==> text::is_line(#[trigger] records[i]) && !text::is_blank(
                records[i],
            ),
        forall|i: int|
            0 <= i < malformed.len() ==> text::is_line(#[trigger] malformed[i]) && !text::is_blank(
                malformed[i],
            ),
    ensures
        text::nonblank_lines(text::written(records + malformed)) == records + malformed,
{
    text::law_written_nonblank_lines_read_back(records + malformed);
}

/// A resolved bounce on its way into the journal.
pub struct ResolvedBounce<'a> {
    pub handle: &'a str,
    pub parent: Option<&'a str>,
    pub message: &'a str,
    pub reason: RejectReason,
    pub outcome: Outcome,
    pub replacement: Option<&'a str>,
    pub bounced_at: Timestamp,
    pub latency_ms: u64,
}

/// An optional text, cut to the length that a record keeps.
pub open spec fn kept_text(s: Option<Seq<char>>) -> Option<Seq<char>> {
    match s {
        Some(x) => Some(text::truncated(x, JOURNAL_MAX_MESSAGE_LEN as nat)),
        None => None,
    }
}

impl ResolvedBounce<'_> {
    /// What the journal keeps of the bounce, when it is resolved at `resolved_at`.
    pub open spec fn record_at(&self, resolved_at: Timestamp) -> BounceView {
        BounceView {
            handle: self.handle@,
            parent: text::str_opt(self.parent),
            message: text::truncated(self.message@, JOURNAL_MAX_MESSAGE_LEN as nat),
            reason: self.reason@,
            outcome: self.outcome,
            replacement: kept_text(text::str_opt(self.replacement)),
            bounced_at: self.bounced_at,
            resolved_at,
            latency_ms: self.latency_ms,
        }
    }

    /// The record of the bounce, resolved now.
    pub fn into_record(self) -> (r: JournalRecord)
        ensures
            r matches JournalRecord::Bounce(b) && exists|resolved_at: Timestamp|
                b@ == #[trigger] self.record_at(resolved_at),
    {
        let resolved_at: Timestamp = Timestamp::now();
        let ghost this = self;
        let record: BounceRecord = self.into_record_at(resolved_at);
        assert(record@ == this.record_at(resolved_at));
        JournalRecord::Bounce(record)
    }

    /// The record of the bounce, resolved at a given time.
    pub fn into_record_at(self, resolved_at: Timestamp) -> (r: BounceRecord)
        ensures
            r@ == self.record_at(resolved_at),
    {
        let parent: Option<HoldHandle> = match self.parent {
            Some(p) => Some(HoldHandle::new(p)),
            None => None,
        };
        let replacement: Option<String> = match self.replacement {
            Some(t) => Some(text::truncate_chars(t, JOURNAL_MAX_MESSAGE_LEN)),
            None => None,
        };
        BounceRecord {
            handle: HoldHandle::new(self.handle),
            parent,
            message: text::truncate_chars(self.message, JOURNAL_MAX_MESSAGE_LEN),
            reason: self.reason,
            outcome: self.outcome,
            replacement,
            bounced_at: self.bounced_at,
            resolved_at,
            latency_ms: self.latency_ms,
        }
    }
}

// ── Totals ──────────────────────────────────────────────────────────────────

/// How many bounces a record stands for.
pub open spec fn weight(record: JournalRecord) -> nat {
    match record {
        JournalRecord::Bounce(_) => 1,
        JournalRecord::Summary(s) => s.count as nat,
    }
}

/// How many bounces a sequence of records stands for.
pub open spec fn represented(records: Seq<JournalRecord>) -> nat
    decreases records.len(),
{
    if records.len() == 0 {
        0
    } else {
        represented(records.drop_last()) + weight(records.last())
    }
}

/// The latency that a record accounts for.
pub open spec fn latency_share(record: JournalRecord) -> nat {
    match record {
        JournalRecord::Bounce(b) => b.latency_ms as nat,
        JournalRecord::Summary(s) => s.latency_ms_total as nat,
    }
}

/// The latency that a sequence of records accounts for.
pub open spec fn latency_total(records: Seq<JournalRecord>) -> nat
    decreases records.len(),
{
    if records.len() == 0 {
        0
    } else {
        latency_total(records.drop_last()) + latency_share(records.last())
    }
}

/// How many patterns a record names.
pub open spec fn pattern_share(record: JournalRecord) -> nat {
    match record {
        JournalRecord::Bounce(b) => b.reason@.len(),
        JournalRecord::Summary(_) => 0,
    }
}

/// How many patterns a sequence of records names, repetitions counted.
pub open spec fn pattern_total(records: Seq<JournalRecord>) -> nat
    decreases records.len(),
{
    if records.len() == 0 {
        0
    } else {
        pattern_total(records.drop_last()) + pattern_share(records.last())
    }
}

/// Whether what is counted among these records fits in 64-bit numbers.
pub open spec fn tallyable(records: Seq<JournalRecord>) -> bool {
    &&& summarized_among(records) <= u64::MAX
    &&& pattern_total(records) <= u64::MAX
}

proof fn lemma_totals_monotone(records: Seq<JournalRecord>, n: int)
    requires
        0 <= n <= records.len(),
    ensures
        represented(records.take(n)) <= represented(records),
        latency_total(records.take(n)) <= latency_total(records),
        pattern_total(records.take(n)) <= pattern_total(records),
        summarized_among(records.take(n)) <= summarized_among(records),
    decreases records.len(),
{
    if n < records.len() {
        lemma_totals_monotone(records.drop_last(), n);
        assert(records.drop_last().take(n) =~= records.take(n));
    } else {
        assert(records.take(n) =~= records);
    }
}

proof fn lemma_totals_step(records: Seq<JournalRecord>, i: int)
    requires
        0 <= i < records.len(),
    ensures
        represented(records.take(i + 1)) == represented(records.take(i)) + weight(records[i]),
        latency_total(records.take(i + 1)) == latency_total(records.take(i)) + latency_share(
            records[i],
        ),
        pattern_total(records.take(i + 1)) == pattern_total(records.take(i)) + pattern_share(
            records[i],
        ),
        represented(records.take(i + 1)) <= represented(records),
        latency_total(records.take(i + 1)) <= latency_total(records),
        pattern_total(records.take(i + 1)) <= pattern_total(records),
        summarized_among(records.take(i + 1)) <= summarized_among(records),
        records.take(i + 1).drop_last() == records.take(i),
        records.take(i + 1).last() == records[i],
{
    assert(records.take(i + 1).drop_last() =~= records.take(i));
    lemma_totals_monotone(records, i + 1);
}

impl JournalScan {
    /// Whether what is counted in the journal fits in 64-bit numbers, as
    /// [`JournalScan::stats`] needs.
    pub fn is_tallyable(&self) -> (r: bool)
        ensures
            r == tallyable(self.records@),
    {
        let mut summarized: u64 = 0;
        let mut patterns: u64 = 0;
        let mut i: usize = 0;
        while i < self.records.len()
            invariant
                i <= self.records@.len(),
                summarized == summarized_among(self.records@.take(i as int)),
                patterns == pattern_total(self.records@.take(i as int)),
            decreases self.records@.len() - i,
        {
            proof {
                lemma_totals_step(self.records@, i as int);
            }
            let (c, p): (u64, u64) = match &self.records[i] {
                JournalRecord::Bounce(b) => (0, b.reason.matches.len() as u64),
                JournalRecord::Summary(s) => (s.count, 0),
            };
            match (summarized.checked_add(c), patterns.checked_add(p)) {
                (Some(c2), Some(p2)) => {
                    summarized = c2;
                    patterns = p2;
                },
                _ => {
                    return false;
                },
            }
            i = i + 1;
        }
        assert(self.records@.take(self.records@.len() as int) =~= self.records@);
        true
    }
}

// ── Statistics ──────────────────────────────────────────────────────────────

/// Which bounces [`JournalScan::stats`] looks at: those that pass every filter
/// that is set.
#[derive(Debug)]
pub struct StatsFilter {
    /// Only bounces resolved at or after this time.
    pub since: Option<Timestamp>,
    /// Only bounces with this outcome.
    pub outcome: Option<Outcome>,
    /// Only bounces whose reason names this pattern.
    pub pattern: Option<String>,
}

impl Default for StatsFilter {
    fn default() -> (r: Self)
        ensures
            r.since is None,
            r.outcome is None,
            r.pattern is None,
    {
        StatsFilter { since: None, outcome: None, pattern: None }
    }
}

/// Latencies of the bounces looked at, in milliseconds.
#[derive(Clone, Copy, Debug, PartialEq, Eq)]
pub struct LatencyStats {
    /// The smallest.
    pub min_ms: u64,
    /// The median.
    pub p50_ms: u64,
    /// The mean, rounded down.
    pub mean_ms: u64,
    /// The largest.
    pub max_ms: u64,
}

/// How often each word occurs, sorted by word.
pub struct Tally {
    /// The words and their numbers.
    pub counts: Sorted<String, u64>,
}

/// What [`JournalScan::stats`] reports.
pub struct JournalStats {
    /// The bounces that pass the filter.
    pub bounces: u64,
    /// How many there are of each outcome.
    pub by_outcome: Tally,
    /// How many there are of each pattern.
    pub by_pattern: Tally,
    /// Their latencies, where there are any.
    pub latency: Option<LatencyStats>,
    /// How many of them chain from a parent.
    pub chained: u64,
    /// How many records of the whole journal name a parent that no record tells of.
    pub dangling_parents: u64,
    /// The summaries in the journal.
    pub summaries: u64,
    /// The bounces that those summaries stand for.
    pub summarized_bounces: u64,
    /// The lines that are no records.
    pub malformed_lines: u64,
}

/// How often `word` occurs among `words`.
pub open spec fn times(words: Seq<Seq<char>>, word: Seq<char>) -> nat
    decreases words.len(),
{
    if words.len() == 0 {
        0
    } else {
        times(words.drop_last(), word) + if words.last() == word {
            1nat
        } else {
            0
        }
    }
}

proof fn lemma_times_bound(words: Seq<Seq<char>>, word: Seq<char>)
    ensures
        times(words, word) <= words.len(),
    decreases words.len(),
{
    if words.len() > 0 {
        lemma_times_bound(words.drop_last(), word);
    }
}

impl Tally {
    /// Whether this is the tally of `words`: it lists exactly those that occur,
    /// in order, each with its number of occurrences.
    pub open spec fn tallies(&self, words: Seq<Seq<char>>) -> bool {
        &&& self.counts.wf()
        &&& forall|word: Seq<char>| #[trigger]
            self.counts.map().contains_key(word) <==> times(words, word) > 0
        &&& forall|word: Seq<char>| #[trigger]
            self.counts.map().contains_key(word) ==> self.counts.map()[word] == times(words, word)
    }

    fn new() -> (r: Self)
        ensures
            r.tallies(Seq::empty()),
    {
        Tally { counts: Sorted::new() }
    }

    /// How often a word occurs, where it does.
    pub fn get(&self, word: &str) -> (r: Option<u64>)
        requires
            self.counts.wf(),
        ensures
            match r {
                Some(n) => self.counts.map().contains_key(word@) && n == self.counts.map()[word@],
                None => !self.counts.map().contains_key(word@),
            },
    {
        let key: String = word.to_owned();
        match self.counts.get(&key) {
            Some(n) => Some(*n),
            None => None,
        }
    }

    fn add(&mut self, word: String, Ghost(words): Ghost<Seq<Seq<char>>>)
        requires
            old(self).tallies(words),
            words.len() < u64::MAX,
        ensures
            final(self).tallies(words.push(word@)),
    {
        let ghost before = self.counts.map();
        let ghost next = words.push(word@);
        proof {
            assert(next.drop_last() =~= words);
            lemma_times_bound(words, word@);
            assert(forall|w: Seq<char>| #[trigger]
                times(next, w) == times(words, w) + if w == word@ {
                    1nat
                } else {
                    0
                });
        }
        match self.counts.slot(&word) {
            Slot::Found(i) => {
                let n: u64 = self.counts.entries[i].1;
                self.counts.set_at(i, n + 1);
            },
            Slot::Missing(i) => {
                self.counts.insert_at(i, word, 1);
            },
        }
    }
}

/// Whether a bounce passes a filter.
pub open spec fn passes(filter: StatsFilter, b: BounceRecord) -> bool {
    &&& filter.since matches Some(since) ==> !b.resolved_at.before(since)
    &&& filter.outcome matches Some(outcome) ==> b.outcome == outcome
    &&& filter.pattern matches Some(pattern) ==> judge::patterns_of(b.reason@).contains(pattern@)
}

/// The bounces among the records that pass a filter, in order.
pub open spec fn passing(records: Seq<JournalRecord>, filter: StatsFilter) -> Seq<BounceRecord>
    decreases records.len(),
{
    if records.len() == 0 {
        Seq::empty()
    } else {
        let before = passing(records.drop_last(), filter);
        match records.last() {
            JournalRecord::Bounce(b) => if passes(filter, b) {
                before.push(b)
            } else {
                before
            },
            JournalRecord::Summary(_) => before,
        }
    }
}

/// The words for the outcomes of these bounces.
pub open spec fn outcome_words(bounces: Seq<BounceRecord>) -> Seq<Seq<char>> {
    bounces.map_values(|b: BounceRecord| outcome_text(b.outcome))
}

/// The patterns of these bounces, one after another.
pub open spec fn pattern_words(bounces: Seq<BounceRecord>) -> Seq<Seq<char>>
    decreases bounces.len(),
{
    if bounces.len() == 0 {
        Seq::empty()
    } else {
        pattern_words(bounces.drop_last()) + judge::patterns_of(bounces.last().reason@)
    }
}

/// The latencies of these bounces.
pub open spec fn latencies_of(bounces: Seq<BounceRecord>) -> Seq<u64> {
    bounces.map_values(|b: BounceRecord| b.latency_ms)
}

/// The sum of some numbers.
pub open spec fn sum(numbers: Seq<u64>) -> nat
    decreases numbers.len(),
{
    if numbers.len() == 0 {
        0
    } else {
        sum(numbers.drop_last()) + numbers.last() as nat
    }
}

/// Numbers from small to large.
pub open spec fn in_order(numbers: Seq<u64>) -> Seq<u64> {
    numbers.sort_by(|a: u64, b: u64| a <= b)
}

/// Whether `stats` sums up some latencies.
pub open spec fn sums_up(stats: LatencyStats, numbers: Seq<u64>) -> bool {
    let sorted = in_order(numbers);
    &&& stats.min_ms == sorted[0]
    &&& stats.p50_ms == sorted[numbers.len() as int / 2]
    &&& stats.mean_ms == sum(numbers) / numbers.len()
    &&& stats.max_ms == sorted[numbers.len() - 1]
}

/// How many of these bounces chain from a parent.
pub open spec fn chained_among(bounces: Seq<BounceRecord>) -> nat {
    bounces.filter(|b: BounceRecord| b.parent is Some).len()
}

/// Whether some record tells of a bounce under this handle.
pub open spec fn handle_known(records: Seq<JournalRecord>, handle: Seq<char>) -> bool {
    exists|i: int|
        0 <= i < records.len() && ((#[trigger] records[i]) matches JournalRecord::Bounce(b)
            && b.handle@ == handle)
}

/// Whether a record names a parent that no record of `all` tells of.
pub open spec fn dangles(all: Seq<JournalRecord>, record: JournalRecord) -> bool {
    record matches JournalRecord::Bounce(b) && b.parent matches Some(p) && !handle_known(all, p@)
}

/// How many of these records name a parent that no record of `all` tells of.
pub open spec fn dangling_among(all: Seq<JournalRecord>, records: Seq<JournalRecord>) -> nat {
    records.filter(|r: JournalRecord| dangles(all, r)).len()
}

/// How many of these records are summaries.
pub open spec fn summaries_among(records: Seq<JournalRecord>) -> nat {
    records.filter(|r: JournalRecord| r is Summary).len()
}

/// The bounces that the summaries among these records stand for.
pub open spec fn summarized_among(records: Seq<JournalRecord>) -> nat
    decreases records.len(),
{
    if records.len() == 0 {
        0
    } else {
        summarized_among(records.drop_last()) + match records.last() {
            JournalRecord::Summary(s) => s.count as nat,
            JournalRecord::Bounce(_) => 0,
        }
    }
}

proof fn lemma_pattern_words_bound(records: Seq<JournalRecord>, filter: StatsFilter)
    ensures
        pattern_words(passing(records, filter)).len() <= pattern_total(records),
        passing(records, filter).len() <= records.len(),
    decreases records.len(),
{
    if records.len() > 0 {
        lemma_pattern_words_bound(records.drop_last(), filter);
        let before = passing(records.drop_last(), filter);
        match records.last() {
            JournalRecord::Bounce(b) => {
                assert(before.push(b).drop_last() =~= before);
            },
            JournalRecord::Summary(_) => {},
        }
    }
}

proof fn lemma_sum_bound(numbers: Seq<u64>)
    ensures
        sum(numbers) <= numbers.len() * 0xffff_ffff_ffff_ffff,
    decreases numbers.len(),
{
    if numbers.len() > 0 {
        lemma_sum_bound(numbers.drop_last());
    }
}

/// A number added to a sorted sequence keeps it sorted, and adds itself.
proof fn lemma_insert_sorted(numbers: Seq<u64>, at: int, n: u64)
    requires
        vstd::relations::sorted_by(numbers, |a: u64, b: u64| a <= b),
        0 <= at <= numbers.len(),
        forall|k: int| 0 <= k < at ==> numbers[k] <= n,
        forall|k: int| at <= k < numbers.len() ==> n <= numbers[k],
    ensures
        vstd::relations::sorted_by(numbers.insert(at, n), |a: u64, b: u64| a <= b),
        numbers.insert(at, n).to_multiset() == numbers.to_multiset().insert(n),
{
    let after = numbers.insert(at, n);
    assert(after.remove(at) =~= numbers);
    after.to_multiset_ensures();
    assert(after[at] == n);
    assert(after.contains(n));
    assert(after.to_multiset().count(n) > 0);
    assert(numbers.to_multiset() == after.to_multiset().remove(n));
    assert(numbers.to_multiset().insert(n) =~= after.to_multiset());
}

/// A sorted copy of some numbers.
fn sort(numbers: &Vec<u64>) -> (r: Vec<u64>)
    ensures
        r@ == in_order(numbers@),
{
    let ghost leq = |a: u64, b: u64| a <= b;
    let mut out: Vec<u64> = Vec::new();
    let mut i: usize = 0;
    assert(out@.to_multiset() =~= numbers@.take(0).to_multiset()) by {
        assert(out@ =~= numbers@.take(0));
    }
    while i < numbers.len()
        invariant
            i <= numbers@.len(),
            out@.len() == i,
            leq == (|a: u64, b: u64| a <= b),
            vstd::relations::sorted_by(out@, leq),
            out@.to_multiset() == numbers@.take(i as int).to_multiset(),
        decreases numbers@.len() - i,
    {
        let n: u64 = numbers[i];
        let mut at: usize = 0;
        while at < out.len() && out[at] < n
            invariant
                at <= out@.len(),
                leq == (|a: u64, b: u64| a <= b),
                vstd::relations::sorted_by(out@, leq),
                forall|k: int| 0 <= k < at ==> out@[k] <= n,
            decreases out@.len() - at,
        {
            at = at + 1;
        }
        proof {
            assert forall|k: int| at <= k < out@.len() implies n <= out@[k] by {
                if k > at {
                    assert(leq(out@[at as int], out@[k]));
                }
            }
            lemma_insert_sorted(out@, at as int, n);
            assert(numbers@.take(i + 1) =~= numbers@.take(i as int).push(n));
            numbers@.take(i as int).to_multiset_ensures();
        }
        out.insert(at, n);
        i = i + 1;
    }
    proof {
        assert(numbers@.take(numbers@.len() as int) =~= numbers@);
        assert(vstd::relations::total_ordering(leq));
        numbers@.lemma_sort_by_ensures(leq);
        vstd::seq_lib::lemma_sorted_unique(out@, numbers@.sort_by(leq), leq);
    }
    out
}

fn latency_stats(numbers: &Vec<u64>) -> (r: Option<LatencyStats>)
    ensures
        match r {
            None => numbers@.len() == 0,
            Some(stats) => numbers@.len() > 0 && sums_up(stats, numbers@),
        },
{
    if numbers.len() == 0 {
        return None;
    }
    let sorted: Vec<u64> = sort(numbers);
    proof {
        let leq = |a: u64, b: u64| a <= b;
        assert(vstd::relations::total_ordering(leq));
        numbers@.lemma_sort_by_ensures(leq);
        numbers@.to_multiset_ensures();
        sorted@.to_multiset_ensures();
        assert(sorted@.len() == numbers@.len());
    }
    let n: usize = numbers.len();
    let mut total: u128 = 0;
    let mut i: usize = 0;
    while i < n
        invariant
            i <= n == numbers@.len(),
            total == sum(numbers@.take(i as int)),
        decreases n - i,
    {
        proof {
            let next = numbers@.take(i + 1);
            assert(next.drop_last() =~= numbers@.take(i as int));
            lemma_sum_bound(next);
            assert(next.len() * 0xffff_ffff_ffff_ffff <= 0xffff_ffff_ffff_ffff
                * 0xffff_ffff_ffff_ffff) by (nonlinear_arith)
                requires
                    next.len() <= 0xffff_ffff_ffff_ffff,
            ;
        }
        total = total + numbers[i] as u128;
        i = i + 1;
    }
    proof {
        assert(numbers@.take(n as int) =~= numbers@);
        lemma_sum_bound(numbers@);
        assert(total / (n as u128) <= 0xffff_ffff_ffff_ffff) by (nonlinear_arith)
            requires
                total <= n * 0xffff_ffff_ffff_ffff,
                n > 0,
        ;
    }
    let mean: u128 = total / (n as u128);
    Some(
        LatencyStats {
            min_ms: sorted[0],
            p50_ms: sorted[n / 2],
            mean_ms: mean as u64,
            max_ms: sorted[n - 1],
        },
    )
}

fn names_pattern(reason: &RejectReason, pattern: &str) -> (r: bool)
    ensures
        r == judge::patterns_of(reason@).contains(pattern@),
{
    let mut i: usize = 0;
    while i < reason.matches.len()
        invariant
            i <= reason.matches@.len(),
            forall|k: int| 0 <= k < i ==> judge::patterns_of(reason@)[k] != pattern@,
        decreases reason.matches@.len() - i,
    {
        assert(judge::patterns_of(reason@)[i as int] == reason.matches@[i as int].pattern@);
        if text::str_eq(reason.matches[i].pattern.as_str(), pattern) {
            return true;
        }
        i = i + 1;
    }
    false
}

fn bounce_passes(filter: &StatsFilter, b: &BounceRecord) -> (r: bool)
    ensures
        r == passes(*filter, *b),
{
    let in_time: bool = match &filter.since {
        Some(since) => !b.resolved_at.is_before(since),
        None => true,
    };
    let same_outcome: bool = match filter.outcome {
        Some(outcome) => b.outcome == outcome,
        None => true,
    };
    let named: bool = match &filter.pattern {
        Some(pattern) => names_pattern(&b.reason, pattern.as_str()),
        None => true,
    };
    in_time && same_outcome && named
}

fn is_known(records: &Vec<JournalRecord>, handle: &HoldHandle) -> (r: bool)
    ensures
        r == handle_known(records@, handle@),
{
    let mut i: usize = 0;
    while i < records.len()
        invariant
            i <= records@.len(),
            forall|k: int|
                0 <= k < i ==> !((#[trigger] records@[k]) matches JournalRecord::Bounce(b)
                    && b.handle@ == handle@),
        decreases records@.len() - i,
    {
        if let JournalRecord::Bounce(b) = &records[i] {
            if b.handle.same(handle) {
                return true;
            }
        }
        i = i + 1;
    }
    false
}

impl JournalScan {
    /// An empty journal.
    pub fn empty() -> (r: Self)
        ensures
            r.records@.len() == 0,
            r.malformed@.len() == 0,
    {
        JournalScan { records: Vec::new(), malformed: Vec::new() }
    }

    /// Sorts the lines of the journal's file into records and lines that hold none.
    pub fn read(lines: Vec<ReadLine>) -> (r: Self)
        ensures
            r.records@ == records_read(lines@),
            text::texts(r.malformed@) == lines_kept(lines@),
    {
        let ghost all = lines@;
        let mut lines: Vec<ReadLine> = lines;
        let total: usize = lines.len();
        let mut records: Vec<JournalRecord> = Vec::new();
        let mut malformed: Vec<String> = Vec::new();
        let mut i: usize = 0;
        proof {
            assert(all.take(0) =~= Seq::empty());
            assert(all.skip(0) =~= all);
            assert(text::texts(malformed@) =~= Seq::empty());
        }
        while i < total
            invariant
                i <= total == all.len(),
                lines@ == all.skip(i as int),
                records@ == records_read(all.take(i as int)),
                text::texts(malformed@) == lines_kept(all.take(i as int)),
            decreases total - i,
        {
            let ghost had = malformed@;
            proof {
                assert(all.take(i + 1).drop_last() =~= all.take(i as int));
                assert(all.take(i + 1).last() == all[i as int]);
                assert(lines@[0] == all[i as int]);
                assert(lines@.remove(0) =~= all.skip(i + 1));
            }
            let read: ReadLine = lines.remove(0);
            match read.record {
                Some(record) => records.push(record),
                None => {
                    malformed.push(read.line);
                    assert(text::texts(malformed@) =~= text::texts(had).push(all[i as int].line@));
                },
            }
            i = i + 1;
        }
        assert(all.take(all.len() as int) =~= all);
        JournalScan { records, malformed }
    }

    /// What the journal tells: counts, outcomes, patterns and latencies of the
    /// bounces that pass the filter, and how sound the journal is as a whole.
    pub fn stats(&self, filter: &StatsFilter) -> (r: JournalStats)
        requires
            tallyable(self.records@),
        ensures
            r.bounces == passing(self.records@, *filter).len(),
            r.by_outcome.tallies(outcome_words(passing(self.records@, *filter))),
            r.by_pattern.tallies(pattern_words(passing(self.records@, *filter))),
            match r.latency {
                None => passing(self.records@, *filter).len() == 0,
                Some(stats) => passing(self.records@, *filter).len() > 0 && sums_up(
                    stats,
                    latencies_of(passing(self.records@, *filter)),
                ),
            },
            r.chained == chained_among(passing(self.records@, *filter)),
            r.dangling_parents == dangling_among(self.records@, self.records@),
            r.summaries == summaries_among(self.records@),
            r.summarized_bounces == summarized_among(self.records@),
            r.malformed_lines == self.malformed@.len(),
    {
        let ghost all = self.records@;
        let ghost is_chained = |b: BounceRecord| b.parent is Some;
        let ghost is_dangling = |r: JournalRecord| dangles(all, r);
        let ghost is_summary = |r: JournalRecord| r is Summary;
        let mut bounces: u64 = 0;
        let mut by_outcome: Tally = Tally::new();
        let mut by_pattern: Tally = Tally::new();
        let mut latencies: Vec<u64> = Vec::new();
        let mut chained: u64 = 0;
        let mut dangling: u64 = 0;
        let mut summaries: u64 = 0;
        let mut summarized: u64 = 0;
        let mut i: usize = 0;
        proof {
            reveal(Seq::filter);
            assert(all.take(0) =~= Seq::empty());
            assert(outcome_words(passing(all.take(0), *filter)) =~= Seq::empty());
            assert(latencies_of(passing(all.take(0), *filter)) =~= Seq::empty());
        }
        while i < self.records.len()
            invariant
                all == self.records@,
                i <= all.len(),
                tallyable(all),
                is_chained == (|b: BounceRecord| b.parent is Some),
                is_dangling == (|r: JournalRecord| dangles(all, r)),
                is_summary == (|r: JournalRecord| r is Summary),
                bounces == passing(all.take(i as int), *filter).len(),
                bounces <= i,
                by_outcome.tallies(outcome_words(passing(all.take(i as int), *filter))),
                by_pattern.tallies(pattern_words(passing(all.take(i as int), *filter))),
                latencies@ == latencies_of(passing(all.take(i as int), *filter)),
                chained == passing(all.take(i as int), *filter).filter(is_chained).len(),
                chained <= i,
                dangling == all.take(i as int).filter(is_dangling).len(),
                dangling <= i,
                summaries == all.take(i as int).filter(is_summary).len(),
                summaries <= i,
                summarized == summarized_among(all.take(i as int)),
            decreases all.len() - i,
        {
            let ghost before = passing(all.take(i as int), *filter);
            proof {
                lemma_totals_step(all, i as int);
                lemma_pattern_words_bound(all.take(i as int), *filter);
                lemma_pattern_words_bound(all.take(i + 1), *filter);
                assert(all.take(i + 1) =~= all.take(i as int).push(all[i as int]));
                all.take(i as int).lemma_filter_push(all[i as int], is_dangling);
                all.take(i as int).lemma_filter_push(all[i as int], is_summary);
            }
            match &self.records[i] {
                JournalRecord::Summary(s) => {
                    summaries = summaries + 1;
                    summarized = summarized + s.count;
                },
                JournalRecord::Bounce(b) => {
                    if let Some(parent) = &b.parent {
                        if !is_known(&self.records, parent) {
                            dangling = dangling + 1;
                        }
                    }
                    if bounce_passes(filter, b) {
                        proof {
                            before.lemma_filter_push(*b, is_chained);
                            assert(outcome_words(before.push(*b)) =~= outcome_words(before).push(
                                outcome_text(b.outcome),
                            ));
                            assert(latencies_of(before.push(*b)) =~= latencies_of(before).push(
                                b.latency_ms,
                            ));
                            assert(before.push(*b).drop_last() =~= before);
                        }
                        bounces = bounces + 1;
                        by_outcome.add(b.outcome.as_str().to_owned(), Ghost(outcome_words(before)));
                        latencies.push(b.latency_ms);
                        if b.parent.is_some() {
                            chained = chained + 1;
                        }
                        let ghost named = judge::patterns_of(b.reason@);
                        let mut k: usize = 0;
                        assert(pattern_words(before) + named.take(0) =~= pattern_words(before));
                        while k < b.reason.matches.len()
                            invariant
                                k <= b.reason.matches@.len(),
                                named == judge::patterns_of(b.reason@),
                                pattern_words(before).len() + named.len() <= u64::MAX,
                                by_pattern.tallies(pattern_words(before) + named.take(k as int)),
                            decreases b.reason.matches@.len() - k,
                        {
                            by_pattern.add(
                                b.reason.matches[k].pattern.clone(),
                                Ghost(pattern_words(before) + named.take(k as int)),
                            );
                            proof {
                                assert((pattern_words(before) + named.take(k as int)).push(
                                    named[k as int],
                                ) =~= pattern_words(before) + named.take(k + 1));
                            }
                            k = k + 1;
                        }
                        proof {
                            assert(named.take(named.len() as int) =~= named);
                        }
                    }
                },
            }
            i = i + 1;
        }
        assert(all.take(all.len() as int) =~= all);
        JournalStats {
            bounces,
            by_outcome,
            by_pattern,
            latency: latency_stats(&latencies),
            chained,
            dangling_parents: dangling,
            summaries,
            summarized_bounces: summarized,
            malformed_lines: self.malformed.len() as u64,
        }
    }
}

// ── Condensing ──────────────────────────────────────────────────────────────

/// What tells one summary from another.
pub struct SummaryKey {
    date: String,
    patterns: String,
    outcome: Outcome,
}

/// The place of an outcome in the order of outcomes.
pub open spec fn outcome_order(outcome: Outcome) -> nat {
    match outcome {
        Outcome::Released => 0,
        Outcome::Rephrased => 1,
        Outcome::Expired => 2,
    }
}

fn outcome_number(outcome: Outcome) -> (r: u8)
    ensures
        r == outcome_order(outcome),
{
    match outcome {
        Outcome::Released => 0,
        Outcome::Rephrased => 1,
        Outcome::Expired => 2,
    }
}

/// A [`SummaryKey`] as a value: the date, the patterns, the outcome.
pub type SummaryId = (Seq<char>, Seq<char>, Outcome);

impl Key for SummaryKey {
    type Id = SummaryId;

    closed spec fn id(&self) -> SummaryId {
        (self.date@, self.patterns@, self.outcome)
    }

    fn same(&self, other: &Self) -> (r: bool) {
        self.date == other.date && self.patterns == other.patterns && self.outcome == other.outcome
    }
}

impl OrderedKey for SummaryKey {
    open spec fn precedes(a: SummaryId, b: SummaryId) -> bool {
        text::less(a.0, b.0) || (a.0 == b.0 && (text::less(a.1, b.1) || (a.1 == b.1
            && outcome_order(a.2) < outcome_order(b.2))))
    }

    proof fn total(a: SummaryId, b: SummaryId) {
        text::lemma_less_total(a.0, b.0);
        text::lemma_less_total(a.1, b.1);
    }

    proof fn transitive(a: SummaryId, b: SummaryId, c: SummaryId) {
        text::lemma_less_total(a.0, b.0);
        text::lemma_less_total(b.0, c.0);
        text::lemma_less_total(a.1, b.1);
        text::lemma_less_total(b.1, c.1);
        if text::less(a.0, b.0) && text::less(b.0, c.0) {
            text::lemma_less_transitive(a.0, b.0, c.0);
        }
        if text::less(a.1, b.1) && text::less(b.1, c.1) {
            text::lemma_less_transitive(a.1, b.1, c.1);
        }
    }

    fn rank(&self, other: &Self) -> (r: Rank) {
        proof {
            text::lemma_less_total(self.date@, other.date@);
            text::lemma_less_total(self.patterns@, other.patterns@);
        }
        match text::rank(self.date.as_str(), other.date.as_str()) {
            Rank::Same => match text::rank(self.patterns.as_str(), other.patterns.as_str()) {
                Rank::Same => {
                    let a: u8 = outcome_number(self.outcome);
                    let b: u8 = outcome_number(other.outcome);
                    if a < b {
                        Rank::Before
                    } else if a == b {
                        Rank::Same
                    } else {
                        Rank::After
                    }
                },
                rank => rank,
            },
            rank => rank,
        }
    }
}

/// What tells a summary from another: its date, its patterns and its outcome.
pub open spec fn summary_id(s: SummaryView) -> SummaryId {
    (s.date, s.patterns, s.outcome)
}

/// Two summaries of the same kind taken together; `b` is the later one.
pub open spec fn merged(a: SummaryView, b: SummaryView) -> SummaryView {
    SummaryView {
        count: a.count + b.count,
        latency_ms_total: a.latency_ms_total + b.latency_ms_total,
        latency_ms_max: if a.latency_ms_max >= b.latency_ms_max {
            a.latency_ms_max
        } else {
            b.latency_ms_max
        },
        condensed_at: b.condensed_at,
        ..a
    }
}

/// The summaries with one more added.
pub open spec fn with_summary(
    acc: Map<SummaryId, SummaryView>,
    s: SummaryView,
) -> Map<SummaryId, SummaryView> {
    acc.insert(
        summary_id(s),
        if acc.contains_key(summary_id(s)) {
            merged(acc[summary_id(s)], s)
        } else {
            s
        },
    )
}

/// The summary that a bounce by itself amounts to.
pub open spec fn summary_of(b: BounceRecord, condensed_at: Timestamp) -> SummaryView {
    SummaryView {
        date: clock::date_text(b.resolved_at.day()),
        patterns: text::joined(judge::patterns_of(b.reason@), ", "@),
        outcome: b.outcome,
        count: 1,
        latency_ms_total: b.latency_ms as nat,
        latency_ms_max: b.latency_ms as nat,
        condensed_at,
    }
}

/// What a record adds to the summaries: a summary adds itself, and a bounce
/// resolved before `cutoff` is folded in; a later one is not.
pub open spec fn contribution(
    record: JournalRecord,
    cutoff: Timestamp,
    condensed_at: Timestamp,
) -> Option<SummaryView> {
    match record {
        JournalRecord::Summary(s) => Some(s@),
        JournalRecord::Bounce(b) => if b.resolved_at.before(cutoff) {
            Some(summary_of(b, condensed_at))
        } else {
            None
        },
    }
}

/// The summaries that the records condense to.
pub open spec fn condensed(
    records: Seq<JournalRecord>,
    cutoff: Timestamp,
    condensed_at: Timestamp,
) -> Map<SummaryId, SummaryView>
    decreases records.len(),
{
    if records.len() == 0 {
        Map::empty()
    } else {
        let before = condensed(records.drop_last(), cutoff, condensed_at);
        match contribution(records.last(), cutoff, condensed_at) {
            Some(s) => with_summary(before, s),
            None => before,
        }
    }
}

/// Whether the sums of a summary fit in 64-bit numbers.
pub open spec fn sums_fit(s: SummaryView) -> bool {
    s.count <= u64::MAX && s.latency_ms_total <= u64::MAX
}

/// Whether the sums of every summary that the records condense to fit in 64-bit
/// numbers.
pub open spec fn foldable(
    records: Seq<JournalRecord>,
    cutoff: Timestamp,
    condensed_at: Timestamp,
) -> bool {
    forall|id: SummaryId| #[trigger]
        condensed(records, cutoff, condensed_at).contains_key(id) ==> sums_fit(
            condensed(records, cutoff, condensed_at)[id],
        )
}

/// The summaries only grow as records are added.
proof fn lemma_condensed_grows(
    records: Seq<JournalRecord>,
    n: int,
    cutoff: Timestamp,
    condensed_at: Timestamp,
    id: SummaryId,
)
    requires
        0 <= n <= records.len(),
        condensed(records.take(n), cutoff, condensed_at).contains_key(id),
    ensures
        condensed(records, cutoff, condensed_at).contains_key(id),
        condensed(records.take(n), cutoff, condensed_at)[id].count <= condensed(
            records,
            cutoff,
            condensed_at,
        )[id].count,
        condensed(records.take(n), cutoff, condensed_at)[id].latency_ms_total <= condensed(
            records,
            cutoff,
            condensed_at,
        )[id].latency_ms_total,
    decreases records.len(),
{
    if n < records.len() {
        assert(records.drop_last().take(n) =~= records.take(n));
        lemma_condensed_grows(records.drop_last(), n, cutoff, condensed_at, id);
    } else {
        assert(records.take(n) =~= records);
    }
}

/// Whether a record stays as it is when the journal is condensed.
pub open spec fn stays_raw(record: JournalRecord, cutoff: Timestamp) -> bool {
    record matches JournalRecord::Bounce(b) && !b.resolved_at.before(cutoff)
}

/// Whether a bounce is folded into a summary.
pub open spec fn is_folded(record: JournalRecord, cutoff: Timestamp) -> bool {
    record matches JournalRecord::Bounce(b) && b.resolved_at.before(cutoff)
}

/// Whether these records list the summaries of `map`, in the order of their ids.
pub open spec fn lists(records: Seq<JournalRecord>, map: Map<SummaryId, SummaryView>) -> bool {
    &&& forall|i: int|
        0 <= i < records.len() ==> ((#[trigger] records[i]) matches JournalRecord::Summary(s)
            && map.contains_key(summary_id(s@)) && map[summary_id(s@)] == s@)
    &&& forall|i: int, j: int|
        0 <= i < j < records.len() ==> SummaryKey::precedes(
            summary_id((#[trigger] records[i])->Summary_0@),
            summary_id((#[trigger] records[j])->Summary_0@),
        )
    &&& forall|id: SummaryId| #[trigger]
        map.contains_key(id) ==> exists|i: int|
            0 <= i < records.len() && summary_id((#[trigger] records[i])->Summary_0@) == id
}

/// Whether condensing `before` gives `after`, the first `summaries` records of which
/// are summaries.
pub open spec fn condenses_to(
    before: Seq<JournalRecord>,
    cutoff: Timestamp,
    condensed_at: Timestamp,
    after: Seq<JournalRecord>,
    summaries: nat,
) -> bool {
    &&& summaries <= after.len()
    &&& lists(after.take(summaries as int), condensed(before, cutoff, condensed_at))
    &&& after.skip(summaries as int) == before.filter(
        |record: JournalRecord| stays_raw(record, cutoff),
    )
}

/// Whether the summary of a bounce carries the day on which it was resolved, so
/// that a vacuum treats the summary by the age of the bounce.
pub open spec fn dated_as_resolved(record: JournalRecord) -> bool {
    record matches JournalRecord::Bounce(b) ==> summary_day(clock::date_text(b.resolved_at.day()))
        == b.resolved_at.day()
}

/// What condensing a journal gives.
pub struct Condensed {
    /// The summaries, sorted, and then the bounces that stay.
    pub records: Vec<JournalRecord>,
    /// The lines that hold no record. They stay as they are.
    pub malformed: Vec<String>,
    /// How many bounces were folded into summaries.
    pub condensed_bounces: u64,
    /// How many summaries there are now.
    pub summaries: u64,
    /// How many bounces stay.
    pub kept_bounces: u64,
}

/// What condensing the journal's file did.
#[derive(Clone, Copy, Debug, PartialEq, Eq)]
pub struct CondenseReport {
    /// Bounces folded into summaries.
    pub condensed_bounces: u64,
    /// Summaries in the file afterwards.
    pub summaries: u64,
    /// Bounces kept.
    pub kept_bounces: u64,
    /// The size of the file before, in bytes.
    pub bytes_before: u64,
    /// The size of the file after, in bytes.
    pub bytes_after: u64,
}

/// What vacuuming the journal's file did.
#[derive(Clone, Copy, Debug, PartialEq, Eq)]
pub struct VacuumReport {
    /// Summaries dropped for their age.
    pub dropped_summaries: u64,
    /// Lines dropped for not being records.
    pub dropped_malformed: u64,
    /// Records kept.
    pub kept: u64,
    /// The size of the file before, in bytes.
    pub bytes_before: u64,
    /// The size of the file after, in bytes.
    pub bytes_after: u64,
}

/// The summaries in the order of their keys.
type Summaries = Sorted<SummaryKey, SummaryRecord>;

/// The values of a map of summaries.
spec fn summary_views(map: Map<SummaryId, SummaryRecord>) -> Map<SummaryId, SummaryView> {
    map.map_values(|s: SummaryRecord| s@)
}

/// Each summary stands under its own key.
spec fn summaries_wf(acc: Summaries) -> bool {
    &&& acc.wf()
    &&& forall|i: int|
        0 <= i < acc.entries@.len() ==> (#[trigger] acc.entries@[i]).0.id() == summary_id(
            acc.entries@[i].1@,
        )
}

/// The bounces that the summaries stand for.
spec fn summaries_weight(entries: Seq<(SummaryKey, SummaryRecord)>) -> nat
    decreases entries.len(),
{
    if entries.len() == 0 {
        0
    } else {
        summaries_weight(entries.drop_last()) + entries.last().1.count as nat
    }
}

/// The latency that the summaries account for.
spec fn summaries_latency(entries: Seq<(SummaryKey, SummaryRecord)>) -> nat
    decreases entries.len(),
{
    if entries.len() == 0 {
        0
    } else {
        summaries_latency(entries.drop_last()) + entries.last().1.latency_ms_total as nat
    }
}

proof fn lemma_weight_insert(
    entries: Seq<(SummaryKey, SummaryRecord)>,
    at: int,
    e: (SummaryKey, SummaryRecord),
)
    requires
        0 <= at <= entries.len(),
    ensures
        summaries_weight(entries.insert(at, e)) == summaries_weight(entries) + e.1.count,
        summaries_latency(entries.insert(at, e)) == summaries_latency(entries)
            + e.1.latency_ms_total,
    decreases entries.len(),
{
    let after = entries.insert(at, e);
    if at == entries.len() {
        assert(after.drop_last() =~= entries);
    } else {
        lemma_weight_insert(entries.drop_last(), at, e);
        assert(after.drop_last() =~= entries.drop_last().insert(at, e));
        assert(after.last() == entries.last());
    }
}

proof fn lemma_weight_update(
    entries: Seq<(SummaryKey, SummaryRecord)>,
    at: int,
    e: (SummaryKey, SummaryRecord),
)
    requires
        0 <= at < entries.len(),
    ensures
        summaries_weight(entries.update(at, e)) + entries[at].1.count == summaries_weight(entries)
            + e.1.count,
        summaries_latency(entries.update(at, e)) + entries[at].1.latency_ms_total
            == summaries_latency(entries) + e.1.latency_ms_total,
    decreases entries.len(),
{
    let after = entries.update(at, e);
    if at == entries.len() - 1 {
        assert(after.drop_last() =~= entries.drop_last());
    } else {
        lemma_weight_update(entries.drop_last(), at, e);
        assert(after.drop_last() =~= entries.drop_last().update(at, e));
        assert(after.last() == entries.last());
    }
}

/// Adds a summary to those of its kind, unless their sums would not fit.
fn merge_summary(acc: &mut Summaries, summary: SummaryRecord) -> (r: bool)
    requires
        summaries_wf(*old(acc)),
    ensures
        r == sums_fit(
            with_summary(summary_views(old(acc).map()), summary@)[summary_id(summary@)],
        ),
        summaries_wf(*final(acc)),
        !r ==> *final(acc) == *old(acc),
        r ==> summary_views(final(acc).map()) == with_summary(
            summary_views(old(acc).map()),
            summary@,
        ),
        r ==> summaries_weight(final(acc).entries@) == summaries_weight(old(acc).entries@)
            + summary.count,
        r ==> summaries_latency(final(acc).entries@) == summaries_latency(old(acc).entries@)
            + summary.latency_ms_total,
{
    let ghost before = *acc;
    let ghost id = summary_id(summary@);
    let key: SummaryKey = SummaryKey {
        date: summary.date.clone(),
        patterns: summary.patterns.clone(),
        outcome: summary.outcome,
    };
    match acc.slot(&key) {
        Slot::Found(i) => {
            let existing: &SummaryRecord = &acc.entries[i].1;
            assert(with_summary(summary_views(before.map()), summary@)[id] == merged(
                before.entries@[i as int].1@,
                summary@,
            ));
            let (count, latency_ms_total): (u64, u64) = match (
                existing.count.checked_add(summary.count),
                existing.latency_ms_total.checked_add(summary.latency_ms_total),
            ) {
                (Some(count), Some(latency)) => (count, latency),
                _ => {
                    return false;
                },
            };
            let next: SummaryRecord = SummaryRecord {
                date: existing.date.clone(),
                patterns: existing.patterns.clone(),
                outcome: existing.outcome,
                count,
                latency_ms_total,
                latency_ms_max: if existing.latency_ms_max >= summary.latency_ms_max {
                    existing.latency_ms_max
                } else {
                    summary.latency_ms_max
                },
                condensed_at: summary.condensed_at,
            };
            proof {
                assert(next@ == merged(before.entries@[i as int].1@, summary@));
                lemma_weight_update(
                    before.entries@,
                    i as int,
                    (before.entries@[i as int].0, next),
                );
            }
            acc.set_at(i, next);
            proof {
                assert forall|k: int| 0 <= k < acc.entries@.len() implies (
                #[trigger] acc.entries@[k]).0.id() == summary_id(acc.entries@[k].1@) by {
                    assert(before.entries@[k].0.id() == summary_id(before.entries@[k].1@));
                }
                assert(summary_views(acc.map()) =~= with_summary(
                    summary_views(before.map()),
                    summary@,
                ));
            }
        },
        Slot::Missing(i) => {
            proof {
                lemma_weight_insert(before.entries@, i as int, (key, summary));
            }
            acc.insert_at(i, key, summary);
            proof {
                assert forall|k: int| 0 <= k < acc.entries@.len() implies (
                #[trigger] acc.entries@[k]).0.id() == summary_id(acc.entries@[k].1@) by {
                    if k < i {
                        assert(acc.entries@[k] == before.entries@[k]);
                    } else if k > i {
                        assert(acc.entries@[k] == before.entries@[k - 1]);
                    }
                }
                assert(summary_views(acc.map()) =~= with_summary(
                    summary_views(before.map()),
                    summary@,
                ));
            }
        },
    }
    true
}

/// The summary of one bounce.
fn summarize(b: &BounceRecord, condensed_at: Timestamp) -> (r: SummaryRecord)
    ensures
        r@ == summary_of(*b, condensed_at),
        summary_day(r.date@) == b.resolved_at.day(),
{
    let day: i32 = b.resolved_at.day_number();
    SummaryRecord {
        date: clock::print_date(day),
        patterns: b.reason.patterns(),
        outcome: b.outcome,
        count: 1,
        latency_ms_total: b.latency_ms,
        latency_ms_max: b.latency_ms,
        condensed_at,
    }
}

proof fn lemma_represented_append(a: Seq<JournalRecord>, b: Seq<JournalRecord>)
    ensures
        represented(a + b) == represented(a) + represented(b),
        latency_total(a + b) == latency_total(a) + latency_total(b),
    decreases b.len(),
{
    if b.len() == 0 {
        assert(a + b =~= a);
    } else {
        lemma_represented_append(a, b.drop_last());
        assert((a + b).drop_last() =~= a + b.drop_last());
    }
}

/// The summary that a record adds when the journal is condensed, if any.
fn contributed(
    record: &JournalRecord,
    cutoff: Timestamp,
    condensed_at: Timestamp,
) -> (r: Option<SummaryRecord>)
    ensures
        match r {
            Some(s) => contribution(*record, cutoff, condensed_at) == Some(s@),
            None => contribution(*record, cutoff, condensed_at) is None,
        },
{
    match record {
        JournalRecord::Summary(s) => Some(
            SummaryRecord {
                date: s.date.clone(),
                patterns: s.patterns.clone(),
                outcome: s.outcome,
                count: s.count,
                latency_ms_total: s.latency_ms_total,
                latency_ms_max: s.latency_ms_max,
                condensed_at: s.condensed_at,
            },
        ),
        JournalRecord::Bounce(b) => if b.resolved_at.is_before(&cutoff) {
            Some(summarize(b, condensed_at))
        } else {
            None
        },
    }
}

impl JournalScan {
    /// Whether the sums of every summary that the journal condenses to fit in
    /// 64-bit numbers, as [`JournalScan::condense`] needs.
    pub fn is_foldable(&self, cutoff: Timestamp, condensed_at: Timestamp) -> (r: bool)
        ensures
            r == foldable(self.records@, cutoff, condensed_at),
    {
        let ghost all = self.records@;
        let mut acc: Summaries = Sorted::new();
        let mut i: usize = 0;
        proof {
            assert(all.take(0) =~= Seq::empty());
            assert(summary_views(acc.map()) =~= Map::empty());
        }
        while i < self.records.len()
            invariant
                i <= all.len(),
                all == self.records@,
                summaries_wf(acc),
                summary_views(acc.map()) == condensed(all.take(i as int), cutoff, condensed_at),
            decreases all.len() - i,
        {
            proof {
                assert(all.take(i + 1).drop_last() =~= all.take(i as int));
                assert(all.take(i + 1).last() == all[i as int]);
            }
            if let Some(summary) = contributed(&self.records[i], cutoff, condensed_at) {
                let ghost id = summary_id(summary@);
                if !merge_summary(&mut acc, summary) {
                    proof {
                        lemma_condensed_grows(all, i + 1, cutoff, condensed_at, id);
                    }
                    return false;
                }
            }
            i = i + 1;
        }
        proof {
            assert(all.take(all.len() as int) =~= all);
            let views = condensed(all, cutoff, condensed_at);
            assert forall|id: SummaryId| #[trigger] views.contains_key(id) implies sums_fit(
                views[id],
            ) by {
                assert(views[id] == acc.map()[id]@);
            }
        }
        true
    }

    /// Folds the bounces resolved before `cutoff` into summaries, together with
    /// the summaries that are there already. No bounce and no latency is lost.
    pub fn condense(self, cutoff: Timestamp, condensed_at: Timestamp) -> (r: Condensed)
        requires
            foldable(self.records@, cutoff, condensed_at),
        ensures
            condenses_to(
                self.records@,
                cutoff,
                condensed_at,
                r.records@,
                r.summaries as nat,
            ),
            r.malformed == self.malformed,
            r.kept_bounces == r.records@.len() - r.summaries,
            r.condensed_bounces == self.records@.filter(
                |record: JournalRecord| is_folded(record, cutoff),
            ).len(),
            represented(r.records@) == represented(self.records@),
            latency_total(r.records@) == latency_total(self.records@),
            forall|i: int|
                0 <= i < self.records@.len() && is_folded(#[trigger] self.records@[i], cutoff)
                    ==> dated_as_resolved(self.records@[i]),
    {
        let ghost all = self.records@;
        let ghost raw = |record: JournalRecord| stays_raw(record, cutoff);
        let ghost folded = |record: JournalRecord| is_folded(record, cutoff);
        let mut acc: Summaries = Sorted::new();
        let mut kept: Vec<JournalRecord> = Vec::new();
        let mut condensed_bounces: u64 = 0;
        let mut records: Vec<JournalRecord> = self.records;
        let total: usize = records.len();
        let mut i: usize = 0;
        proof {
            reveal(Seq::filter);
            assert(all.take(0) =~= Seq::empty());
            assert(all.skip(0) =~= all);
            assert(summary_views(acc.map()) =~= Map::empty());
        }
        while i < total
            invariant
                i <= total == all.len(),
                foldable(all, cutoff, condensed_at),
                raw == (|record: JournalRecord| stays_raw(record, cutoff)),
                folded == (|record: JournalRecord| is_folded(record, cutoff)),
                forall|n: int|
                    0 <= n < i && is_folded(#[trigger] all[n], cutoff) ==> dated_as_resolved(
                        all[n],
                    ),
                records@ == all.skip(i as int),
                summaries_wf(acc),
                summary_views(acc.map()) == condensed(all.take(i as int), cutoff, condensed_at),
                kept@ == all.take(i as int).filter(raw),
                kept@.len() <= i,
                condensed_bounces == all.take(i as int).filter(folded).len(),
                condensed_bounces <= i,
                summaries_weight(acc.entries@) + represented(kept@) == represented(
                    all.take(i as int),
                ),
                summaries_latency(acc.entries@) + latency_total(kept@) == latency_total(
                    all.take(i as int),
                ),
            decreases total - i,
        {
            proof {
                lemma_totals_step(all, i as int);
                assert(all.take(i + 1) =~= all.take(i as int).push(all[i as int]));
                all.take(i as int).lemma_filter_push(all[i as int], raw);
                all.take(i as int).lemma_filter_push(all[i as int], folded);
                assert(records@[0] == all[i as int]);
                assert(records@.remove(0) =~= all.skip(i + 1));
                if let Some(s) = contribution(all[i as int], cutoff, condensed_at) {
                    lemma_condensed_grows(all, i + 1, cutoff, condensed_at, summary_id(s));
                }
            }
            let record: JournalRecord = records.remove(0);
            match record {
                JournalRecord::Summary(s) => {
                    let _ = merge_summary(&mut acc, s);
                },
                JournalRecord::Bounce(b) => {
                    if b.resolved_at.is_before(&cutoff) {
                        condensed_bounces = condensed_bounces + 1;
                        let summary: SummaryRecord = summarize(&b, condensed_at);
                        assert(summary@.date == clock::date_text(b.resolved_at.day()));
                        assert(dated_as_resolved(all[i as int]));
                        let _ = merge_summary(&mut acc, summary);
                    } else {
                        let ghost had = kept@;
                        let record: JournalRecord = JournalRecord::Bounce(b);
                        kept.push(record);
                        assert(kept@.drop_last() =~= had);
                    }
                },
            }
            i = i + 1;
        }
        let ghost map = condensed(all, cutoff, condensed_at);
        let ghost entries = acc.entries@;
        let summaries: usize = acc.entries.len();
        let mut rest: Vec<(SummaryKey, SummaryRecord)> = acc.entries;
        let mut out: Vec<JournalRecord> = Vec::new();
        let mut k: usize = 0;
        proof {
            assert(all.take(all.len() as int) =~= all);
            assert(entries.skip(0) =~= entries);
            assert(entries.take(0) =~= Seq::empty());
        }
        while k < summaries
            invariant
                k <= summaries == entries.len(),
                rest@ == entries.skip(k as int),
                out@.len() == k,
                forall|n: int|
                    0 <= n < k ==> #[trigger] out@[n] == JournalRecord::Summary(entries[n].1),
                represented(out@) == summaries_weight(entries.take(k as int)),
                latency_total(out@) == summaries_latency(entries.take(k as int)),
            decreases summaries - k,
        {
            let ghost had = out@;
            assert(rest@[0] == entries[k as int]);
            assert(rest@.remove(0) =~= entries.skip(k + 1));
            let (_, summary): (SummaryKey, SummaryRecord) = rest.remove(0);
            out.push(JournalRecord::Summary(summary));
            proof {
                assert(out@.drop_last() =~= had);
                assert(entries.take(k + 1).drop_last() =~= entries.take(k as int));
                assert(entries.take(k + 1).last() == entries[k as int]);
            }
            k = k + 1;
        }
        let ghost listed = out@;
        let ghost kept_seq = kept@;
        proof {
            assert(entries.take(entries.len() as int) =~= entries);
            table::lemma_ascending_distinct(entries);
            assert forall|n: int| 0 <= n < listed.len() implies ((
            #[trigger] listed[n]) matches JournalRecord::Summary(s) && map.contains_key(
                summary_id(s@),
            ) && map[summary_id(s@)] == s@) by {
                table::lemma_position(entries, n);
            }
            assert forall|id: SummaryId| #[trigger] map.contains_key(id) implies exists|n: int|
                0 <= n < listed.len() && summary_id((#[trigger] listed[n])->Summary_0@) == id by {
                table::lemma_present(entries, id);
                let p = table::position(entries, id);
                assert(summary_id(listed[p]->Summary_0@) == id);
            }
            assert forall|a: int, b: int| 0 <= a < b < listed.len() implies SummaryKey::precedes(
                summary_id((#[trigger] listed[a])->Summary_0@),
                summary_id((#[trigger] listed[b])->Summary_0@),
            ) by {
                assert(entries[a].0.id() == summary_id(entries[a].1@));
                assert(entries[b].0.id() == summary_id(entries[b].1@));
            }
        }
        let kept_bounces: usize = kept.len();
        out.append(&mut kept);
        proof {
            assert(out@ == listed + kept_seq);
            assert(out@.take(summaries as int) =~= listed);
            assert(out@.skip(summaries as int) =~= kept_seq);
            lemma_represented_append(listed, kept_seq);
        }
        Condensed {
            records: out,
            malformed: self.malformed,
            condensed_bounces,
            summaries: summaries as u64,
            kept_bounces: kept_bounces as u64,
        }
    }
}

/// Whether two records say the same.
pub open spec fn same_record(a: JournalRecord, b: JournalRecord) -> bool {
    match (a, b) {
        (JournalRecord::Bounce(x), JournalRecord::Bounce(y)) => x == y,
        (JournalRecord::Summary(x), JournalRecord::Summary(y)) => x@ == y@,
        _ => false,
    }
}

/// The id of a record that is a summary.
spec fn id_at(records: Seq<JournalRecord>, i: int) -> SummaryId {
    summary_id(records[i]->Summary_0@)
}

/// Summaries that are listed condense to the summaries that they list.
proof fn lemma_listed_condense(
    records: Seq<JournalRecord>,
    map: Map<SummaryId, SummaryView>,
    cutoff: Timestamp,
    condensed_at: Timestamp,
)
    requires
        lists(records, map),
    ensures
        condensed(records, cutoff, condensed_at) == map,
    decreases records.len(),
{
    let whole = condensed(records, cutoff, condensed_at);
    if records.len() == 0 {
        assert(whole =~= map);
    } else {
        let rest = records.drop_last();
        let last = records.last()->Summary_0@;
        let id = summary_id(last);
        let short = map.remove(id);
        assert(id == id_at(records, records.len() - 1));
        assert forall|i: int| 0 <= i < rest.len() implies ((
        #[trigger] rest[i]) matches JournalRecord::Summary(s) && short.contains_key(summary_id(s@))
            && short[summary_id(s@)] == s@) by {
            assert(records[i] == rest[i]);
            SummaryKey::total(id_at(records, i), id);
        }
        assert forall|i: int, j: int| 0 <= i < j < rest.len() implies SummaryKey::precedes(
            summary_id((#[trigger] rest[i])->Summary_0@),
            summary_id((#[trigger] rest[j])->Summary_0@),
        ) by {
            assert(records[i] == rest[i] && records[j] == rest[j]);
        }
        assert forall|other: SummaryId| #[trigger] short.contains_key(other) implies exists|i: int|
            0 <= i < rest.len() && summary_id((#[trigger] rest[i])->Summary_0@) == other by {
            assert(map.contains_key(other));
            let i = choose|i: int|
                0 <= i < records.len() && summary_id((#[trigger] records[i])->Summary_0@) == other;
            assert(rest[i] == records[i]);
        }
        lemma_listed_condense(rest, short, cutoff, condensed_at);
        assert(whole =~= map);
    }
}

/// Bounces that stay add nothing to the summaries.
proof fn lemma_raw_condense(
    a: Seq<JournalRecord>,
    b: Seq<JournalRecord>,
    cutoff: Timestamp,
    condensed_at: Timestamp,
)
    requires
        forall|i: int| 0 <= i < b.len() ==> stays_raw(#[trigger] b[i], cutoff),
    ensures
        condensed(a + b, cutoff, condensed_at) == condensed(a, cutoff, condensed_at),
    decreases b.len(),
{
    if b.len() == 0 {
        assert(a + b =~= a);
    } else {
        assert((a + b).drop_last() =~= a + b.drop_last());
        assert(stays_raw(b[b.len() - 1], cutoff));
        lemma_raw_condense(a, b.drop_last(), cutoff, condensed_at);
    }
}

/// A filter that passes each record keeps them all; one that passes none keeps none.
proof fn lemma_filter_whole(records: Seq<JournalRecord>, keep: spec_fn(JournalRecord) -> bool)
    ensures
        (forall|i: int| 0 <= i < records.len() ==> keep(#[trigger] records[i])) ==> records.filter(
            keep,
        ) == records,
        (forall|i: int| 0 <= i < records.len() ==> !keep(#[trigger] records[i])) ==> records.filter(
            keep,
        ).len() == 0,
    decreases records.len(),
{
    reveal(Seq::filter);
    if records.len() > 0 {
        let rest = records.drop_last();
        lemma_filter_whole(rest, keep);
        assert(records[records.len() - 1] == records.last());
        assert(forall|i: int| 0 <= i < rest.len() ==> #[trigger] rest[i] == records[i]);
        assert(rest.push(records.last()) =~= records);
    }
}

/// The summaries of a map can be listed in one way only.
proof fn lemma_lists_one_way(
    a: Seq<JournalRecord>,
    b: Seq<JournalRecord>,
    map: Map<SummaryId, SummaryView>,
    n: int,
)
    requires
        lists(a, map),
        lists(b, map),
        0 <= n <= a.len(),
    ensures
        n <= b.len(),
        forall|i: int| 0 <= i < n ==> #[trigger] id_at(a, i) == id_at(b, i),
    decreases n,
{
    if n > 0 {
        let last = n - 1;
        lemma_lists_one_way(a, b, map, last);
        let id = id_at(a, last);
        assert(map.contains_key(summary_id(a[last]->Summary_0@)));
        let k = choose|k: int|
            0 <= k < b.len() && summary_id((#[trigger] b[k])->Summary_0@) == id;
        assert(id_at(b, k) == id);
        if k < last {
            assert(id_at(a, k) == id_at(b, k));
            assert(SummaryKey::precedes(
                summary_id(a[k]->Summary_0@),
                summary_id(a[last]->Summary_0@),
            ));
            SummaryKey::total(id, id);
        }
        if k > last {
            let other = id_at(b, last);
            assert(SummaryKey::precedes(
                summary_id(b[last]->Summary_0@),
                summary_id(b[k]->Summary_0@),
            ));
            assert(map.contains_key(summary_id(b[last]->Summary_0@)));
            let l = choose|l: int|
                0 <= l < a.len() && summary_id((#[trigger] a[l])->Summary_0@) == other;
            SummaryKey::total(id, other);
            if l < last {
                assert(id_at(a, l) == id_at(b, l));
                assert(SummaryKey::precedes(
                    summary_id(b[l]->Summary_0@),
                    summary_id(b[last]->Summary_0@),
                ));
                SummaryKey::total(other, other);
            } else if l > last {
                assert(SummaryKey::precedes(
                    summary_id(a[last]->Summary_0@),
                    summary_id(a[l]->Summary_0@),
                ));
            }
        }
    }
}

/// Condensing a second time with the same cutoff changes no record, whenever it is
/// done, and finds no bounce to fold.
pub proof fn law_condensing_again_changes_nothing(
    records: Seq<JournalRecord>,
    cutoff: Timestamp,
    first_at: Timestamp,
    once: Seq<JournalRecord>,
    summaries: nat,
    second_at: Timestamp,
    twice: Seq<JournalRecord>,
    summaries_then: nat,
)
    requires
        condenses_to(records, cutoff, first_at, once, summaries),
        condenses_to(once, cutoff, second_at, twice, summaries_then),
    ensures
        summaries_then == summaries,
        twice.len() == once.len(),
        forall|i: int| 0 <= i < once.len() ==> same_record(#[trigger] twice[i], once[i]),
        once.filter(|record: JournalRecord| is_folded(record, cutoff)).len() == 0,
{
    let raw = |record: JournalRecord| stays_raw(record, cutoff);
    let folded = |record: JournalRecord| is_folded(record, cutoff);
    let n = summaries as int;
    let m = summaries_then as int;
    let listed = once.take(n);
    let kept = once.skip(n);
    let listed_then = twice.take(m);
    let kept_then = twice.skip(m);
    let map = condensed(records, cutoff, first_at);
    assert(once =~= listed + kept);
    assert(twice =~= listed_then + kept_then);
    assert forall|i: int| 0 <= i < kept.len() implies stays_raw(#[trigger] kept[i], cutoff) by {
        records.lemma_filter_pred(raw, i);
    }
    assert forall|i: int| 0 <= i < listed.len() implies (#[trigger] listed[i]) is Summary by {
        assert(listed[i] matches JournalRecord::Summary(s));
    }
    lemma_listed_condense(listed, map, cutoff, second_at);
    lemma_raw_condense(listed, kept, cutoff, second_at);
    Seq::filter_distributes_over_add(listed, kept, raw);
    lemma_filter_whole(listed, raw);
    lemma_filter_whole(kept, raw);
    assert(once.filter(raw) =~= kept);
    lemma_filter_whole(once, folded);
    assert forall|i: int| 0 <= i < once.len() implies !folded(#[trigger] once[i]) by {
        if i < n {
            assert(once[i] == listed[i]);
        } else {
            assert(once[i] == kept[i - n]);
        }
    }
    lemma_lists_one_way(listed, listed_then, map, n);
    lemma_lists_one_way(listed_then, listed, map, m);
    assert forall|i: int| 0 <= i < once.len() implies same_record(#[trigger] twice[i], once[i]) by {
        if i < n {
            assert(id_at(listed, i) == id_at(listed_then, i));
            assert(once[i] == listed[i] && twice[i] == listed_then[i]);
        } else {
            assert(once[i] == kept[i - n] && twice[i] == kept_then[i - n]);
        }
    }
}

// ── Vacuuming ───────────────────────────────────────────────────────────────

/// The day of a summary. A date that cannot be read counts as the first of all,
/// so that such a summary is dropped in the end.
pub open spec fn summary_day(date: Seq<char>) -> i32 {
    match clock::parsed_date(date) {
        Some(day) => day,
        None => FIRST_DAY,
    }
}

/// Whether a vacuum with this cutoff keeps a record: it keeps every bounce, and
/// the summaries of the cutoff's day and later.
pub open spec fn survives_vacuum(record: JournalRecord, cutoff: Timestamp) -> bool {
    match record {
        JournalRecord::Bounce(_) => true,
        JournalRecord::Summary(s) => summary_day(s.date@) >= cutoff.day(),
    }
}

/// What vacuuming a journal gives.
pub struct Vacuumed {
    /// The records that stay. The lines that are no records do not.
    pub records: Vec<JournalRecord>,
    /// How many summaries were dropped.
    pub dropped_summaries: u64,
    /// How many lines were dropped.
    pub dropped_malformed: u64,
}

fn summary_date(s: &SummaryRecord) -> (r: i32)
    ensures
        r == summary_day(s.date@),
{
    match clock::read_date(s.date.as_str()) {
        Some(day) => day,
        None => FIRST_DAY,
    }
}

/// What is left holds just those of the records that pass.
proof fn lemma_filter_holds(
    records: Seq<JournalRecord>,
    keep: spec_fn(JournalRecord) -> bool,
    record: JournalRecord,
)
    ensures
        records.filter(keep).contains(record) <==> records.contains(record) && keep(record),
{
    if records.contains(record) && keep(record) {
        let i = choose|i: int| 0 <= i < records.len() && records[i] == record;
        records.lemma_filter_contains(keep, i);
    }
    if records.filter(keep).contains(record) {
        let i = choose|i: int| 0 <= i < records.filter(keep).len() && records.filter(keep)[i] == record;
        records.lemma_filter_pred(keep, i);
        lemma_filter_within(records, keep, record);
    }
}

proof fn lemma_filter_within(
    records: Seq<JournalRecord>,
    keep: spec_fn(JournalRecord) -> bool,
    record: JournalRecord,
)
    requires
        records.filter(keep).contains(record),
    ensures
        records.contains(record),
    decreases records.len(),
{
    reveal(Seq::filter);
    if records.len() > 0 {
        if record == records.last() {
            assert(records[records.len() - 1] == record);
        } else {
            let rest = records.drop_last().filter(keep);
            let i = choose|i: int| 0 <= i < records.filter(keep).len() && records.filter(keep)[i] == record;
            assert(rest[i] == record);
            lemma_filter_within(records.drop_last(), keep, record);
            let k = choose|k: int| 0 <= k < records.drop_last().len() && records.drop_last()[k] == record;
            assert(records[k] == record);
        }
    }
}

impl JournalScan {
    /// Drops the summaries dated before `cutoff`, and every line that is no record.
    pub fn vacuum(self, cutoff: Timestamp) -> (r: Vacuumed)
        ensures
            r.records@ == self.records@.filter(
                |record: JournalRecord| survives_vacuum(record, cutoff),
            ),
            r.records@ == vacuumed(self.records@, cutoff),
            r.dropped_summaries == self.records@.len() - r.records@.len(),
            r.dropped_malformed == self.malformed@.len(),
            forall|i: int|
                0 <= i < self.records@.len() ==> (r.records@.contains(#[trigger] self.records@[i])
                    <==> match self.records@[i] {
                    JournalRecord::Bounce(_) => true,
                    JournalRecord::Summary(s) => match clock::parsed_date(s.date@) {
                        Some(day) => day >= cutoff.day(),
                        None => FIRST_DAY >= cutoff.day(),
                    },
                }),
    {
        let ghost all = self.records@;
        let ghost keep = |record: JournalRecord| survives_vacuum(record, cutoff);
        let cutoff_day: i32 = cutoff.day_number();
        let dropped_malformed: u64 = self.malformed.len() as u64;
        let mut records: Vec<JournalRecord> = self.records;
        let total: usize = records.len();
        let mut kept: Vec<JournalRecord> = Vec::new();
        let mut dropped: u64 = 0;
        let mut i: usize = 0;
        proof {
            reveal(Seq::filter);
            assert(all.take(0) =~= Seq::empty());
            assert(all.skip(0) =~= all);
        }
        while i < total
            invariant
                i <= total == all.len(),
                keep == (|record: JournalRecord| survives_vacuum(record, cutoff)),
                cutoff_day == cutoff.day(),
                records@ == all.skip(i as int),
                kept@ == all.take(i as int).filter(keep),
                dropped + kept@.len() == i,
            decreases total - i,
        {
            proof {
                assert(all.take(i + 1) =~= all.take(i as int).push(all[i as int]));
                all.take(i as int).lemma_filter_push(all[i as int], keep);
                assert(records@[0] == all[i as int]);
                assert(records@.remove(0) =~= all.skip(i + 1));
            }
            let record: JournalRecord = records.remove(0);
            let stays: bool = match &record {
                JournalRecord::Bounce(_) => true,
                JournalRecord::Summary(s) => summary_date(s) >= cutoff_day,
            };
            if stays {
                kept.push(record);
            } else {
                dropped = dropped + 1;
            }
            i = i + 1;
        }
        assert(all.take(all.len() as int) =~= all);
        proof {
            assert forall|i: int| 0 <= i < all.len() implies (kept@.contains(#[trigger] all[i])
                <==> keep(all[i])) by {
                lemma_filter_holds(all, keep, all[i]);
            }
        }
        Vacuumed { records: kept, dropped_summaries: dropped, dropped_malformed }
    }
}

/// A vacuum never drops a bounce that has not been condensed.
pub proof fn law_vacuum_keeps_bounces(records: Seq<JournalRecord>, cutoff: Timestamp, b: BounceRecord)
    requires
        records.contains(JournalRecord::Bounce(b)),
    ensures
        records.filter(|record: JournalRecord| survives_vacuum(record, cutoff)).contains(
            JournalRecord::Bounce(b),
        ),
{
    let keep = |record: JournalRecord| survives_vacuum(record, cutoff);
    let i = choose|i: int| 0 <= i < records.len() && records[i] == JournalRecord::Bounce(b);
    records.lemma_filter_contains(keep, i);
}

/// What a vacuum with a cutoff leaves of some records.
pub open spec fn vacuumed(records: Seq<JournalRecord>, cutoff: Timestamp) -> Seq<JournalRecord> {
    records.filter(|record: JournalRecord| survives_vacuum(record, cutoff))
}

/// A vacuum keeps every summary whose date reads as the day of the cutoff or a later
/// one, and keeps none whose date reads as an earlier day.
pub proof fn law_vacuum_goes_by_the_day(
    records: Seq<JournalRecord>,
    cutoff: Timestamp,
    s: SummaryRecord,
    day: i32,
)
    requires
        records.contains(JournalRecord::Summary(s)),
        clock::parsed_date(s.date@) == Some(day),
    ensures
        day >= cutoff.unix_secs() / 86_400 + 719_163 ==> vacuumed(records, cutoff).contains(
            JournalRecord::Summary(s),
        ),
        day < cutoff.unix_secs() / 86_400 + 719_163 ==> !vacuumed(records, cutoff).contains(
            JournalRecord::Summary(s),
        ),
{
    lemma_filter_holds(
        records,
        |record: JournalRecord| survives_vacuum(record, cutoff),
        JournalRecord::Summary(s),
    );
}

/// A summary whose date cannot be read does not outlive a vacuum with a cutoff after
/// the first day of all.
pub proof fn law_vacuum_drops_unreadable_dates(
    records: Seq<JournalRecord>,
    cutoff: Timestamp,
    s: SummaryRecord,
)
    requires
        clock::parsed_date(s.date@) is None,
        cutoff.day() > FIRST_DAY,
    ensures
        !vacuumed(records, cutoff).contains(JournalRecord::Summary(s)),
{
    lemma_filter_holds(
        records,
        |record: JournalRecord| survives_vacuum(record, cutoff),
        JournalRecord::Summary(s),
    );
}

/// A later cutoff keeps nothing that an earlier one drops, and a second vacuum with the
/// same cutoff drops nothing more.
pub proof fn law_later_vacuums_keep_less(
    records: Seq<JournalRecord>,
    earlier: Timestamp,
    later: Timestamp,
    record: JournalRecord,
)
    requires
        earlier.unix_secs() <= later.unix_secs(),
    ensures
        vacuumed(records, later).contains(record) ==> vacuumed(records, earlier).contains(record),
        vacuumed(vacuumed(records, later), later) == vacuumed(records, later),
{
    let first = |record: JournalRecord| survives_vacuum(record, earlier);
    let second = |record: JournalRecord| survives_vacuum(record, later);
    assert(earlier.day() <= later.day());
    lemma_filter_holds(records, first, record);
    lemma_filter_holds(records, second, record);
    assert forall|i: int| 0 <= i < records.filter(second).len() implies second(
        #[trigger] records.filter(second)[i],
    ) by {
        records.lemma_filter_pred(second, i);
    }
    lemma_filter_whole(records.filter(second), second);
}

// ── What holds of the journal ───────────────────────────────────────────────

/// The bounces that are looked at are those of the journal that were resolved no earlier
/// than is asked for, with the outcome and the pattern that are asked for.
pub proof fn law_filters_pass_what_they_ask_for(
    records: Seq<JournalRecord>,
    filter: StatsFilter,
    b: BounceRecord,
)
    ensures
        passing(records, filter).contains(b) <==> {
            &&& records.contains(JournalRecord::Bounce(b))
            &&& filter.since matches Some(since) ==> since.unix_secs() < b.resolved_at.unix_secs()
                || (since.unix_secs() == b.resolved_at.unix_secs() && since.subsec()
                <= b.resolved_at.subsec())
            &&& filter.outcome matches Some(outcome) ==> b.outcome == outcome
            &&& filter.pattern matches Some(pattern) ==> exists|i: int|
                0 <= i < b.reason@.len() && (#[trigger] b.reason@[i]).pattern == pattern@
        },
    decreases records.len(),
{
    if let Some(pattern) = filter.pattern {
        let patterns = judge::patterns_of(b.reason@);
        if patterns.contains(pattern@) {
            let i = choose|i: int| 0 <= i < patterns.len() && patterns[i] == pattern@;
            assert(b.reason@[i].pattern == pattern@);
        }
        if exists|i: int| 0 <= i < b.reason@.len() && (#[trigger] b.reason@[i]).pattern == pattern@ {
            let i = choose|i: int|
                0 <= i < b.reason@.len() && (#[trigger] b.reason@[i]).pattern == pattern@;
            assert(patterns[i] == pattern@);
        }
    }
    if records.len() > 0 {
        let front = records.drop_last();
        let before = passing(front, filter);
        let after = passing(records, filter);
        law_filters_pass_what_they_ask_for(front, filter, b);
        assert(records =~= front.push(records.last()));
        assert(records.contains(JournalRecord::Bounce(b)) <==> front.contains(
            JournalRecord::Bounce(b),
        ) || records.last() == JournalRecord::Bounce(b)) by {
            if front.contains(JournalRecord::Bounce(b)) {
                let i = choose|i: int| 0 <= i < front.len() && front[i] == JournalRecord::Bounce(b);
                assert(records[i] == front[i]);
            }
            if records.contains(JournalRecord::Bounce(b)) {
                let i = choose|i: int|
                    0 <= i < records.len() && records[i] == JournalRecord::Bounce(b);
                if i < front.len() {
                    assert(front[i] == records[i]);
                }
            }
            assert(records[records.len() - 1] == records.last());
        }
        if let JournalRecord::Bounce(last) = records.last() {
            if passes(filter, last) {
                assert(after == before.push(last));
                assert(after.contains(b) <==> before.contains(b) || b == last) by {
                    if before.contains(b) {
                        let i = choose|i: int| 0 <= i < before.len() && before[i] == b;
                        assert(after[i] == b);
                    }
                    if after.contains(b) {
                        let i = choose|i: int| 0 <= i < after.len() && after[i] == b;
                        if i < before.len() {
                            assert(before[i] == b);
                        }
                    }
                    assert(after[before.len() as int] == last);
                }
            }
        }
    }
}

/// Every record of a journal is a bounce or a summary: without a filter, as many bounces
/// are looked at as there are records that are no summaries, and a filter only leaves
/// some of them out.
pub proof fn law_every_record_is_counted(records: Seq<JournalRecord>, filter: StatsFilter)
    ensures
        passing(records, filter).len() + summaries_among(records) <= records.len(),
        filter.since is None && filter.outcome is None && filter.pattern is None ==> passing(
            records,
            filter,
        ).len() + summaries_among(records) == records.len(),
    decreases records.len(),
{
    reveal(Seq::filter);
    if records.len() > 0 {
        law_every_record_is_counted(records.drop_last(), filter);
        let is_summary = |r: JournalRecord| r is Summary;
        records.drop_last().lemma_filter_push(records.last(), is_summary);
        assert(records =~= records.drop_last().push(records.last()));
    }
}

/// One more record adds one bounce to those that a journal stands for, or as many as it
/// sums up; and their latency to the latency. Only a summary adds to the summaries.
pub proof fn law_records_add_up(records: Seq<JournalRecord>, record: JournalRecord)
    ensures
        represented(records.push(record)) == represented(records) + match record {
            JournalRecord::Bounce(_) => 1nat,
            JournalRecord::Summary(s) => s.count as nat,
        },
        latency_total(records.push(record)) == latency_total(records) + match record {
            JournalRecord::Bounce(b) => b.latency_ms as nat,
            JournalRecord::Summary(s) => s.latency_ms_total as nat,
        },
        summaries_among(records.push(record)) == summaries_among(records) + match record {
            JournalRecord::Bounce(_) => 0nat,
            JournalRecord::Summary(_) => 1nat,
        },
        summarized_among(records.push(record)) == summarized_among(records) + match record {
            JournalRecord::Bounce(_) => 0nat,
            JournalRecord::Summary(s) => s.count as nat,
        },
{
    let is_summary = |r: JournalRecord| r is Summary;
    records.lemma_filter_push(record, is_summary);
    assert(records.push(record).drop_last() =~= records);
}

/// A bounce adds one to those with its outcome and to no others, one to each pattern that
/// it names, and one to the chained where it has a parent.
pub proof fn law_bounces_are_tallied(bounces: Seq<BounceRecord>, b: BounceRecord, outcome: Outcome)
    ensures
        times(outcome_words(bounces.push(b)), outcome_text(outcome)) == times(
            outcome_words(bounces),
            outcome_text(outcome),
        ) + if b.outcome == outcome {
            1nat
        } else {
            0
        },
        pattern_words(bounces.push(b)) == pattern_words(bounces) + judge::patterns_of(b.reason@),
        chained_among(bounces.push(b)) == chained_among(bounces) + if b.parent is Some {
            1nat
        } else {
            0
        },
        latencies_of(bounces.push(b)) == latencies_of(bounces).push(b.latency_ms),
{
    let words = outcome_words(bounces.push(b));
    assert(words.drop_last() =~= outcome_words(bounces));
    assert(words.last() == outcome_text(b.outcome));
    if outcome_text(b.outcome) == outcome_text(outcome) {
        law_outcome_words_are_distinct(b.outcome, outcome);
    }
    assert(bounces.push(b).drop_last() =~= bounces);
    bounces.lemma_filter_push(b, |b: BounceRecord| b.parent is Some);
    assert(latencies_of(bounces.push(b)) =~= latencies_of(bounces).push(b.latency_ms));
}

/// No parent dangles exactly where every parent is the handle of some bounce of the
/// journal.
pub proof fn law_parents_dangle_when_nobody_has_their_handle(records: Seq<JournalRecord>)
    ensures
        dangling_among(records, records) == 0 <==> forall|i: int|
            0 <= i < records.len() ==> ((#[trigger] records[i]) matches JournalRecord::Bounce(b)
                ==> (b.parent matches Some(p) ==> exists|k: int|
                0 <= k < records.len() && ((#[trigger] records[k]) matches JournalRecord::Bounce(c)
                    && c.handle@ == p@))),
{
    let loose = |r: JournalRecord| dangles(records, r);
    if dangling_among(records, records) == 0 {
        assert forall|i: int| 0 <= i < records.len() implies ((
        #[trigger] records[i]) matches JournalRecord::Bounce(b) ==> (b.parent matches Some(p)
            ==> exists|k: int|
            0 <= k < records.len() && ((#[trigger] records[k]) matches JournalRecord::Bounce(c)
                && c.handle@ == p@))) by {
            lemma_filter_holds(records, loose, records[i]);
            assert(records.contains(records[i]));
            assert(records.filter(loose).len() == 0);
            assert(!records.filter(loose).contains(records[i]));
            assert(!dangles(records, records[i]));
        }
    } else {
        let r = records.filter(loose)[0];
        assert(records.filter(loose).contains(r));
        lemma_filter_holds(records, loose, r);
        let i = choose|i: int| 0 <= i < records.len() && records[i] == r;
        assert(dangles(records, records[i]));
    }
}

/// The smallest and the largest latency are latencies that bound all others, the median
/// stands in the middle of all in order, and the mean is their sum shared out.
pub proof fn law_latencies_are_summed_up(stats: LatencyStats, numbers: Seq<u64>)
    requires
        numbers.len() > 0,
        sums_up(stats, numbers),
    ensures
        numbers.contains(stats.min_ms),
        numbers.contains(stats.max_ms),
        forall|i: int|
            0 <= i < numbers.len() ==> stats.min_ms <= #[trigger] numbers[i] <= stats.max_ms,
        exists|sorted: Seq<u64>|
            #![trigger sorted.to_multiset()]
            sorted.to_multiset() == numbers.to_multiset() && sorted.len() == numbers.len() && (
            forall|i: int, j: int| 0 <= i <= j < sorted.len() ==> sorted[i] <= sorted[j])
                && stats.p50_ms == sorted[numbers.len() as int / 2],
        stats.min_ms <= stats.p50_ms <= stats.max_ms,
        stats.mean_ms * numbers.len() <= sum(numbers) < (stats.mean_ms + 1) * numbers.len(),
{
    let leq = |a: u64, b: u64| a <= b;
    let sorted = in_order(numbers);
    let n = numbers.len();
    assert(vstd::relations::total_ordering(leq));
    numbers.lemma_sort_by_ensures(leq);
    assert(sorted.to_multiset() == numbers.to_multiset());
    numbers.to_multiset_ensures();
    sorted.to_multiset_ensures();
    assert(sorted.len() == n);
    assert forall|i: int, j: int| 0 <= i <= j < sorted.len() implies sorted[i] <= sorted[j] by {
        assert(leq(sorted[i], sorted[j]) || i == j);
    }
    assert forall|x: u64| numbers.contains(x) <==> sorted.contains(x) by {
        assert(numbers.contains(x) <==> numbers.to_multiset().count(x) > 0);
        assert(sorted.contains(x) <==> sorted.to_multiset().count(x) > 0);
    }
    assert(sorted.contains(sorted[0]));
    assert(sorted.contains(sorted[n - 1]));
    assert forall|i: int| 0 <= i < n implies stats.min_ms <= #[trigger] numbers[i]
        <= stats.max_ms by {
        assert(sorted.contains(numbers[i]));
        let k = choose|k: int| 0 <= k < sorted.len() && sorted[k] == numbers[i];
        assert(sorted[0] <= sorted[k] <= sorted[n - 1]);
    }
    vstd::arithmetic::div_mod::lemma_fundamental_div_mod(sum(numbers) as int, n as int);
    let mean = (sum(numbers) / n) as int;
    assert(mean * n == n * mean) by (nonlinear_arith);
    assert((mean + 1) * n == n * mean + n) by (nonlinear_arith);
}

/// A bounce resolved before the cutoff adds one to the summary of its day, its patterns
/// and its outcome, and its latency to that summary's; no other summary changes, and a
/// later bounce changes none. A summary adds all that it sums up.
pub proof fn law_condensing_adds_up(
    records: Seq<JournalRecord>,
    record: JournalRecord,
    cutoff: Timestamp,
    condensed_at: Timestamp,
    id: SummaryId,
)
    ensures
        ({
            let before = condensed(records, cutoff, condensed_at);
            let after = condensed(records.push(record), cutoff, condensed_at);
            let had = if before.contains_key(id) {
                (before[id].count, before[id].latency_ms_total, before[id].latency_ms_max)
            } else {
                (0, 0, 0)
            };
            match record {
                JournalRecord::Bounce(b) => {
                    let own = (
                        clock::date_text(b.resolved_at.day()),
                        text::joined(judge::patterns_of(b.reason@), ", "@),
                        b.outcome,
                    );
                    let early = b.resolved_at.unix_secs() < cutoff.unix_secs() || (
                    b.resolved_at.unix_secs() == cutoff.unix_secs() && b.resolved_at.subsec()
                        < cutoff.subsec());
                    &&& !early || id != own ==> (after.contains_key(id) <==> before.contains_key(
                        id,
                    )) && (before.contains_key(id) ==> after[id] == before[id])
                    &&& early && id == own ==> {
                        &&& after.contains_key(id)
                        &&& after[id].count == had.0 + 1
                        &&& after[id].latency_ms_total == had.1 + b.latency_ms
                        &&& after[id].latency_ms_max >= b.latency_ms
                        &&& after[id].latency_ms_max >= had.2
                        &&& after[id].latency_ms_max == b.latency_ms || after[id].latency_ms_max
                            == had.2
                        &&& after[id].date == own.0
                        &&& after[id].outcome == b.outcome
                    }
                },
                JournalRecord::Summary(s) => {
                    let own = (s.date@, s.patterns@, s.outcome);
                    &&& id != own ==> (after.contains_key(id) <==> before.contains_key(id)) && (
                    before.contains_key(id) ==> after[id] == before[id])
                    &&& id == own ==> {
                        &&& after.contains_key(id)
                        &&& after[id].count == had.0 + s.count
                        &&& after[id].latency_ms_total == had.1 + s.latency_ms_total
                        &&& after[id].latency_ms_max >= s.latency_ms_max
                        &&& after[id].latency_ms_max >= had.2
                    }
                },
            }
        }),
{
    assert(records.push(record).drop_last() =~= records);
    lemma_summaries_under_their_ids(records, cutoff, condensed_at);
}

proof fn lemma_summaries_under_their_ids(
    records: Seq<JournalRecord>,
    cutoff: Timestamp,
    condensed_at: Timestamp,
)
    ensures
        forall|id: SummaryId| #[trigger]
            condensed(records, cutoff, condensed_at).contains_key(id) ==> summary_id(
                condensed(records, cutoff, condensed_at)[id],
            ) == id,
    decreases records.len(),
{
    if records.len() > 0 {
        lemma_summaries_under_their_ids(records.drop_last(), cutoff, condensed_at);
        let before = condensed(records.drop_last(), cutoff, condensed_at);
        let after = condensed(records, cutoff, condensed_at);
        assert forall|id: SummaryId| #[trigger] after.contains_key(id) implies summary_id(after[id])
            == id by {
            if before.contains_key(id) {
                assert(summary_id(before[id]) == id);
            }
        }
    }
}

/// A bounce that was resolved at the cutoff or later stays as it is, and one that was
/// resolved before it does not: what is left of it is in the summaries. They come first,
/// in the order of their days.
pub proof fn law_recent_bounces_stay_raw(
    records: Seq<JournalRecord>,
    cutoff: Timestamp,
    condensed_at: Timestamp,
    after: Seq<JournalRecord>,
    summaries: nat,
    b: BounceRecord,
)
    requires
        condenses_to(records, cutoff, condensed_at, after, summaries),
    ensures
        after.contains(JournalRecord::Bounce(b)) <==> records.contains(JournalRecord::Bounce(b))
            && !(b.resolved_at.unix_secs() < cutoff.unix_secs() || (b.resolved_at.unix_secs()
            == cutoff.unix_secs() && b.resolved_at.subsec() < cutoff.subsec())),
        forall|i: int| 0 <= i < after.len() ==> ((#[trigger] after[i]) is Summary <==> i < summaries),
        forall|i: int, j: int|
            0 <= i < j < summaries ==> !text::less(
                (#[trigger] after[j])->Summary_0.date@,
                (#[trigger] after[i])->Summary_0.date@,
            ),
{
    let raw = |record: JournalRecord| stays_raw(record, cutoff);
    let n = summaries as int;
    let listed = after.take(n);
    let kept = after.skip(n);
    lemma_filter_holds(records, raw, JournalRecord::Bounce(b));
    assert forall|i: int| 0 <= i < after.len() implies ((#[trigger] after[i]) is Summary <==> i
        < summaries) by {
        if i < n {
            assert(listed[i] == after[i]);
        } else {
            assert(kept[i - n] == after[i]);
            records.lemma_filter_pred(raw, i - n);
        }
    }
    if after.contains(JournalRecord::Bounce(b)) {
        let i = choose|i: int| 0 <= i < after.len() && after[i] == JournalRecord::Bounce(b);
        assert(!(after[i] is Summary));
        assert(kept[i - n] == after[i]);
        assert(kept.contains(JournalRecord::Bounce(b)));
    }
    if kept.contains(JournalRecord::Bounce(b)) {
        let i = choose|i: int| 0 <= i < kept.len() && kept[i] == JournalRecord::Bounce(b);
        assert(after[i + n] == kept[i]);
    }
    assert forall|i: int, j: int| 0 <= i < j < summaries implies !text::less(
        (#[trigger] after[j])->Summary_0.date@,
        (#[trigger] after[i])->Summary_0.date@,
    ) by {
        assert(listed[i] == after[i] && listed[j] == after[j]);
        let a = summary_id(listed[i]->Summary_0@);
        let c = summary_id(listed[j]->Summary_0@);
        assert(SummaryKey::precedes(a, c));
        text::lemma_less_total(a.0, c.0);
    }
}

/// A record says what became of a bounce: under which handle, how it ended and how long
/// it took are kept as they are, and so are texts of up to 2000 characters. Longer ones
/// are cut there, and an ellipsis shows it.
pub proof fn law_records_say_what_became_of_a_bounce(
    bounce: ResolvedBounce<'_>,
    resolved_at: Timestamp,
)
    ensures
        ({
            let record = bounce.record_at(resolved_at);
            &&& record.handle == bounce.handle@
            &&& record.parent is Some <==> bounce.parent is Some
            &&& record.reason == bounce.reason@
            &&& record.outcome == bounce.outcome
            &&& record.bounced_at == bounce.bounced_at
            &&& record.resolved_at == resolved_at
            &&& record.latency_ms == bounce.latency_ms
            &&& bounce.message@.len() <= 2000 ==> record.message == bounce.message@
            &&& bounce.message@.len() > 2000 ==> record.message == bounce.message@.take(2000).push(
                '\u{2026}',
            )
            &&& record.replacement is Some <==> bounce.replacement is Some
            &&& bounce.replacement matches Some(t) ==> (t@.len() <= 2000 ==> record.replacement
                == Some(t@))
        }),
{
}

/// Every line of a journal is a record or is kept as it is: none is lost.
pub proof fn law_no_line_is_lost(lines: Seq<ReadLine>)
    ensures
        records_read(lines).len() + lines_kept(lines).len() == lines.len(),
        forall|i: int|
            0 <= i < lines.len() ==> match (#[trigger] lines[i]).record {
                Some(record) => records_read(lines).contains(record),
                None => lines_kept(lines).contains(lines[i].line@),
            },
    decreases lines.len(),
{
    if lines.len() > 0 {
        let front = lines.drop_last();
        law_no_line_is_lost(front);
        let records = records_read(front);
        let kept = lines_kept(front);
        assert forall|i: int| 0 <= i < lines.len() implies match (#[trigger] lines[i]).record {
            Some(record) => records_read(lines).contains(record),
            None => lines_kept(lines).contains(lines[i].line@),
        } by {
            if i < front.len() {
                assert(front[i] == lines[i]);
                match lines[i].record {
                    Some(record) => {
                        let k = choose|k: int| 0 <= k < records.len() && records[k] == record;
                        assert(records_read(lines)[k] == record);
                    },
                    None => {
                        let k = choose|k: int|
                            0 <= k < kept.len() && kept[k] == lines[i].line@;
                        assert(lines_kept(lines)[k] == lines[i].line@);
                    },
                }
            } else {
                assert(lines[i] == lines.last());
                if lines.last().record is Some {
                    assert(records_read(lines).last() == lines.last().record->0);
                    assert(records_read(lines)[records.len() as int] == lines.last().record->0);
                } else {
                    assert(lines_kept(lines)[kept.len() as int] == lines.last().line@);
                }
            }
        }
    }
}

proof fn lemma_condensed_bounded(
    records: Seq<JournalRecord>,
    cutoff: Timestamp,
    condensed_at: Timestamp,
    id: SummaryId,
)
    requires
        condensed(records, cutoff, condensed_at).contains_key(id),
    ensures
        condensed(records, cutoff, condensed_at)[id].count <= represented(records),
        condensed(records, cutoff, condensed_at)[id].latency_ms_total <= latency_total(records),
    decreases records.len(),
{
    if records.len() > 0 {
        let front = records.drop_last();
        if condensed(front, cutoff, condensed_at).contains_key(id) {
            lemma_condensed_bounded(front, cutoff, condensed_at, id);
        }
    }
}

/// Journals that stand for no more bounces, and account for no more time, than a 64-bit
/// number can count can be condensed; and those that name no more patterns either can be
/// counted up.
pub proof fn law_journals_that_fit_can_be_condensed(
    records: Seq<JournalRecord>,
    cutoff: Timestamp,
    condensed_at: Timestamp,
)
    requires
        represented(records) <= u64::MAX,
        latency_total(records) <= u64::MAX,
    ensures
        foldable(records, cutoff, condensed_at),
        pattern_total(records) <= u64::MAX ==> tallyable(records),
{
    assert forall|id: SummaryId| #[trigger]
        condensed(records, cutoff, condensed_at).contains_key(id) implies sums_fit(
        condensed(records, cutoff, condensed_at)[id],
    ) by {
        lemma_condensed_bounded(records, cutoff, condensed_at, id);
    }
    lemma_summarized_are_represented(records);
}

proof fn lemma_summarized_are_represented(records: Seq<JournalRecord>)
    ensures
        summarized_among(records) <= represented(records),
    decreases records.len(),
{
    if records.len() > 0 {
        lemma_summarized_are_represented(records.drop_last());
    }
}

/// A vacuum tells how much it dropped: every record stays or is counted as dropped, no
/// bounce is dropped, and no line that could not be read stays.
pub proof fn law_vacuums_count_what_they_drop(
    journal: JournalScan,
    cutoff: Timestamp,
    r: Vacuumed,
    i: int,
)
    requires
        call_ensures(JournalScan::vacuum, (journal, cutoff), r),
        0 <= i < journal.records@.len(),
    ensures
        r.dropped_summaries + r.records@.len() == journal.records@.len(),
        r.dropped_malformed == journal.malformed@.len(),
        journal.records@[i] is Bounce ==> r.records@.contains(journal.records@[i]),
        !r.records@.contains(journal.records@[i]) ==> journal.records@[i] is Summary,
{
}

/// Statistics without a filter count every record once, as a bounce or as a summary, and
/// every line that could not be read.
pub proof fn law_statistics_count_every_record(
    journal: &JournalScan,
    filter: &StatsFilter,
    r: JournalStats,
)
    requires
        tallyable(journal.records@),
        call_ensures(JournalScan::stats, (journal, filter), r),
        filter.since is None,
        filter.outcome is None,
        filter.pattern is None,
    ensures
        r.bounces + r.summaries == journal.records@.len(),
        r.bounces + r.summarized_bounces == represented(journal.records@),
        r.malformed_lines == journal.malformed@.len(),
        r.latency is Some <==> r.bounces > 0,
{
    law_every_record_is_counted(journal.records@, *filter);
    lemma_bounces_and_summaries(journal.records@, *filter);
}

proof fn lemma_bounces_and_summaries(records: Seq<JournalRecord>, filter: StatsFilter)
    requires
        filter.since is None,
        filter.outcome is None,
        filter.pattern is None,
    ensures
        passing(records, filter).len() + summarized_among(records) == represented(records),
    decreases records.len(),
{
    if records.len() > 0 {
        lemma_bounces_and_summaries(records.drop_last(), filter);
    }
}

/// Condensing keeps every bounce, as it is or within a summary, and tells how many of each
/// there are.
pub proof fn law_condensed_journals_stand_for_as_much(
    journal: JournalScan,
    cutoff: Timestamp,
    condensed_at: Timestamp,
    r: Condensed,
)
    requires
        foldable(journal.records@, cutoff, condensed_at),
        call_ensures(JournalScan::condense, (journal, cutoff, condensed_at), r),
    ensures
        r.kept_bounces + r.summaries == r.records@.len(),
        represented(r.records@) == represented(journal.records@),
        latency_total(r.records@) == latency_total(journal.records@),
        r.malformed@ == journal.malformed@,
{
}

/// A tally lists every word that occurs, and no other, with as many times as it does.
pub proof fn law_tallies_count_words(tally: Tally, words: Seq<Seq<char>>, word: Seq<char>)
    requires
        tally.tallies(words),
    ensures
        tally.counts.map().contains_key(word) <==> words.contains(word),
        words.contains(word) ==> tally.counts.map()[word] == times(words, word)
            && tally.counts.map()[word] > 0,
        times(words.push(word), word) == times(words, word) + 1,
        times(Seq::empty(), word) == 0,
{
    lemma_times_of_words(words, word);
    assert(words.push(word).drop_last() =~= words);
}

proof fn lemma_times_of_words(words: Seq<Seq<char>>, word: Seq<char>)
    ensures
        times(words, word) > 0 <==> words.contains(word),
    decreases words.len(),
{
    if words.len() > 0 {
        let front = words.drop_last();
        lemma_times_of_words(front, word);
        if words.contains(word) {
            let i = choose|i: int| 0 <= i < words.len() && words[i] == word;
            if i < front.len() {
                assert(front[i] == word);
                assert(front.contains(word));
            }
        }
        if front.contains(word) {
            let i = choose|i: int| 0 <= i < front.len() && front[i] == word;
            assert(words[i] == word);
        }
        assert(words[words.len() - 1] == words.last());
    }
}

} // verus!
