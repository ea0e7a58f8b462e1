//! Pronouns from PronounDB.

use std::collections::HashMap;
use vstd::prelude::*;
use crate::clock::{Duration, Instant};
use crate::table;
use crate::text;

verus! {

/// Where pronouns are looked up.
pub const LOOKUP_URL: &'static str = "https://pronoundb.org/api/v2/lookup";

/// How long a lookup counts: an hour.
pub const CACHE_TTL_NANOS: u128 = 3_600_000_000_000;

/// How many lookups are kept.
pub const CACHE_CAPACITY: usize = 256;

/// The most bytes of an answer.
pub const MAX_RESPONSE_BYTES: usize = 65536;

/// How many lookups go on at the same time.
pub const MAX_CONCURRENT_LOOKUPS: usize = 8;

/// Why a lookup failed.
#[derive(Clone, Copy, Debug, PartialEq, Eq, Structural)]
pub enum PronounProviderError {
    /// There was no proper answer.
    Transport,
    /// The answer makes no sense.
    MalformedResponse,
}

/// The pronouns that a user chose, as they are shown.
#[derive(Debug, PartialEq, Eq)]
pub struct PronounSelection {
    pub display: String,
}

impl Clone for PronounSelection {
    fn clone(&self) -> (r: Self)
        ensures
            r == *self,
    {
        PronounSelection { display: self.display.clone() }
    }
}

// ── The answer ──────────────────────────────────────────────────────────────

/// An answer that is being read, and must not grow too large.
pub struct BoundedBody {
    pub bytes: Vec<u8>,
}

impl BoundedBody {
    /// The answer is not too large.
    pub open spec fn wf(&self) -> bool {
        self.bytes@.len() <= MAX_RESPONSE_BYTES
    }

    /// Starts to read an answer, unless it says itself that it is too large.
    pub fn start(content_length: Option<u64>) -> (r: Result<BoundedBody, PronounProviderError>)
        ensures
            match r {
                Ok(b) => (content_length matches Some(n) ==> n <= MAX_RESPONSE_BYTES) && b.wf()
                    && b.bytes@ == Seq::<u8>::empty(),
                Err(e) => (content_length matches Some(n) && n > MAX_RESPONSE_BYTES)
                    && e is MalformedResponse,
            },
    {
        if let Some(n) = content_length {
            if n > MAX_RESPONSE_BYTES as u64 {
                return Err(PronounProviderError::MalformedResponse);
            }
        }
        Ok(BoundedBody { bytes: Vec::new() })
    }

    /// Takes a further part of the answer, unless it gets too large.
    pub fn add_chunk(&mut self, chunk: &Vec<u8>) -> (r: Result<(), PronounProviderError>)
        requires
            old(self).wf(),
        ensures
            final(self).wf(),
            match r {
                Ok(_) => final(self).bytes@ == old(self).bytes@ + chunk@,
                Err(e) => e is MalformedResponse && final(self).bytes == old(self).bytes && old(
                    self,
                ).bytes@.len() + chunk@.len() > MAX_RESPONSE_BYTES,
            },
    {
        if chunk.len() > MAX_RESPONSE_BYTES - self.bytes.len() {
            return Err(PronounProviderError::MalformedResponse);
        }
        let ghost before = self.bytes@;
        let mut i: usize = 0;
        assert(chunk@.take(0) =~= Seq::empty());
        assert(before + chunk@.take(0) =~= before);
        while i < chunk.len()
            invariant
                i <= chunk@.len(),
                before.len() + chunk@.len() <= MAX_RESPONSE_BYTES,
                self.bytes@ == before + chunk@.take(i as int),
            decreases chunk@.len() - i,
        {
            self.bytes.push(chunk[i]);
            assert(self.bytes@ =~= before + chunk@.take(i + 1));
            i = i + 1;
        }
        assert(chunk@.take(chunk@.len() as int) =~= chunk@);
        Ok(())
    }
}

/// What the answer says of a user: for each language, the codes of the pronouns.
pub struct PronounDbRecord {
    pub user_id: String,
    pub sets: Vec<(String, Vec<String>)>,
}

/// The codes of the pronouns in a language, if there are any.
pub open spec fn codes_in(sets: Seq<(String, Vec<String>)>, language: Seq<char>) -> Option<
    Seq<Seq<char>>,
>
    decreases sets.len(),
{
    if sets.len() == 0 {
        None
    } else if sets[0].0@ == language {
        Some(text::texts(sets[0].1@))
    } else {
        codes_in(sets.skip(1), language)
    }
}

/// The codes of a user's pronouns in English, if there are any.
pub open spec fn codes_of(records: Seq<PronounDbRecord>, user_id: u64) -> Option<Seq<Seq<char>>>
    decreases records.len(),
{
    if records.len() == 0 {
        None
    } else if records[0].user_id@ == text::decimal(user_id as nat) {
        codes_in(records[0].sets@, "en"@)
    } else {
        codes_of(records.skip(1), user_id)
    }
}

/// The value of codes that may not be there.
pub open spec fn codes_opt(codes: Option<&Vec<String>>) -> Option<Seq<Seq<char>>> {
    match codes {
        Some(c) => Some(text::texts(c@)),
        None => None,
    }
}

fn english_set(sets: &Vec<(String, Vec<String>)>) -> (r: Option<&Vec<String>>)
    ensures
        codes_opt(r) == codes_in(sets@, "en"@),
{
    let mut i: usize = 0;
    assert(sets@.skip(0) =~= sets@);
    while i < sets.len()
        invariant
            i <= sets@.len(),
            codes_in(sets@, "en"@) == codes_in(sets@.skip(i as int), "en"@),
        decreases sets@.len() - i,
    {
        assert(sets@.skip(i as int)[0] == sets@[i as int]);
        assert(sets@.skip(i as int).skip(1) =~= sets@.skip(i + 1));
        if text::str_eq(sets[i].0.as_str(), "en") {
            return Some(&sets[i].1);
        }
        i = i + 1;
    }
    assert(sets@.skip(i as int).len() == 0);
    None
}

/// The codes of a user's pronouns in English, if there are any.
pub fn english_codes(records: &Vec<PronounDbRecord>, user_id: u64) -> (r: Option<&Vec<String>>)
    ensures
        codes_opt(r) == codes_of(records@, user_id),
{
    let key: String = text::decimal_string(user_id);
    let mut i: usize = 0;
    assert(records@.skip(0) =~= records@);
    while i < records.len()
        invariant
            i <= records@.len(),
            key@ == text::decimal(user_id as nat),
            codes_of(records@, user_id) == codes_of(records@.skip(i as int), user_id),
        decreases records@.len() - i,
    {
        assert(records@.skip(i as int)[0] == records@[i as int]);
        assert(records@.skip(i as int).skip(1) =~= records@.skip(i + 1));
        if text::str_eq(records[i].user_id.as_str(), key.as_str()) {
            return english_set(&records[i].sets);
        }
        i = i + 1;
    }
    assert(records@.skip(i as int).len() == 0);
    None
}

// ── The cache ───────────────────────────────────────────────────────────────

/// What a lookup came to, and when: a user may have chosen nothing.
#[derive(Debug, PartialEq, Eq)]
pub struct CacheEntry {
    pub selection: Option<PronounSelection>,
    pub stored_at: Instant,
}

/// The latest lookups.
pub struct PronounCache {
    pub entries: HashMap<u64, CacheEntry>,
}

fn copy_selection(s: &Option<PronounSelection>) -> (r: Option<PronounSelection>)
    ensures
        r == *s,
{
    match s {
        Some(x) => Some(x.clone()),
        None => None,
    }
}

/// Whether a lookup still counts.
pub open spec fn still_counts(entry: CacheEntry, now: Instant) -> bool {
    now.since(entry.stored_at).nanos < CACHE_TTL_NANOS
}

/// Whether no lookup is older than that of `id`.
pub open spec fn is_oldest(entries: Map<u64, CacheEntry>, id: u64) -> bool {
    entries.contains_key(id) && forall|other: u64|
        entries.contains_key(other) ==> entries[id].stored_at.nanos
            <= (#[trigger] entries[other]).stored_at.nanos
}

/// What the kept lookups tell of a user at `now`, if they tell anything.
pub open spec fn known(entries: Map<u64, CacheEntry>, user_id: u64, now: Instant) -> Option<
    Option<PronounSelection>,
> {
    if entries.contains_key(user_id) && still_counts(entries[user_id], now) {
        Some(entries[user_id].selection)
    } else {
        None
    }
}

/// Whether a lookup was added to those kept. Where there is no room, the oldest makes
/// room, and nothing else is forgotten.
pub open spec fn keeps(
    before: Map<u64, CacheEntry>,
    after: Map<u64, CacheEntry>,
    user_id: u64,
    entry: CacheEntry,
) -> bool {
    if before.contains_key(user_id) || before.len() < CACHE_CAPACITY {
        after == before.insert(user_id, entry)
    } else {
        exists|oldest: u64| #[trigger]
            is_oldest(before, oldest) && after == before.remove(oldest).insert(user_id, entry)
    }
}

impl PronounCache {
    /// No more lookups are kept than there is room for.
    pub open spec fn wf(&self) -> bool {
        self.entries@.len() <= CACHE_CAPACITY
    }

    /// Nothing was looked up.
    pub fn new() -> (r: Self)
        ensures
            r.wf(),
            r.entries@ == Map::<u64, CacheEntry>::empty(),
    {
        PronounCache { entries: HashMap::new() }
    }

    /// What is known of a user. A lookup that no longer counts is forgotten.
    pub fn get(&mut self, user_id: u64, now: Instant) -> (r: Option<Option<PronounSelection>>)
        requires
            old(self).wf(),
        ensures
            final(self).wf(),
            r == known(old(self).entries@, user_id, now),
            final(self).entries@ == if r is Some {
                old(self).entries@
            } else {
                old(self).entries@.remove(user_id)
            },
    {
        if let Some(entry) = self.entries.get(&user_id) {
            let age: Duration = now.saturating_duration_since(entry.stored_at);
            if age.nanos < CACHE_TTL_NANOS {
                return Some(copy_selection(&entry.selection));
            }
        }
        let _ = self.entries.remove(&user_id);
        None
    }

    /// Keeps a lookup. Where there is no room, the oldest is forgotten.
    pub fn insert(&mut self, user_id: u64, selection: Option<PronounSelection>, now: Instant)
        requires
            old(self).wf(),
        ensures
            final(self).wf(),
            keeps(
                old(self).entries@,
                final(self).entries@,
                user_id,
                CacheEntry { selection, stored_at: now },
            ),
    {
        let ghost before = self.entries@;
        if !self.entries.contains_key(&user_id) && self.entries.len() >= CACHE_CAPACITY {
            if let Some(oldest) = oldest_of(&self.entries) {
                let _ = self.entries.remove(&oldest);
                assert(is_oldest(before, oldest));
            }
        }
        self.entries.insert(user_id, CacheEntry { selection, stored_at: now });
    }
}

/// The user whose lookup is the oldest, where there are lookups. Of several that are
/// equally old any may be it.
fn oldest_of(entries: &HashMap<u64, CacheEntry>) -> (r: Option<u64>)
    ensures
        match r {
            Some(id) => is_oldest(entries@, id),
            None => entries@.len() == 0,
        },
{
    let ids: Vec<u64> = table::keys_of(entries);
    let mut oldest: Option<(u64, u128)> = None;
    let mut i: usize = 0;
    while i < ids.len()
        invariant
            i <= ids@.len(),
            forall|id: u64| entries@.contains_key(id) <==> #[trigger] ids@.contains(id),
            match oldest {
                Some(o) => {
                    &&& entries@.contains_key(o.0)
                    &&& entries@[o.0].stored_at.nanos == o.1
                    &&& forall|k: int|
                        0 <= k < i ==> o.1 <= entries@[#[trigger] ids@[k]].stored_at.nanos
                },
                None => i == 0,
            },
        decreases ids@.len() - i,
    {
        let id: u64 = ids[i];
        assert(ids@.contains(id));
        if let Some(entry) = entries.get(&id) {
            let older: bool = match oldest {
                Some(o) => entry.stored_at.nanos < o.1,
                None => true,
            };
            if older {
                oldest = Some((id, entry.stored_at.nanos));
            }
        }
        i = i + 1;
    }
    match oldest {
        Some(o) => {
            assert forall|other: u64| entries@.contains_key(other) implies entries@[o.0].stored_at.nanos
                <= (#[trigger] entries@[other]).stored_at.nanos by {
                assert(ids@.contains(other));
                let k = choose|k: int| 0 <= k < ids@.len() && ids@[k] == other;
                assert(o.1 <= entries@[ids@[k]].stored_at.nanos);
            }
            Some(o.0)
        },
        None => None,
    }
}

/// What a lookup comes to. `parsed` is what the codes were read as, where the user has
/// any: codes that cannot be read make no sense. Only a lookup that worked is kept.
pub fn finish_lookup(
    cache: &mut PronounCache,
    user_id: u64,
    has_codes: bool,
    parsed: Option<PronounSelection>,
    now: Instant,
) -> (r: Result<Option<PronounSelection>, PronounProviderError>)
    requires
        old(cache).wf(),
    ensures
        final(cache).wf(),
        if has_codes && parsed is None {
            r == Err::<Option<PronounSelection>, PronounProviderError>(
                PronounProviderError::MalformedResponse,
            ) && final(cache).entries == old(cache).entries
        } else {
            &&& r == Ok::<Option<PronounSelection>, PronounProviderError>(
                if has_codes {
                    parsed
                } else {
                    None
                },
            )
            &&& keeps(
                old(cache).entries@,
                final(cache).entries@,
                user_id,
                CacheEntry {
                    selection: if has_codes {
                        parsed
                    } else {
                        None
                    },
                    stored_at: now,
                },
            )
        },
{
    let selection: Option<PronounSelection> = if has_codes {
        if parsed.is_none() {
            return Err(PronounProviderError::MalformedResponse);
        }
        parsed
    } else {
        None
    };
    cache.insert(user_id, copy_selection(&selection), now);
    Ok(selection)
}

// ── A whole lookup ──────────────────────────────────────────────────────────

/// What came back of a request: the status, the length that the answer claims to
/// have, its parts as far as they were read, whether it broke off behind them, and
/// the records that the whole of it was decoded as, if it could be.
pub struct Answer {
    pub status: u16,
    pub content_length: Option<u64>,
    pub chunks: Vec<Vec<u8>>,
    pub broke_off: bool,
    pub records: Option<Vec<PronounDbRecord>>,
}

/// How many bytes the parts of an answer hold.
pub open spec fn body_len(chunks: Seq<Vec<u8>>) -> nat
    decreases chunks.len(),
{
    if chunks.len() == 0 {
        0
    } else {
        body_len(chunks.drop_last()) + chunks.last()@.len()
    }
}

proof fn lemma_body_len(chunks: Seq<Vec<u8>>, n: int)
    requires
        0 <= n <= chunks.len(),
    ensures
        body_len(chunks.take(n)) <= body_len(chunks),
    decreases chunks.len(),
{
    if n == chunks.len() {
        assert(chunks.take(n) =~= chunks);
    } else {
        assert(chunks.drop_last().take(n) =~= chunks.take(n));
        lemma_body_len(chunks.drop_last(), n);
    }
}

/// Whether an answer is larger than it may be, by its own word or in fact.
pub open spec fn is_too_large(answer: Answer) -> bool {
    (answer.content_length matches Some(n) && n > MAX_RESPONSE_BYTES) || body_len(answer.chunks@)
        > MAX_RESPONSE_BYTES
}

/// The answer to a lookup. `read` is what the user's codes are read as, where the
/// records hold any.
pub open spec fn lookup_answer(
    answer: Option<Answer>,
    user_id: u64,
    read: Option<PronounSelection>,
) -> Result<Option<PronounSelection>, PronounProviderError> {
    match answer {
        None => Err(PronounProviderError::Transport),
        Some(a) => if 400 <= a.status <= 599 {
            Err(PronounProviderError::Transport)
        } else if is_too_large(a) {
            Err(PronounProviderError::MalformedResponse)
        } else if a.broke_off {
            Err(PronounProviderError::Transport)
        } else {
            match a.records {
                None => Err(PronounProviderError::MalformedResponse),
                Some(records) => match (codes_of(records@, user_id), read) {
                    (None, _) => Ok(None),
                    (Some(_), None) => Err(PronounProviderError::MalformedResponse),
                    (Some(_), Some(selection)) => Ok(Some(selection)),
                },
            }
        },
    }
}

fn fits(answer: &Answer) -> (r: bool)
    ensures
        r == !is_too_large(*answer),
{
    let mut body: BoundedBody = match BoundedBody::start(answer.content_length) {
        Ok(body) => body,
        Err(_) => {
            return false;
        },
    };
    let ghost chunks = answer.chunks@;
    let mut i: usize = 0;
    assert(chunks.take(0) =~= Seq::empty());
    while i < answer.chunks.len()
        invariant
            i <= chunks.len(),
            chunks == answer.chunks@,
            body.wf(),
            body.bytes@.len() == body_len(chunks.take(i as int)),
        decreases chunks.len() - i,
    {
        proof {
            assert(chunks.take(i + 1).drop_last() =~= chunks.take(i as int));
            lemma_body_len(chunks, i + 1);
        }
        if body.add_chunk(&answer.chunks[i]).is_err() {
            return false;
        }
        i = i + 1;
    }
    assert(chunks.take(i as int) =~= chunks);
    true
}

/// Brings a lookup to its end: says what the answer comes to, and keeps it if the
/// lookup worked, also where the user has chosen nothing. `read` is what the codes
/// that [`english_codes`] finds in the records are read as.
pub fn settle_lookup(
    cache: &mut PronounCache,
    user_id: u64,
    answer: &Option<Answer>,
    read: Option<PronounSelection>,
    now: Instant,
) -> (r: Result<Option<PronounSelection>, PronounProviderError>)
    requires
        old(cache).wf(),
    ensures
        final(cache).wf(),
        r == lookup_answer(*answer, user_id, read),
        match r {
            Ok(selection) => keeps(
                old(cache).entries@,
                final(cache).entries@,
                user_id,
                CacheEntry { selection, stored_at: now },
            ),
            Err(_) => final(cache).entries == old(cache).entries,
        },
{
    let a: &Answer = match answer {
        Some(a) => a,
        None => {
            return Err(PronounProviderError::Transport);
        },
    };
    if 400 <= a.status && a.status <= 599 {
        return Err(PronounProviderError::Transport);
    }
    if !fits(a) {
        return Err(PronounProviderError::MalformedResponse);
    }
    if a.broke_off {
        return Err(PronounProviderError::Transport);
    }
    match &a.records {
        Some(records) => {
            let has_codes: bool = english_codes(records, user_id).is_some();
            finish_lookup(cache, user_id, has_codes, read, now)
        },
        None => Err(PronounProviderError::MalformedResponse),
    }
}

/// A lookup that worked is known for an hour, also where it found nothing; one that
/// failed leaves everything as it was, so that a user who was not known is asked for
/// again.
pub proof fn law_absence_is_cached_and_errors_are_not(
    before: Map<u64, CacheEntry>,
    after: Map<u64, CacheEntry>,
    user_id: u64,
    answer: Option<Answer>,
    read: Option<PronounSelection>,
    now: Instant,
    later: Instant,
)
    requires
        known(before, user_id, now) is None,
        now.nanos <= later.nanos,
        match lookup_answer(answer, user_id, read) {
            Ok(selection) => keeps(
                before,
                after,
                user_id,
                CacheEntry { selection, stored_at: now },
            ),
            Err(_) => after == before,
        },
    ensures
        match lookup_answer(answer, user_id, read) {
            Ok(selection) => known(after, user_id, later) == if later.nanos - now.nanos
                < CACHE_TTL_NANOS {
                Some(selection)
            } else {
                None
            },
            Err(_) => known(after, user_id, later) is None,
        },
{
}

/// What was just looked up is known, until it no longer counts.
pub proof fn law_lookups_are_remembered(
    selection: Option<PronounSelection>,
    stored_at: Instant,
    now: Instant,
)
    requires
        stored_at.nanos <= now.nanos,
    ensures
        still_counts(CacheEntry { selection, stored_at }, now) <==> now.nanos - stored_at.nanos
            < CACHE_TTL_NANOS,
{
}

/// What was looked up of a user is known for an hour, and not from then on; of a user who
/// was not looked up nothing is known.
pub proof fn law_lookups_are_known_for_an_hour(
    entries: Map<u64, CacheEntry>,
    user_id: u64,
    now: Instant,
)
    requires
        entries.contains_key(user_id) ==> entries[user_id].stored_at.nanos <= now.nanos,
    ensures
        known(entries, user_id, now) is Some <==> entries.contains_key(user_id) && now.nanos
            - entries[user_id].stored_at.nanos < 3_600_000_000_000,
        known(entries, user_id, now) matches Some(selection) ==> selection
            == entries[user_id].selection,
        CACHE_TTL_NANOS == 3_600_000_000_000,
        CACHE_CAPACITY == 256,
        MAX_RESPONSE_BYTES == 64 * 1024,
{
}

/// A lookup that is kept is kept for its user. Another is forgotten only where there is no
/// room, and then it is one that no other is older than.
pub proof fn law_only_the_oldest_is_forgotten(
    before: Map<u64, CacheEntry>,
    after: Map<u64, CacheEntry>,
    user_id: u64,
    entry: CacheEntry,
    other: u64,
    third: u64,
)
    requires
        keeps(before, after, user_id, entry),
    ensures
        after.contains_key(user_id) && after[user_id] == entry,
        other != user_id && after.contains_key(other) ==> before.contains_key(other) && after[other]
            == before[other],
        other != user_id && before.contains_key(other) && !after.contains_key(other) ==> {
            &&& !before.contains_key(user_id)
            &&& before.len() >= 256
            &&& before.contains_key(third) ==> before[other].stored_at.nanos
                <= before[third].stored_at.nanos
        },
{
    if !(before.contains_key(user_id) || before.len() < CACHE_CAPACITY) {
        let oldest = choose|oldest: u64| #[trigger]
            is_oldest(before, oldest) && after == before.remove(oldest).insert(user_id, entry);
        assert(after == before.remove(oldest).insert(user_id, entry));
    }
}

/// No answer, an answer of failure and one that breaks off are failures on the way; one
/// that is too large or cannot be read is malformed. Otherwise the user has the pronouns
/// that were read where PronounDB has any of them, and none where it has none.
pub proof fn law_answers_are_taken_for_what_they_are(
    answer: Option<Answer>,
    user_id: u64,
    read: Option<PronounSelection>,
)
    ensures
        answer is None ==> lookup_answer(answer, user_id, read) == Err::<
            Option<PronounSelection>,
            PronounProviderError,
        >(PronounProviderError::Transport),
        answer matches Some(a) ==> (400 <= a.status <= 599 ==> lookup_answer(answer, user_id, read)
            == Err::<Option<PronounSelection>, PronounProviderError>(
            PronounProviderError::Transport,
        )),
        answer matches Some(a) ==> (a.status < 400 && body_len(a.chunks@) > 65536
            ==> lookup_answer(answer, user_id, read) == Err::<
            Option<PronounSelection>,
            PronounProviderError,
        >(PronounProviderError::MalformedResponse)),
        lookup_answer(answer, user_id, read) matches Ok(selection) ==> (answer matches Some(a)
            && !a.broke_off && body_len(a.chunks@) <= 65536 && !(400 <= a.status <= 599) && (
        a.records matches Some(records) && (selection is Some <==> codes_of(
            records@,
            user_id,
        ) is Some) && (selection is Some ==> selection == read))),
        answer matches Some(a) ==> (a.records matches Some(records) ==> (a.status < 400
            && a.content_length is None && body_len(a.chunks@) <= 65536 && !a.broke_off
            && codes_of(records@, user_id) is None ==> lookup_answer(answer, user_id, read) == Ok::<
            Option<PronounSelection>,
            PronounProviderError,
        >(None))),
{
}

/// A user's pronouns are those that stand under the user's own id, in English.
pub proof fn law_pronouns_are_the_users_own(
    records: Seq<PronounDbRecord>,
    user_id: u64,
    codes: Seq<Seq<char>>,
)
    requires
        codes_of(records, user_id) == Some(codes),
    ensures
        exists|i: int, k: int|
            0 <= i < records.len() && 0 <= k < records[i].sets@.len() && (
            #[trigger] records[i]).user_id@ == text::decimal(user_id as nat) && (
            #[trigger] records[i].sets@[k]).0@ == "en"@ && text::texts(records[i].sets@[k].1@)
                == codes,
    decreases records.len(),
{
    if records[0].user_id@ == text::decimal(user_id as nat) {
        lemma_codes_stand_under_their_language(records[0].sets@, "en"@, codes);
        let k = choose|k: int|
            0 <= k < records[0].sets@.len() && (#[trigger] records[0].sets@[k]).0@ == "en"@
                && text::texts(records[0].sets@[k].1@) == codes;
        assert(records[0].sets@[k].0@ == "en"@);
    } else {
        law_pronouns_are_the_users_own(records.skip(1), user_id, codes);
        let (i, k) = choose|i: int, k: int|
            0 <= i < records.skip(1).len() && 0 <= k < records.skip(1)[i].sets@.len() && (
            #[trigger] records.skip(1)[i]).user_id@ == text::decimal(user_id as nat) && (
            #[trigger] records.skip(1)[i].sets@[k]).0@ == "en"@ && text::texts(
                records.skip(1)[i].sets@[k].1@,
            ) == codes;
        assert(records[i + 1] == records.skip(1)[i]);
        assert(records[i + 1].sets@[k].0@ == "en"@);
    }
}

proof fn lemma_codes_stand_under_their_language(
    sets: Seq<(String, Vec<String>)>,
    language: Seq<char>,
    codes: Seq<Seq<char>>,
)
    requires
        codes_in(sets, language) == Some(codes),
    ensures
        exists|k: int|
            0 <= k < sets.len() && (#[trigger] sets[k]).0@ == language && text::texts(sets[k].1@)
                == codes,
    decreases sets.len(),
{
    if sets[0].0@ != language {
        lemma_codes_stand_under_their_language(sets.skip(1), language, codes);
        let k = choose|k: int|
            0 <= k < sets.skip(1).len() && (#[trigger] sets.skip(1)[k]).0@ == language
                && text::texts(sets.skip(1)[k].1@) == codes;
        assert(sets[k + 1] == sets.skip(1)[k]);
    }
}

/// An answer is not begun where it says that it is larger than 64 KiB, and is in any other
/// case.
pub proof fn law_large_answers_are_not_begun(
    content_length: Option<u64>,
    r: Result<BoundedBody, PronounProviderError>,
)
    requires
        call_ensures(BoundedBody::start, (content_length,), r),
    ensures
        r is Err <==> content_length is Some && content_length->0 > 64 * 1024,
        r matches Ok(body) ==> body.bytes@.len() == 0,
{
}

} // verus!
