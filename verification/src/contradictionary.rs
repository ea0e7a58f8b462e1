//! The contradictionary: a list of words that a construct has asked to be
//! stopped on, told about, or cheered for.

use vstd::prelude::*;
use crate::text;

verus! {

/// What a matching entry asks for.
#[derive(Clone, Copy, Debug, PartialEq, Eq, Structural)]
pub enum Action {
    /// Do not send the message as written.
    Block,
    /// Send it, and note the match in the diary.
    Log,
    /// Send it, and react to it.
    Celebrate,
}

/// How an entry's pattern is compared with a text.
#[derive(Clone, Copy, Debug, PartialEq, Eq, Structural)]
pub enum MatchMode {
    /// The pattern stands in the text as a word of its own.
    Word,
    /// The pattern stands anywhere in the text.
    Substring,
}

/// One entry of the contradictionary.
#[derive(Debug, PartialEq, Eq)]
pub struct Entry {
    /// The text that is looked for, without regard to ASCII case.
    pub pattern: String,
    /// What a match asks for.
    pub action: Action,
    /// How the pattern is compared.
    pub match_mode: MatchMode,
    /// Why the entry is there.
    pub reason: Option<String>,
}

/// An entry that matched a text.
#[derive(Debug, PartialEq, Eq)]
pub struct Hit {
    /// The entry's pattern.
    pub pattern: String,
    /// What the match asks for.
    pub action: Action,
    /// Why the entry is there.
    pub reason: Option<String>,
}

/// A [`Hit`] as a value.
pub struct HitView {
    pub pattern: Seq<char>,
    pub action: Action,
    pub reason: Option<Seq<char>>,
}

impl View for Hit {
    type V = HitView;

    open spec fn view(&self) -> HitView {
        HitView {
            pattern: self.pattern@,
            action: self.action,
            reason: text::text_opt(self.reason),
        }
    }
}

/// The values of a sequence of hits.
pub open spec fn hit_views(hits: Seq<Hit>) -> Seq<HitView> {
    hits.map_values(|h: Hit| h@)
}

/// A character that belongs to a word.
pub open spec fn is_word_char(c: char) -> bool {
    text::is_digit(c) || 'a' <= c <= 'z' || 'A' <= c <= 'Z' || c == '_' || c >= '\u{80}'
}

/// Whether `pattern`, already in lower case, matches the lower-case text `s` at `at`.
pub open spec fn matches_at(s: Seq<char>, pattern: Seq<char>, mode: MatchMode, at: int) -> bool {
    &&& text::occurs_at(s, pattern, at)
    &&& mode is Word ==> (at == 0 || !is_word_char(s[at - 1])) && (at + pattern.len() == s.len()
        || !is_word_char(s[at + pattern.len() as int]))
}

/// Whether an entry matches a text somewhere. An empty pattern matches nothing.
pub open spec fn entry_matches(entry: Entry, content: Seq<char>) -> bool {
    let s = text::lowered(content);
    let pattern = text::lowered(entry.pattern@);
    pattern.len() > 0 && exists|at: int| matches_at(s, pattern, entry.match_mode, at)
}

/// The hit that an entry's match is reported as.
pub open spec fn hit_of(entry: Entry) -> HitView {
    HitView {
        pattern: entry.pattern@,
        action: entry.action,
        reason: text::text_opt(entry.reason),
    }
}

/// The hits of a list of entries on a text: one for each matching entry, in
/// the order of the entries.
pub open spec fn hits_on(entries: Seq<Entry>, content: Seq<char>) -> Seq<HitView>
    decreases entries.len(),
{
    if entries.len() == 0 {
        Seq::empty()
    } else {
        let before = hits_on(entries.drop_last(), content);
        if entry_matches(entries.last(), content) {
            before.push(hit_of(entries.last()))
        } else {
            before
        }
    }
}

fn word_char(c: char) -> (r: bool)
    ensures
        r == is_word_char(c),
{
    (c >= '0' && c <= '9') || (c >= 'a' && c <= 'z') || (c >= 'A' && c <= 'Z') || c == '_' || c
        >= '\u{80}'
}

fn lower_chars(s: &str) -> (r: Vec<char>)
    ensures
        r@ == text::lowered(s@),
{
    let chars: Vec<char> = text::chars_of(s);
    let mut out: Vec<char> = Vec::new();
    let mut i: usize = 0;
    while i < chars.len()
        invariant
            chars@ == s@,
            i <= chars@.len(),
            out@ == text::lowered(s@.take(i as int)),
        decreases chars@.len() - i,
    {
        out.push(text::char_lower(chars[i]));
        assert(text::lowered(s@.take(i + 1)) =~= text::lowered(s@.take(i as int)).push(
            text::lower(s@[i as int]),
        ));
        i = i + 1;
    }
    assert(s@.take(s@.len() as int) =~= s@);
    out
}

fn match_here(s: &Vec<char>, pattern: &Vec<char>, mode: MatchMode, at: usize) -> (r: bool)
    requires
        at <= s@.len(),
        pattern@.len() > 0,
    ensures
        r == matches_at(s@, pattern@, mode, at as int),
{
    if !text::chars_at(s, pattern, at) {
        return false;
    }
    match mode {
        MatchMode::Substring => true,
        MatchMode::Word => {
            let n: usize = s.len();
            assert(at + pattern@.len() <= n);
            let end: usize = at + pattern.len();
            (at == 0 || !word_char(s[at - 1])) && (end == s.len() || !word_char(s[end]))
        },
    }
}

fn entry_hits(entry: &Entry, content: &str) -> (r: bool)
    ensures
        r == entry_matches(*entry, content@),
{
    let s: Vec<char> = lower_chars(content);
    let pattern: Vec<char> = lower_chars(entry.pattern.as_str());
    if pattern.len() == 0 {
        return false;
    }
    let mut at: usize = 0;
    while at < s.len()
        invariant
            at <= s@.len(),
            s@ == text::lowered(content@),
            pattern@ == text::lowered(entry.pattern@),
            pattern@.len() > 0,
            forall|k: int|
                0 <= k < at ==> !#[trigger] matches_at(s@, pattern@, entry.match_mode, k),
        decreases s@.len() - at,
    {
        if match_here(&s, &pattern, entry.match_mode, at) {
            return true;
        }
        at = at + 1;
    }
    false
}

/// An optional string, copied.
pub fn copy_opt(s: &Option<String>) -> (r: Option<String>)
    ensures
        r == *s,
{
    match s {
        Some(x) => Some(x.clone()),
        None => None,
    }
}

/// What a note in the diary is about.
#[derive(Clone, Copy, Debug, PartialEq, Eq, Structural)]
pub enum DiaryKind {
    /// A message matched an entry that is only noted.
    Log,
    /// A message matched an entry that is cheered for.
    Celebrate,
    /// A message went out although an entry would have stopped it.
    Override,
    /// A message was held.
    Held,
}

/// A note in the diary.
#[derive(Debug, PartialEq, Eq)]
pub struct DiaryRecord {
    /// What it is about.
    pub kind: DiaryKind,
    /// The pattern that matched.
    pub pattern: String,
    /// The text that it matched.
    pub content: String,
}

impl Clone for DiaryRecord {
    fn clone(&self) -> (r: Self)
        ensures
            r == *self,
    {
        DiaryRecord {
            kind: self.kind,
            pattern: self.pattern.clone(),
            content: self.content.clone(),
        }
    }
}

/// A copy of a list of notes.
pub fn copy_diary(records: &Vec<DiaryRecord>) -> (r: Vec<DiaryRecord>)
    ensures
        r@ == records@,
{
    let mut out: Vec<DiaryRecord> = Vec::new();
    let mut i: usize = 0;
    while i < records.len()
        invariant
            i <= records@.len(),
            out@ == records@.take(i as int),
        decreases records@.len() - i,
    {
        out.push(records[i].clone());
        assert(records@.take(i + 1) =~= records@.take(i as int).push(records@[i as int]));
        i = i + 1;
    }
    assert(records@.take(records@.len() as int) =~= records@);
    out
}

/// A list of entries to hold outbound text against.
#[derive(Debug)]
pub struct Contradictionary {
    /// The entries, in the order in which they are reported.
    pub entries: Vec<Entry>,
}

impl Contradictionary {
    /// A contradictionary of these entries.
    pub fn new(entries: Vec<Entry>) -> (r: Self)
        ensures
            r.entries == entries,
    {
        Contradictionary { entries }
    }

    /// The entries that match `content`, in order.
    pub fn check(&self, content: &str) -> (r: Vec<Hit>)
        ensures
            hit_views(r@) == hits_on(self.entries@, content@),
    {
        let mut out: Vec<Hit> = Vec::new();
        let mut i: usize = 0;
        assert(hit_views(out@) =~= hits_on(self.entries@.take(0), content@));
        while i < self.entries.len()
            invariant
                i <= self.entries@.len(),
                hit_views(out@) == hits_on(self.entries@.take(i as int), content@),
            decreases self.entries@.len() - i,
        {
            let entry: &Entry = &self.entries[i];
            let ghost seen = out@;
            assert(self.entries@.take(i + 1).drop_last() =~= self.entries@.take(i as int));
            if entry_hits(entry, content) {
                out.push(
                    Hit {
                        pattern: entry.pattern.clone(),
                        action: entry.action,
                        reason: copy_opt(&entry.reason),
                    },
                );
                assert(hit_views(out@) =~= hit_views(seen).push(hit_of(*entry)));
            }
            i = i + 1;
        }
        assert(self.entries@.take(self.entries@.len() as int) =~= self.entries@);
        out
    }
}

/// The hits on a text are those of the entries that match it, each with its pattern,
/// its action and its reason.
pub proof fn law_hits_are_of_the_entries_that_match(
    entries: Seq<Entry>,
    content: Seq<char>,
    hit: HitView,
)
    ensures
        hits_on(entries, content).contains(hit) <==> exists|i: int|
            0 <= i < entries.len() && entry_matches(#[trigger] entries[i], content) && hit.pattern
                == entries[i].pattern@ && hit.action == entries[i].action && hit.reason
                == text::text_opt(entries[i].reason),
    decreases entries.len(),
{
    if entries.len() > 0 {
        let front = entries.drop_last();
        let before = hits_on(front, content);
        let hits = hits_on(entries, content);
        law_hits_are_of_the_entries_that_match(front, content, hit);
        if before.contains(hit) {
            let k = choose|k: int| 0 <= k < before.len() && before[k] == hit;
            assert(hits[k] == hit);
            let i = choose|i: int|
                0 <= i < front.len() && entry_matches(#[trigger] front[i], content) && hit.pattern
                    == front[i].pattern@ && hit.action == front[i].action && hit.reason
                    == text::text_opt(front[i].reason);
            assert(entries[i] == front[i]);
        }
        if entry_matches(entries.last(), content) {
            assert(hits.last() == hit_of(entries.last()));
            assert(hits[hits.len() - 1] == hits.last());
            assert(entries[entries.len() - 1] == entries.last());
        }
        if hits.contains(hit) && !before.contains(hit) {
            let k = choose|k: int| 0 <= k < hits.len() && hits[k] == hit;
            if k < before.len() {
                assert(before[k] == hit);
            }
        }
        if exists|i: int|
            0 <= i < entries.len() && entry_matches(#[trigger] entries[i], content) && hit.pattern
                == entries[i].pattern@ && hit.action == entries[i].action && hit.reason
                == text::text_opt(entries[i].reason) {
            let i = choose|i: int|
                0 <= i < entries.len() && entry_matches(#[trigger] entries[i], content)
                    && hit.pattern == entries[i].pattern@ && hit.action == entries[i].action
                    && hit.reason == text::text_opt(entries[i].reason);
            if i < front.len() {
                assert(front[i] == entries[i]);
            } else {
                assert(hit == hit_of(entries.last()));
            }
        }
    }
}

/// An entry without a pattern matches nothing. One with a pattern matches the pattern
/// itself, in capitals or not. As a part of a text it matches wherever the pattern
/// occurs, and as a word it matches nowhere else.
pub proof fn law_entries_match_their_patterns(entry: Entry, content: Seq<char>)
    ensures
        text::lowered(entry.pattern@).len() == 0 ==> !entry_matches(entry, content),
        text::lowered(entry.pattern@).len() > 0 && text::lowered(content) == text::lowered(
            entry.pattern@,
        ) ==> entry_matches(entry, content),
        entry_matches(entry, content) ==> exists|at: int| #[trigger]
            text::occurs_at(text::lowered(content), text::lowered(entry.pattern@), at),
        entry.match_mode == MatchMode::Substring && text::lowered(entry.pattern@).len() > 0 && (
        exists|at: int| #[trigger]
            text::occurs_at(text::lowered(content), text::lowered(entry.pattern@), at))
            ==> entry_matches(entry, content),
{
    let s = text::lowered(content);
    let p = text::lowered(entry.pattern@);
    if p.len() > 0 && s == p {
        assert(s.subrange(0, p.len() as int) =~= p);
        assert(matches_at(s, p, entry.match_mode, 0));
    }
    if entry_matches(entry, content) {
        let at = choose|at: int| matches_at(s, p, entry.match_mode, at);
        assert(text::occurs_at(s, p, at));
    }
    if entry.match_mode == MatchMode::Substring && p.len() > 0 && exists|at: int|
        #[trigger] text::occurs_at(s, p, at) {
        let at = choose|at: int| #[trigger] text::occurs_at(s, p, at);
        assert(matches_at(s, p, entry.match_mode, at));
    }
}

/// A word that a letter has grown on is another word, which an entry for whole words
/// does not match.
pub proof fn law_grown_words_are_other_words(entry: Entry, content: Seq<char>, letter: char)
    requires
        entry.match_mode == MatchMode::Word,
        text::lowered(entry.pattern@).len() > 0,
        'a' <= text::lowered(entry.pattern@)[0] <= 'z',
        'a' <= letter <= 'z',
        text::lowered(content) == text::lowered(entry.pattern@).push(letter),
    ensures
        !entry_matches(entry, content),
{
    let s = text::lowered(content);
    let p = text::lowered(entry.pattern@);
    if entry_matches(entry, content) {
        let at = choose|at: int| matches_at(s, p, entry.match_mode, at);
        assert(text::occurs_at(s, p, at));
        if at == 0 {
            assert(s[p.len() as int] == letter);
        } else {
            assert(at == 1);
            assert(s[0] == p[0]);
        }
        assert(false);
    }
}

/// Case makes no difference to what matches.
pub proof fn law_case_does_not_hide_a_word(entry: Entry, a: Seq<char>, b: Seq<char>)
    requires
        text::lowered(a) == text::lowered(b),
    ensures
        entry_matches(entry, a) == entry_matches(entry, b),
{
}

/// A word between blanks is found, by an entry of either kind.
pub proof fn law_words_between_blanks_are_found(entry: Entry, content: Seq<char>)
    requires
        text::lowered(entry.pattern@).len() > 0,
        text::lowered(content) == seq![' '] + text::lowered(entry.pattern@) + seq![' '],
    ensures
        entry_matches(entry, content),
{
    let s = text::lowered(content);
    let p = text::lowered(entry.pattern@);
    assert(s.subrange(1, 1 + p.len() as int) =~= p);
    assert(s[0] == ' ' && s[1 + p.len() as int] == ' ');
    assert(matches_at(s, p, entry.match_mode, 1));
}

/// Words are made of letters, digits and underscores, and of everything that is not ASCII.
pub proof fn law_words_are_made_of_letters(c: char)
    ensures
        is_word_char(c) <==> '0' <= c <= '9' || 'a' <= c <= 'z' || 'A' <= c <= 'Z' || c == '_' || c
            >= '\u{80}',
        !is_word_char(' ') && !is_word_char('.') && !is_word_char('-'),
{
}

} // verus!
