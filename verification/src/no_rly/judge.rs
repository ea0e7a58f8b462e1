//! Who decides whether outbound text passes.

use vstd::prelude::*;
use crate::contradictionary::{self, copy_opt, Action, Contradictionary, Hit, HitView};
use crate::text;

verus! {

/// A rule that matched.
#[derive(Debug, PartialEq, Eq)]
pub struct ReasonEntry {
    /// The pattern of the rule.
    pub pattern: String,
    /// Why the rule is there, if that was said.
    pub reason: Option<String>,
}

/// A [`ReasonEntry`] as a value.
#[verifier::ext_equal]
pub struct ReasonView {
    pub pattern: Seq<char>,
    pub reason: Option<Seq<char>>,
}

impl View for ReasonEntry {
    type V = ReasonView;

    open spec fn view(&self) -> ReasonView {
        ReasonView { pattern: self.pattern@, reason: text::text_opt(self.reason) }
    }
}

impl Clone for ReasonEntry {
    fn clone(&self) -> (r: Self)
        ensures
            r == *self,
    {
        ReasonEntry { pattern: self.pattern.clone(), reason: copy_opt(&self.reason) }
    }
}

/// Why outbound text bounced: the rules that fired, without repetition, in the
/// order in which they matched.
#[derive(Debug, PartialEq, Eq)]
pub struct RejectReason {
    /// The rules.
    pub matches: Vec<ReasonEntry>,
}

/// The values of a sequence of matched rules.
pub open spec fn reason_views(matches: Seq<ReasonEntry>) -> Seq<ReasonView> {
    matches.map_values(|m: ReasonEntry| m@)
}

impl View for RejectReason {
    type V = Seq<ReasonView>;

    open spec fn view(&self) -> Seq<ReasonView> {
        reason_views(self.matches@)
    }
}

impl Clone for RejectReason {
    fn clone(&self) -> (r: Self)
        ensures
            r@ == self@,
            r.matches@ == self.matches@,
    {
        let mut matches: Vec<ReasonEntry> = Vec::new();
        let mut i: usize = 0;
        while i < self.matches.len()
            invariant
                i <= self.matches@.len(),
                matches@ == self.matches@.take(i as int),
            decreases self.matches@.len() - i,
        {
            matches.push(self.matches[i].clone());
            assert(self.matches@.take(i + 1) =~= self.matches@.take(i as int).push(
                self.matches@[i as int],
            ));
            i = i + 1;
        }
        assert(self.matches@.take(self.matches@.len() as int) =~= self.matches@);
        RejectReason { matches }
    }
}

/// The patterns of a reason.
pub open spec fn patterns_of(reason: Seq<ReasonView>) -> Seq<Seq<char>> {
    reason.map_values(|m: ReasonView| m.pattern)
}

/// A rule for people: the pattern, and the explanation in brackets.
pub open spec fn described(m: ReasonView) -> Seq<char> {
    match m.reason {
        Some(reason) => m.pattern + " ("@ + reason + ")"@,
        None => m.pattern,
    }
}

/// A reason for people: its rules, separated by commas.
pub open spec fn reason_text(reason: Seq<ReasonView>) -> Seq<char> {
    text::joined(reason.map_values(|m: ReasonView| described(m)), ", "@)
}

impl RejectReason {
    /// The patterns, separated by commas: the key under which journal summaries
    /// group bounces.
    pub fn patterns(&self) -> (r: String)
        ensures
            r@ == text::joined(patterns_of(self@), ", "@),
    {
        let mut parts: Vec<String> = Vec::new();
        let mut i: usize = 0;
        while i < self.matches.len()
            invariant
                i <= self.matches@.len(),
                text::texts(parts@) == patterns_of(self@).take(i as int),
            decreases self.matches@.len() - i,
        {
            let ghost before = parts@;
            parts.push(self.matches[i].pattern.clone());
            assert(text::texts(parts@) =~= text::texts(before).push(patterns_of(self@)[i as int]));
            assert(patterns_of(self@).take(i + 1) =~= patterns_of(self@).take(i as int).push(
                patterns_of(self@)[i as int],
            ));
            i = i + 1;
        }
        assert(patterns_of(self@).take(self@.len() as int) =~= patterns_of(self@));
        text::join(&parts, ", ")
    }

    /// The reason for people: `pattern (explanation), pattern`.
    pub fn to_string(&self) -> (r: String)
        ensures
            r@ == reason_text(self@),
    {
        let ghost all = self@.map_values(|m: ReasonView| described(m));
        let mut parts: Vec<String> = Vec::new();
        let mut i: usize = 0;
        while i < self.matches.len()
            invariant
                i <= self.matches@.len(),
                all == self@.map_values(|m: ReasonView| described(m)),
                text::texts(parts@) == all.take(i as int),
            decreases self.matches@.len() - i,
        {
            let ghost before = parts@;
            let m: &ReasonEntry = &self.matches[i];
            let mut part: String = m.pattern.clone();
            if let Some(reason) = &m.reason {
                part.append(" (");
                part.append(reason.as_str());
                part.append(")");
            }
            assert(part@ == described(m@));
            parts.push(part);
            assert(text::texts(parts@) =~= text::texts(before).push(all[i as int]));
            assert(all.take(i + 1) =~= all.take(i as int).push(all[i as int]));
            i = i + 1;
        }
        assert(all.take(self@.len() as int) =~= all);
        text::join(&parts, ", ")
    }
}

/// What a judge says of outbound text.
#[derive(Debug, PartialEq, Eq)]
pub enum Verdict {
    /// Send it.
    Clear,
    /// Hold it, for these rules.
    Bounce(RejectReason),
}

impl View for Verdict {
    type V = Option<Seq<ReasonView>>;

    /// The rules that fired, if any did.
    open spec fn view(&self) -> Option<Seq<ReasonView>> {
        match self {
            Verdict::Clear => None,
            Verdict::Bounce(reason) => Some(reason@),
        }
    }
}

/// Whoever decides that a message should not go out as written.
pub trait OutboundJudge {
    /// Judges outbound text.
    fn judge(&self, content: &str) -> (r: Verdict);
}

/// The rules that stop a text: the blocking hits, each pattern once, with the
/// explanation of its first hit.
pub open spec fn blocking(hits: Seq<HitView>) -> Seq<ReasonView>
    decreases hits.len(),
{
    if hits.len() == 0 {
        Seq::empty()
    } else {
        let before = blocking(hits.drop_last());
        let hit = hits.last();
        if hit.action is Block && !patterns_of(before).contains(hit.pattern) {
            before.push(ReasonView { pattern: hit.pattern, reason: hit.reason })
        } else {
            before
        }
    }
}

/// The verdict on a text with these blocking rules: clear where there are none.
pub open spec fn verdict_of(rules: Seq<ReasonView>) -> Option<Seq<ReasonView>> {
    if rules.len() == 0 {
        None
    } else {
        Some(rules)
    }
}

fn has_pattern(matches: &Vec<ReasonEntry>, pattern: &str) -> (r: bool)
    ensures
        r == patterns_of(reason_views(matches@)).contains(pattern@),
{
    let ghost all = patterns_of(reason_views(matches@));
    let mut i: usize = 0;
    while i < matches.len()
        invariant
            i <= matches@.len(),
            all == patterns_of(reason_views(matches@)),
            forall|k: int| 0 <= k < i ==> all[k] != pattern@,
        decreases matches@.len() - i,
    {
        assert(all[i as int] == matches@[i as int].pattern@);
        if text::str_eq(matches[i].pattern.as_str(), pattern) {
            return true;
        }
        i = i + 1;
    }
    false
}

/// Judges a text by its hits: only blocking ones count.
pub fn judge_hits(hits: Vec<Hit>) -> (r: Verdict)
    ensures
        r@ == verdict_of(blocking(contradictionary::hit_views(hits@))),
{
    let ghost all = contradictionary::hit_views(hits@);
    let mut matches: Vec<ReasonEntry> = Vec::new();
    let mut i: usize = 0;
    assert(reason_views(matches@) =~= blocking(all.take(0)));
    while i < hits.len()
        invariant
            i <= hits@.len(),
            all == contradictionary::hit_views(hits@),
            reason_views(matches@) == blocking(all.take(i as int)),
        decreases hits@.len() - i,
    {
        let hit: &Hit = &hits[i];
        let ghost before = reason_views(matches@);
        assert(all.take(i + 1).drop_last() =~= all.take(i as int));
        assert(all.take(i + 1).last() == hit@);
        let fresh: bool = !has_pattern(&matches, hit.pattern.as_str());
        if matches!(hit.action, Action::Block) && fresh {
            matches.push(
                ReasonEntry { pattern: hit.pattern.clone(), reason: copy_opt(&hit.reason) },
            );
            assert(reason_views(matches@) =~= before.push(
                ReasonView { pattern: hit@.pattern, reason: hit@.reason },
            ));
        }
        i = i + 1;
    }
    assert(all.take(all.len() as int) =~= all);
    if matches.len() == 0 {
        Verdict::Clear
    } else {
        Verdict::Bounce(RejectReason { matches })
    }
}

/// The contradictionary judges by its blocking entries alone.
impl OutboundJudge for Contradictionary {
    fn judge(&self, content: &str) -> (r: Verdict)
        ensures
            r@ == verdict_of(blocking(contradictionary::hits_on(self.entries@, content@))),
    {
        judge_hits(self.check(content))
    }
}

/// A judge that clears everything.
#[derive(Clone, Copy, Debug)]
pub struct AlwaysClear;

impl OutboundJudge for AlwaysClear {
    fn judge(&self, content: &str) -> (r: Verdict)
        ensures
            r is Clear,
    {
        Verdict::Clear
    }
}

/// A verdict names each pattern at most once.
pub proof fn law_reasons_name_each_pattern_once(hits: Seq<HitView>)
    ensures
        patterns_of(blocking(hits)).no_duplicates(),
    decreases hits.len(),
{
    if hits.len() > 0 {
        law_reasons_name_each_pattern_once(hits.drop_last());
        let before = blocking(hits.drop_last());
        let hit = hits.last();
        if hit.action is Block && !patterns_of(before).contains(hit.pattern) {
            let after = blocking(hits);
            assert(patterns_of(after) =~= patterns_of(before).push(hit.pattern));
        }
    }
}

/// A text bounces exactly when some hit on it blocks.
pub proof fn law_bounces_iff_some_hit_blocks(hits: Seq<HitView>)
    ensures
        verdict_of(blocking(hits)) is Some <==> exists|i: int|
            0 <= i < hits.len() && (#[trigger] hits[i]).action is Block,
    decreases hits.len(),
{
    if hits.len() > 0 {
        let front = hits.drop_last();
        law_bounces_iff_some_hit_blocks(front);
        if blocking(front).len() > 0 {
            let i = choose|i: int| 0 <= i < front.len() && (#[trigger] front[i]).action is Block;
            assert(hits[i].action is Block);
        }
        if hits.last().action is Block {
            assert(hits[hits.len() - 1].action is Block);
            if blocking(front).len() == 0 {
                assert(patterns_of(blocking(front)).len() == 0);
            }
        }
        if exists|i: int| 0 <= i < hits.len() && (#[trigger] hits[i]).action is Block {
            let i = choose|i: int| 0 <= i < hits.len() && (#[trigger] hits[i]).action is Block;
            if i < front.len() {
                assert(front[i].action is Block);
            }
        }
    }
}

/// The patterns that a verdict names are those of the hits that block, and no others.
pub proof fn law_reasons_are_of_the_hits_that_block(hits: Seq<HitView>, pattern: Seq<char>)
    ensures
        patterns_of(blocking(hits)).contains(pattern) <==> exists|i: int|
            0 <= i < hits.len() && (#[trigger] hits[i]).action == contradictionary::Action::Block
                && hits[i].pattern == pattern,
    decreases hits.len(),
{
    if hits.len() > 0 {
        let front = hits.drop_last();
        let hit = hits.last();
        let before = patterns_of(blocking(front));
        let after = patterns_of(blocking(hits));
        law_reasons_are_of_the_hits_that_block(front, pattern);
        law_reasons_are_of_the_hits_that_block(front, hit.pattern);
        if hit.action is Block && !before.contains(hit.pattern) {
            assert(after =~= before.push(hit.pattern));
            assert(after[before.len() as int] == hit.pattern);
            assert forall|p: Seq<char>| #[trigger] after.contains(p) == (before.contains(p) || p
                == hit.pattern) by {
                if before.contains(p) {
                    let k = choose|k: int| 0 <= k < before.len() && before[k] == p;
                    assert(after[k] == p);
                }
                if after.contains(p) {
                    let k = choose|k: int| 0 <= k < after.len() && after[k] == p;
                    if k < before.len() {
                        assert(before[k] == p);
                    }
                }
            }
        } else {
            assert(after == before);
        }
        assert(hits[hits.len() - 1] == hit);
        if exists|i: int|
            0 <= i < front.len() && (#[trigger] front[i]).action
                == contradictionary::Action::Block && front[i].pattern == pattern {
            let i = choose|i: int|
                0 <= i < front.len() && (#[trigger] front[i]).action
                    == contradictionary::Action::Block && front[i].pattern == pattern;
            assert(hits[i] == front[i]);
        }
        if exists|i: int|
            0 <= i < hits.len() && (#[trigger] hits[i]).action
                == contradictionary::Action::Block && hits[i].pattern == pattern {
            let i = choose|i: int|
                0 <= i < hits.len() && (#[trigger] hits[i]).action
                    == contradictionary::Action::Block && hits[i].pattern == pattern;
            if i < front.len() {
                assert(front[i] == hits[i]);
            }
        }
    }
}

/// A text bounces exactly when an entry that blocks matches it.
pub proof fn law_texts_bounce_on_blocking_entries(
    entries: Seq<contradictionary::Entry>,
    content: Seq<char>,
)
    ensures
        verdict_of(blocking(contradictionary::hits_on(entries, content))) is Some <==> exists|
            i: int,
        |
            0 <= i < entries.len() && contradictionary::entry_matches(
                #[trigger] entries[i],
                content,
            ) && entries[i].action == contradictionary::Action::Block,
{
    let hits = contradictionary::hits_on(entries, content);
    law_bounces_iff_some_hit_blocks(hits);
    if verdict_of(blocking(hits)) is Some {
        let k = choose|k: int| 0 <= k < hits.len() && (#[trigger] hits[k]).action is Block;
        assert(hits.contains(hits[k]));
        contradictionary::law_hits_are_of_the_entries_that_match(entries, content, hits[k]);
    }
    if exists|i: int|
        0 <= i < entries.len() && contradictionary::entry_matches(#[trigger] entries[i], content)
            && entries[i].action == contradictionary::Action::Block {
        let i = choose|i: int|
            0 <= i < entries.len() && contradictionary::entry_matches(
                #[trigger] entries[i],
                content,
            ) && entries[i].action == contradictionary::Action::Block;
        let hit = contradictionary::hit_of(entries[i]);
        contradictionary::law_hits_are_of_the_entries_that_match(entries, content, hit);
        let k = choose|k: int| 0 <= k < hits.len() && hits[k] == hit;
        assert(hits[k].action is Block);
    }
}

/// A verdict that bounces gives every blocking rule, and one that clears has none to give.
pub proof fn law_verdicts_give_their_rules(rules: Seq<ReasonView>)
    ensures
        verdict_of(rules) == Some(rules) <==> rules.len() > 0,
        verdict_of(rules) is None <==> rules.len() == 0,
{
}

/// A rule is told by its pattern, with its reason in brackets where it has one.
pub proof fn law_rules_are_told_by_their_patterns(rules: Seq<ReasonView>, m: ReasonView)
    ensures
        m.reason is None ==> described(m) == m.pattern,
        m.reason matches Some(why) ==> described(m) == m.pattern + " ("@ + why + ")"@,
        reason_text(seq![m]) == described(m),
        rules.len() > 0 ==> reason_text(rules.push(m)) == reason_text(rules) + ", "@ + described(m),
{
    let told = |m: ReasonView| described(m);
    let all = rules.map_values(told);
    assert(seq![m].map_values(told) =~= seq![described(m)]);
    assert(rules.push(m).map_values(told) =~= all.push(described(m)));
    text::law_joined_texts_grow(all, described(m), ", "@);
    text::law_joined_texts_grow(Seq::empty(), described(m), ", "@);
}

} // verus!
