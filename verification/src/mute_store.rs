//! Which guilds are muted, and until when.
//!
//! The log of receipts is the truth: the state in memory is what replaying the
//! log gives. A change is first written to the log; only when that has worked
//! does the state follow. So each change comes in two steps: one that decides
//! and makes out the receipt, and one that is told whether the receipt was
//! written.

use std::collections::HashMap;
use vstd::prelude::*;
use crate::clock::{self, Timestamp};
use crate::contradictionary::copy_opt;
use crate::table;
use crate::text;

verus! {

/// The longest time to live, in minutes: thirty days.
pub const MAX_TTL_MINUTES: u64 = 43200;

// ── Mutes and receipts ──────────────────────────────────────────────────────

/// A muted guild.
#[derive(Debug, PartialEq, Eq)]
pub struct GuildMute {
    pub guild_id: u64,
    pub muted_until: Timestamp,
    pub muted_by: String,
    pub reason: Option<String>,
    pub muted_at: Timestamp,
    /// What tells messages from before the mute apart.
    pub cutoff_event_id: String,
}

/// A [`GuildMute`] as a value.
#[verifier::ext_equal]
pub struct MuteView {
    pub guild_id: u64,
    pub muted_until: Timestamp,
    pub muted_by: Seq<char>,
    pub reason: Option<Seq<char>>,
    pub muted_at: Timestamp,
    pub cutoff_event_id: Seq<char>,
}

impl View for GuildMute {
    type V = MuteView;

    open spec fn view(&self) -> MuteView {
        MuteView {
            guild_id: self.guild_id,
            muted_until: self.muted_until,
            muted_by: self.muted_by@,
            reason: text::text_opt(self.reason),
            muted_at: self.muted_at,
            cutoff_event_id: self.cutoff_event_id@,
        }
    }
}

impl MuteView {
    /// Whether the mute holds at `now`.
    pub open spec fn active(self, now: Timestamp) -> bool {
        now.before(self.muted_until)
    }
}

impl Clone for GuildMute {
    fn clone(&self) -> (r: Self)
        ensures
            r == *self,
    {
        GuildMute {
            guild_id: self.guild_id,
            muted_until: self.muted_until,
            muted_by: self.muted_by.clone(),
            reason: copy_opt(&self.reason),
            muted_at: self.muted_at,
            cutoff_event_id: self.cutoff_event_id.clone(),
        }
    }
}

impl GuildMute {
    /// Whether the mute holds at `now`.
    pub fn is_active(&self, now: &Timestamp) -> (r: bool)
        ensures
            r == self@.active(*now),
    {
        now.is_before(&self.muted_until)
    }

    /// The whole seconds that are left at `now`, zero where the mute has ended.
    pub fn remaining_seconds(&self, now: &Timestamp) -> (r: i64)
        ensures
            r == now.secs_until(self.muted_until),
    {
        now.seconds_until(&self.muted_until)
    }
}

/// What happens to a mute.
#[derive(Clone, Copy, Debug, PartialEq, Eq, Structural)]
pub enum MuteOperation {
    /// A guild is muted.
    Mute,
    /// A mute is lifted.
    Unmute,
    /// A mute is made longer.
    Extend,
    /// A mute has run out.
    Expire,
}

/// One entry of the receipt log.
#[derive(Debug, PartialEq, Eq)]
pub struct MuteReceipt {
    pub timestamp: Timestamp,
    pub guild_id: u64,
    pub operation: MuteOperation,
    pub actor: String,
    pub reason: Option<String>,
    pub muted_until: Option<Timestamp>,
    pub cutoff_event_id: Option<String>,
}

/// A [`MuteReceipt`] as a value.
#[verifier::ext_equal]
pub struct ReceiptView {
    pub timestamp: Timestamp,
    pub guild_id: u64,
    pub operation: MuteOperation,
    pub actor: Seq<char>,
    pub reason: Option<Seq<char>>,
    pub muted_until: Option<Timestamp>,
    pub cutoff_event_id: Option<Seq<char>>,
}

impl View for MuteReceipt {
    type V = ReceiptView;

    open spec fn view(&self) -> ReceiptView {
        ReceiptView {
            timestamp: self.timestamp,
            guild_id: self.guild_id,
            operation: self.operation,
            actor: self.actor@,
            reason: text::text_opt(self.reason),
            muted_until: self.muted_until,
            cutoff_event_id: text::text_opt(self.cutoff_event_id),
        }
    }
}

/// The mutes by guild.
pub type Mutes = Map<u64, MuteView>;

/// The mute that a receipt tells of.
pub open spec fn mute_of(r: ReceiptView, until: Timestamp) -> MuteView {
    MuteView {
        guild_id: r.guild_id,
        muted_until: until,
        muted_by: r.actor,
        reason: r.reason,
        muted_at: r.timestamp,
        cutoff_event_id: match r.cutoff_event_id {
            Some(id) => id,
            None => Seq::empty(),
        },
    }
}

/// The mutes after a receipt. A mute without an end changes nothing.
pub open spec fn applied(mutes: Mutes, r: ReceiptView) -> Mutes {
    match r.operation {
        MuteOperation::Mute | MuteOperation::Extend => match r.muted_until {
            Some(until) => mutes.insert(r.guild_id, mute_of(r, until)),
            None => mutes,
        },
        MuteOperation::Unmute | MuteOperation::Expire => mutes.remove(r.guild_id),
    }
}

/// The mutes after a log of receipts.
pub open spec fn replayed(log: Seq<ReceiptView>) -> Mutes
    decreases log.len(),
{
    if log.len() == 0 {
        Map::empty()
    } else {
        applied(replayed(log.drop_last()), log.last())
    }
}

/// Whatever the log, each mute stands under its own guild.
pub proof fn law_mutes_stand_under_their_guilds(log: Seq<ReceiptView>)
    ensures
        forall|guild: u64| #[trigger]
            replayed(log).contains_key(guild) ==> replayed(log)[guild].guild_id == guild,
    decreases log.len(),
{
    if log.len() > 0 {
        law_mutes_stand_under_their_guilds(log.drop_last());
    }
}

/// A receipt touches no other guild.
pub proof fn law_receipts_touch_one_guild(log: Seq<ReceiptView>, r: ReceiptView, other: u64)
    requires
        other != r.guild_id,
    ensures
        replayed(log.push(r)).contains_key(other) <==> replayed(log).contains_key(other),
        replayed(log).contains_key(other) ==> replayed(log.push(r))[other] == replayed(log)[other],
{
    assert(log.push(r).drop_last() =~= log);
}

// ── The state ───────────────────────────────────────────────────────────────

/// All mutes, whether they still hold or not.
pub struct MuteState {
    mutes: HashMap<u64, GuildMute>,
}

/// The values of a map of mutes.
pub open spec fn mute_views(mutes: Map<u64, GuildMute>) -> Mutes {
    mutes.map_values(|m: GuildMute| m@)
}

impl View for MuteState {
    type V = Mutes;

    closed spec fn view(&self) -> Mutes {
        mute_views(self.mutes@)
    }
}

/// Whether `list` holds exactly the mutes of `mutes` with this state at `now`,
/// each once.
pub open spec fn selects(mutes: Mutes, now: Timestamp, active: bool, list: Seq<GuildMute>) -> bool {
    &&& forall|i: int, j: int|
        0 <= i < j < list.len() ==> (#[trigger] list[i]).guild_id != (#[trigger] list[j]).guild_id
    &&& forall|i: int|
        0 <= i < list.len() ==> {
            &&& mutes.contains_key((#[trigger] list[i]).guild_id)
            &&& mutes[list[i].guild_id] == list[i]@
            &&& list[i]@.active(now) == active
        }
    &&& forall|guild: u64| #[trigger]
        mutes.contains_key(guild) && mutes[guild].active(now) == active ==> exists|i: int|
            0 <= i < list.len() && (#[trigger] list[i]).guild_id == guild
}

impl MuteState {
    /// The state's invariant: each mute stands under its own guild.
    pub closed spec fn wf(&self) -> bool {
        forall|guild: u64| #[trigger]
            self@.contains_key(guild) ==> self@[guild].guild_id == guild
    }

    /// No mutes.
    pub fn new() -> (r: Self)
        ensures
            r.wf(),
            r@ == Map::<u64, MuteView>::empty(),
    {
        let r: MuteState = MuteState { mutes: HashMap::new() };
        assert(r@ =~= Map::<u64, MuteView>::empty());
        r
    }

    /// The number of mutes.
    pub fn len(&self) -> (r: usize)
        requires
            self.wf(),
        ensures
            self@.dom().finite(),
            r == self@.dom().len(),
    {
        assert(self@.dom() =~= self.mutes@.dom());
        self.mutes.len()
    }

    /// The mute of a guild, active or not.
    pub fn get(&self, guild_id: u64) -> (r: Option<&GuildMute>)
        requires
            self.wf(),
        ensures
            match r {
                Some(m) => self@.contains_key(guild_id) && m@ == self@[guild_id],
                None => !self@.contains_key(guild_id),
            },
    {
        self.mutes.get(&guild_id)
    }

    /// Whether a guild is muted at `now`.
    pub fn is_guild_muted(&self, guild_id: u64, now: &Timestamp) -> (r: bool)
        requires
            self.wf(),
        ensures
            r == (self@.contains_key(guild_id) && self@[guild_id].active(*now)),
    {
        match self.get(guild_id) {
            Some(m) => m.is_active(now),
            None => false,
        }
    }

    fn select(&self, now: &Timestamp, active: bool) -> (r: Vec<GuildMute>)
        requires
            self.wf(),
        ensures
            selects(self@, *now, active, r@),
    {
        let guilds: Vec<u64> = table::keys_of(&self.mutes);
        let mut out: Vec<GuildMute> = Vec::new();
        let mut i: usize = 0;
        while i < guilds.len()
            invariant
                self.wf(),
                i <= guilds@.len(),
                guilds@.no_duplicates(),
                forall|guild: u64|
                    self.mutes@.contains_key(guild) <==> #[trigger] guilds@.contains(guild),
                forall|k: int|
                    0 <= k < out@.len() ==> {
                        &&& self@.contains_key((#[trigger] out@[k]).guild_id)
                        &&& self@[out@[k].guild_id] == out@[k]@
                        &&& out@[k]@.active(*now) == active
                        &&& guilds@.take(i as int).contains(out@[k].guild_id)
                    },
                forall|a: int, b: int|
                    0 <= a < b < out@.len() ==> (#[trigger] out@[a]).guild_id != (
                    #[trigger] out@[b]).guild_id,
                forall|p: int|
                    0 <= p < i && self@[#[trigger] guilds@[p]].active(*now) == active
                        ==> exists|k: int|
                        0 <= k < out@.len() && (#[trigger] out@[k]).guild_id == guilds@[p],
            decreases guilds@.len() - i,
        {
            let guild: u64 = guilds[i];
            let ghost had = out@;
            let ghost done = guilds@.take(i as int);
            proof {
                assert(guilds@.contains(guild));
                assert(guilds@.take(i + 1) =~= done.push(guild));
                assert(!done.contains(guild));
            }
            if let Some(m) = self.mutes.get(&guild) {
                assert(self@.contains_key(guild) && self@[guild] == m@);
                if m.is_active(now) == active {
                    out.push(m.clone());
                }
            }
            proof {
                assert forall|k: int| 0 <= k < out@.len() implies guilds@.take(i + 1).contains(
                    (#[trigger] out@[k]).guild_id,
                ) by {
                    if k < had.len() {
                        assert(done.contains(had[k].guild_id));
                        let p = choose|p: int|
                            0 <= p < done.len() && done[p] == had[k].guild_id;
                        assert(done.push(guild)[p] == had[k].guild_id);
                    } else {
                        assert(done.push(guild)[i as int] == guild);
                    }
                }
                assert forall|p: int| 0 <= p < i + 1 && self@[#[trigger] guilds@[p]].active(*now)
                    == active implies exists|k: int|
                    0 <= k < out@.len() && (#[trigger] out@[k]).guild_id == guilds@[p] by {
                    if p < i {
                        let k = choose|k: int|
                            0 <= k < had.len() && (#[trigger] had[k]).guild_id == guilds@[p];
                        assert(out@[k] == had[k]);
                    } else {
                        assert(out@[had.len() as int].guild_id == guild);
                    }
                }
            }
            i = i + 1;
        }
        proof {
            assert forall|guild: u64| #[trigger]
                self@.contains_key(guild) && self@[guild].active(*now) == active implies exists|
                k: int,
            | 0 <= k < out@.len() && (#[trigger] out@[k]).guild_id == guild by {
                assert(guilds@.contains(guild));
                let p = choose|p: int| 0 <= p < guilds@.len() && guilds@[p] == guild;
                assert(self@[guilds@[p]].active(*now) == active);
            }
        }
        out
    }

    /// The mutes that hold at `now`.
    pub fn active_mutes(&self, now: &Timestamp) -> (r: Vec<GuildMute>)
        requires
            self.wf(),
        ensures
            selects(self@, *now, true, r@),
    {
        self.select(now, true)
    }
}

/// Applies a receipt to the state.
pub fn apply_receipt(state: &mut MuteState, receipt: &MuteReceipt)
    requires
        old(state).wf(),
    ensures
        final(state).wf(),
        final(state)@ == applied(old(state)@, receipt@),
{
    let ghost before = state@;
    match receipt.operation {
        MuteOperation::Mute | MuteOperation::Extend => {
            if let Some(muted_until) = receipt.muted_until {
                let cutoff_event_id: String = match &receipt.cutoff_event_id {
                    Some(id) => id.clone(),
                    None => String::new(),
                };
                let mute: GuildMute = GuildMute {
                    guild_id: receipt.guild_id,
                    muted_until,
                    muted_by: receipt.actor.clone(),
                    reason: copy_opt(&receipt.reason),
                    muted_at: receipt.timestamp,
                    cutoff_event_id,
                };
                state.mutes.insert(receipt.guild_id, mute);
                assert(mute@ == mute_of(receipt@, muted_until));
                assert(state@ =~= before.insert(receipt.guild_id, mute@));
            }
        },
        MuteOperation::Unmute | MuteOperation::Expire => {
            state.mutes.remove(&receipt.guild_id);
            assert(state@ =~= before.remove(receipt.guild_id));
        },
    }
}

// ── Replaying the log ───────────────────────────────────────────────────────

/// The lines of a receipt log that hold something, trimmed, each with its number.
pub open spec fn numbered_lines(lines: Seq<Seq<char>>) -> Seq<(nat, Seq<char>)>
    decreases lines.len(),
{
    if lines.len() == 0 {
        Seq::empty()
    } else {
        let before = numbered_lines(lines.drop_last());
        if text::is_blank(lines.last()) {
            before
        } else {
            before.push((lines.len(), text::trimmed(lines.last())))
        }
    }
}

/// The values of numbered lines.
pub open spec fn line_views(lines: Seq<(usize, String)>) -> Seq<(nat, Seq<char>)> {
    lines.map_values(|l: (usize, String)| (l.0 as nat, l.1@))
}

/// Splits a receipt log into its lines, counted from one; blank lines count and
/// are left out.
pub fn receipt_lines(contents: &str) -> (r: Vec<(usize, String)>)
    ensures
        line_views(r@) == numbered_lines(text::lines(contents@)),
{
    let lines: Vec<String> = text::split_lines(contents);
    let ghost all = text::lines(contents@);
    let mut out: Vec<(usize, String)> = Vec::new();
    let mut i: usize = 0;
    assert(line_views(out@) =~= numbered_lines(all.take(0)));
    while i < lines.len()
        invariant
            i <= lines@.len(),
            all == text::texts(lines@),
            line_views(out@) == numbered_lines(all.take(i as int)),
        decreases lines@.len() - i,
    {
        let ghost had = out@;
        proof {
            assert(all.take(i + 1).drop_last() =~= all.take(i as int));
            assert(all.take(i + 1).last() == lines@[i as int]@);
        }
        let trimmed: String = text::trim(lines[i].as_str());
        if !trimmed.as_str().is_empty() {
            out.push((i + 1, trimmed));
            assert(line_views(out@) =~= line_views(had).push(((i + 1) as nat, trimmed@)));
        }
        i = i + 1;
    }
    assert(all.take(all.len() as int) =~= all);
    out
}

/// What is said of a line that is no receipt.
pub open spec fn corrupt_text(line: nat, error: Seq<char>) -> Seq<char> {
    "corrupt receipt at line "@ + text::decimal(line) + ": "@ + error
}

/// A line of the log as it was read: its number, and the receipt or what is
/// wrong with it.
pub struct ReadLine {
    pub number: usize,
    pub receipt: Result<MuteReceipt, String>,
}

/// Whether every line up to `n` is a receipt.
pub open spec fn sound(lines: Seq<ReadLine>, n: int) -> bool {
    forall|i: int| 0 <= i < n ==> (#[trigger] lines[i]).receipt is Ok
}

/// The receipts of sound lines.
pub open spec fn receipts_of(lines: Seq<ReadLine>) -> Seq<ReceiptView> {
    lines.map_values(|l: ReadLine| l.receipt->Ok_0@)
}

/// Rebuilds the state from the lines of the log. The first line that is no
/// receipt makes the whole log unusable.
pub fn replay_receipt_log(lines: &Vec<ReadLine>) -> (r: Result<MuteState, String>)
    ensures
        match r {
            Ok(state) => {
                &&& sound(lines@, lines@.len() as int)
                &&& state.wf()
                &&& state@ == replayed(receipts_of(lines@))
            },
            Err(message) => exists|i: int|
                {
                    &&& 0 <= i < lines@.len()
                    &&& sound(lines@, i)
                    &&& (#[trigger] lines@[i]).receipt matches Err(e)
                    &&& message@ == corrupt_text(lines@[i].number as nat, e@)
                },
        },
{
    let mut state: MuteState = MuteState::new();
    let mut i: usize = 0;
    let ghost log = receipts_of(lines@);
    while i < lines.len()
        invariant
            i <= lines@.len(),
            log == receipts_of(lines@),
            sound(lines@, i as int),
            state.wf(),
            state@ == replayed(log.take(i as int)),
        decreases lines@.len() - i,
    {
        match &lines[i].receipt {
            Ok(receipt) => {
                apply_receipt(&mut state, receipt);
                assert(log.take(i + 1).drop_last() =~= log.take(i as int));
                assert(log.take(i + 1).last() == receipt@);
            },
            Err(e) => {
                let mut message: String = "corrupt receipt at line ".to_owned();
                let number: String = text::decimal_string(lines[i].number as u64);
                message.append(number.as_str());
                message.append(": ");
                message.append(e.as_str());
                return Err(message);
            },
        }
        i = i + 1;
    }
    assert(log.take(log.len() as int) =~= log);
    Ok(state)
}

// ── The store ───────────────────────────────────────────────────────────────

/// The identity of the moment at which a guild is muted.
pub open spec fn cutoff_text(at: Timestamp, guild_id: u64) -> Seq<char> {
    let nanos = if i64::MIN <= at.unix_nanos() <= i64::MAX {
        at.unix_nanos()
    } else {
        0
    };
    text::signed_decimal(nanos) + "-"@ + text::decimal(guild_id as nat)
}

fn generate_cutoff_event_id(at: &Timestamp, guild_id: u64) -> (r: String)
    ensures
        r@ == cutoff_text(*at, guild_id),
{
    let nanos: i64 = match at.nanos_i64() {
        Some(n) => n,
        None => 0,
    };
    let mut out: String = text::signed_string(nanos);
    out.append("-");
    let guild: String = text::decimal_string(guild_id);
    out.append(guild.as_str());
    out
}

/// A change whose receipt has been made out and not been written yet.
pub struct PendingChange {
    receipt: MuteReceipt,
    mute: GuildMute,
}

impl PendingChange {
    /// The receipt to be written.
    pub closed spec fn receipt_view(&self) -> ReceiptView {
        self.receipt@
    }

    /// The mute that the change is about.
    pub closed spec fn mute_view(&self) -> MuteView {
        self.mute@
    }

    /// The receipt to be written.
    pub fn receipt(&self) -> (r: &MuteReceipt)
        ensures
            r@ == self.receipt_view(),
    {
        &self.receipt
    }
}

/// What the background task has to do next.
#[derive(Clone, Copy, Debug, PartialEq, Eq)]
pub enum Wakeup {
    /// Some mutes have run out: write their receipts now.
    Reconcile,
    /// Sleep until the next mute runs out.
    SleepUntil(Timestamp),
    /// Nothing is muted: wait for the next mute.
    Park,
}

/// How long the background task waits after a reconciliation that failed, in seconds.
pub const RECONCILE_RETRY_SECS: u64 = 5;

/// How long to wait after a reconciliation before looking again, in seconds: not at
/// all after one that succeeded, and a moment after one that failed, so that the
/// mutes that stayed are tried again.
pub fn wait_after_reconcile(outcome: &Result<usize, String>) -> (r: u64)
    ensures
        r == if outcome is Ok {
            0
        } else {
            RECONCILE_RETRY_SECS
        },
{
    match outcome {
        Ok(_) => 0,
        Err(_) => RECONCILE_RETRY_SECS,
    }
}

/// The mute store.
pub struct MuteStore {
    state: MuteState,
    log: Ghost<Seq<ReceiptView>>,
}

/// Whether a guild's mute holds at `now`.
pub open spec fn muted_now(mutes: Mutes, guild_id: u64, now: Timestamp) -> bool {
    mutes.contains_key(guild_id) && mutes[guild_id].active(now)
}

/// Whether a guild is muted at `now`, as far as a list of mutes tells.
pub open spec fn listed_muted(list: Seq<GuildMute>, guild_id: u64, now: Timestamp) -> bool {
    exists|i: int|
        0 <= i < list.len() && (#[trigger] list[i]).guild_id == guild_id && list[i]@.active(now)
}

/// Whether a guild is muted at `now`, as far as a list of mutes tells.
pub fn is_listed_muted(list: &Vec<GuildMute>, guild_id: u64, now: &Timestamp) -> (r: bool)
    ensures
        r == listed_muted(list@, guild_id, *now),
{
    let mut i: usize = 0;
    while i < list.len()
        invariant
            i <= list@.len(),
            forall|k: int|
                0 <= k < i ==> !((#[trigger] list@[k]).guild_id == guild_id && list@[k]@.active(*now)),
        decreases list@.len() - i,
    {
        if list[i].guild_id == guild_id && list[i].is_active(now) {
            return true;
        }
        i = i + 1;
    }
    false
}

/// A list of the mutes that held at some time tells from then on, as long as nothing is
/// changed, which guilds are muted.
pub proof fn law_lists_tell_mutes(
    mutes: Mutes,
    then: Timestamp,
    list: Seq<GuildMute>,
    guild_id: u64,
    now: Timestamp,
)
    requires
        selects(mutes, then, true, list),
        !now.before(then),
    ensures
        listed_muted(list, guild_id, now) == muted_now(mutes, guild_id, now),
{
    if muted_now(mutes, guild_id, now) {
        assert(mutes[guild_id].active(then));
        let i = choose|i: int| 0 <= i < list.len() && (#[trigger] list[i]).guild_id == guild_id;
        assert(list[i]@.active(now));
    }
}

/// What is said of a mute that is to hold for no time.
pub open spec fn too_short_text() -> Seq<char> {
    "ttl_minutes (0) is below minimum (1)"@
}

/// What is said of a time to live that is too long.
pub open spec fn too_long_text(ttl_minutes: u64) -> Seq<char> {
    "ttl_minutes ("@ + text::decimal(ttl_minutes as nat) + ") exceeds maximum ("@ + text::decimal(
        MAX_TTL_MINUTES as nat,
    ) + ")"@
}

/// What is said of a mute that would end before the one that holds.
pub open spec fn shortening_text(existing: MuteView, now: Timestamp) -> Seq<char> {
    "guild "@ + text::decimal(existing.guild_id as nat) + " is already muted until "@
        + clock::rfc3339_text(existing.muted_until.unix_secs(), existing.muted_until.subsec())
        + " ("@ + text::signed_decimal(now.secs_until(existing.muted_until))
        + " seconds remaining); new TTL would shorten the mute. Unmute first to replace."@
}

/// What is said of a guild that is not muted.
pub open spec fn not_muted_text(guild_id: u64) -> Seq<char> {
    "guild "@ + text::decimal(guild_id as nat) + " is not currently muted"@
}

/// The receipt of a mute.
pub open spec fn mute_receipt(
    mutes: Mutes,
    guild_id: u64,
    until: Timestamp,
    muted_by: Seq<char>,
    reason: Option<Seq<char>>,
    now: Timestamp,
) -> ReceiptView {
    ReceiptView {
        timestamp: now,
        guild_id,
        operation: if muted_now(mutes, guild_id, now) {
            MuteOperation::Extend
        } else {
            MuteOperation::Mute
        },
        actor: muted_by,
        reason,
        muted_until: Some(until),
        cutoff_event_id: Some(cutoff_text(now, guild_id)),
    }
}

/// The receipt of a mute that has run out.
pub open spec fn expire_receipt(mute: MuteView, now: Timestamp) -> ReceiptView {
    ReceiptView {
        timestamp: now,
        guild_id: mute.guild_id,
        operation: MuteOperation::Expire,
        actor: "system"@,
        reason: None,
        muted_until: Some(mute.muted_until),
        cutoff_event_id: if mute.cutoff_event_id.len() == 0 {
            None
        } else {
            Some(mute.cutoff_event_id)
        },
    }
}

/// The receipts that were written, in order.
pub open spec fn written(receipts: Seq<MuteReceipt>, appended: Seq<Result<(), String>>) -> Seq<
    ReceiptView,
>
    decreases receipts.len(),
{
    if receipts.len() == 0 {
        Seq::empty()
    } else {
        let before = written(receipts.drop_last(), appended.drop_last());
        if appended.last() is Ok {
            before.push(receipts.last()@)
        } else {
            before
        }
    }
}

/// The last failure to write a receipt.
pub open spec fn last_failure(appended: Seq<Result<(), String>>) -> Option<Seq<char>>
    decreases appended.len(),
{
    if appended.len() == 0 {
        None
    } else {
        match appended.last() {
            Err(e) => Some(e@),
            Ok(_) => last_failure(appended.drop_last()),
        }
    }
}

impl MuteStore {
    /// The mutes.
    pub closed spec fn mutes(&self) -> Mutes {
        self.state@
    }

    /// The receipts that have been written.
    pub closed spec fn log(&self) -> Seq<ReceiptView> {
        self.log@
    }

    /// The store's invariant: the state is what replaying the log gives.
    pub closed spec fn wf(&self) -> bool {
        self.state.wf() && self.mutes() == replayed(self.log())
    }

    /// The store of a log.
    pub fn load(lines: &Vec<ReadLine>) -> (r: Result<MuteStore, String>)
        ensures
            match r {
                Ok(store) => {
                    &&& sound(lines@, lines@.len() as int)
                    &&& store.wf()
                    &&& store.log() == receipts_of(lines@)
                    &&& store.mutes() == replayed(receipts_of(lines@))
                },
                Err(message) => exists|i: int|
                    {
                        &&& 0 <= i < lines@.len()
                        &&& sound(lines@, i)
                        &&& (#[trigger] lines@[i]).receipt matches Err(e)
                        &&& message@ == corrupt_text(lines@[i].number as nat, e@)
                    },
            },
    {
        match replay_receipt_log(lines) {
            Ok(state) => Ok(MuteStore { state, log: Ghost(receipts_of(lines@)) }),
            Err(e) => Err(e),
        }
    }

    /// The state.
    pub fn load_state(&self) -> (r: &MuteState)
        requires
            self.wf(),
        ensures
            r.wf(),
            r@ == self.mutes(),
    {
        &self.state
    }

    /// Whether a guild is muted at `now`.
    pub fn is_guild_muted(&self, guild_id: u64, now: &Timestamp) -> (r: bool)
        requires
            self.wf(),
        ensures
            r == muted_now(self.mutes(), guild_id, *now),
    {
        self.state.is_guild_muted(guild_id, now)
    }

    /// The mutes that hold at `now`.
    pub fn list_muted(&self, now: &Timestamp) -> (r: Vec<GuildMute>)
        requires
            self.wf(),
        ensures
            selects(self.mutes(), *now, true, r@),
    {
        self.state.active_mutes(now)
    }

    /// Decides on muting a guild for `ttl_minutes` from `now`, at least one and at most
    /// [`MAX_TTL_MINUTES`]. A mute that holds can be made longer, not shorter.
    pub fn mute_guild(
        &self,
        guild_id: u64,
        ttl_minutes: u64,
        muted_by: String,
        reason: Option<String>,
        now: Timestamp,
    ) -> (r: Result<PendingChange, String>)
        requires
            self.wf(),
            ttl_minutes <= MAX_TTL_MINUTES ==> clock::secs_in_range(
                now.unix_secs() + ttl_minutes * 60,
            ),
        ensures
            match r {
                Ok(change) => {
                    &&& 1 <= ttl_minutes <= MAX_TTL_MINUTES
                    &&& change.receipt_view().muted_until matches Some(until)
                    &&& until.unix_secs() == now.unix_secs() + ttl_minutes * 60
                    &&& until.subsec() == now.subsec()
                    &&& muted_now(self.mutes(), guild_id, now) ==> !until.before(
                        self.mutes()[guild_id].muted_until,
                    )
                    &&& change.receipt_view() == mute_receipt(
                        self.mutes(),
                        guild_id,
                        until,
                        muted_by@,
                        text::text_opt(reason),
                        now,
                    )
                    &&& change.mute_view() == mute_of(change.receipt_view(), until)
                },
                Err(message) => {
                    ||| ttl_minutes == 0 && message@ == too_short_text()
                    ||| ttl_minutes > MAX_TTL_MINUTES && message@ == too_long_text(ttl_minutes)
                    ||| {
                        &&& 1 <= ttl_minutes <= MAX_TTL_MINUTES
                        &&& muted_now(self.mutes(), guild_id, now)
                        &&& now.unix_secs() + ttl_minutes * 60
                            < self.mutes()[guild_id].muted_until.unix_secs() || (now.unix_secs()
                            + ttl_minutes * 60 == self.mutes()[guild_id].muted_until.unix_secs()
                            && now.subsec() < self.mutes()[guild_id].muted_until.subsec())
                        &&& message@ == shortening_text(self.mutes()[guild_id], now)
                    }
                },
            },
    {
        if ttl_minutes == 0 {
            return Err("ttl_minutes (0) is below minimum (1)".to_owned());
        }
        if ttl_minutes > MAX_TTL_MINUTES {
            let mut message: String = "ttl_minutes (".to_owned();
            let ttl: String = text::decimal_string(ttl_minutes);
            message.append(ttl.as_str());
            message.append(") exceeds maximum (");
            let max: String = text::decimal_string(MAX_TTL_MINUTES);
            message.append(max.as_str());
            message.append(")");
            return Err(message);
        }
        let muted_until: Timestamp = match now.plus_minutes(ttl_minutes) {
            Some(until) => until,
            None => now,
        };
        let is_extend: bool = match self.state.get(guild_id) {
            Some(existing) => {
                if existing.is_active(&now) && muted_until.is_before(&existing.muted_until) {
                    let mut message: String = "guild ".to_owned();
                    let guild: String = text::decimal_string(guild_id);
                    message.append(guild.as_str());
                    message.append(" is already muted until ");
                    let until: String = existing.muted_until.to_rfc3339();
                    message.append(until.as_str());
                    message.append(" (");
                    let left: String = text::signed_string(existing.remaining_seconds(&now));
                    message.append(left.as_str());
                    message.append(
                        " seconds remaining); new TTL would shorten the mute. Unmute first to replace.",
                    );
                    assert(self.mutes()[guild_id].guild_id == guild_id);
                    return Err(message);
                }
                existing.is_active(&now)
            },
            None => false,
        };
        let operation: MuteOperation = if is_extend {
            MuteOperation::Extend
        } else {
            MuteOperation::Mute
        };
        let cutoff_event_id: String = generate_cutoff_event_id(&now, guild_id);
        let receipt: MuteReceipt = MuteReceipt {
            timestamp: now,
            guild_id,
            operation,
            actor: muted_by.clone(),
            reason: copy_opt(&reason),
            muted_until: Some(muted_until),
            cutoff_event_id: Some(cutoff_event_id.clone()),
        };
        let mute: GuildMute = GuildMute {
            guild_id,
            muted_until,
            muted_by,
            reason,
            muted_at: now,
            cutoff_event_id,
        };
        Ok(PendingChange { receipt, mute })
    }

    /// Decides on lifting a guild's mute.
    pub fn unmute_guild(&self, guild_id: u64, now: Timestamp) -> (r: Result<PendingChange, String>)
        requires
            self.wf(),
        ensures
            match r {
                Ok(change) => {
                    &&& muted_now(self.mutes(), guild_id, now)
                    &&& change.mute_view() == self.mutes()[guild_id]
                    &&& change.receipt_view() == (ReceiptView {
                        timestamp: now,
                        guild_id,
                        operation: MuteOperation::Unmute,
                        actor: self.mutes()[guild_id].muted_by,
                        reason: None,
                        muted_until: None,
                        cutoff_event_id: None,
                    })
                },
                Err(message) => !muted_now(self.mutes(), guild_id, now) && message@
                    == not_muted_text(guild_id),
            },
    {
        if let Some(existing) = self.state.get(guild_id) {
            if existing.is_active(&now) {
                let receipt: MuteReceipt = MuteReceipt {
                    timestamp: now,
                    guild_id,
                    operation: MuteOperation::Unmute,
                    actor: existing.muted_by.clone(),
                    reason: None,
                    muted_until: None,
                    cutoff_event_id: None,
                };
                return Ok(PendingChange { receipt, mute: existing.clone() });
            }
        }
        let mut message: String = "guild ".to_owned();
        let guild: String = text::decimal_string(guild_id);
        message.append(guild.as_str());
        message.append(" is not currently muted");
        Err(message)
    }

    /// Ends a change: where its receipt was written, the state follows; where not,
    /// nothing changes.
    pub fn commit(&mut self, change: PendingChange, appended: Result<(), String>) -> (r: Result<
        GuildMute,
        String,
    >)
        requires
            old(self).wf(),
        ensures
            final(self).wf(),
            match appended {
                Ok(_) => {
                    &&& r matches Ok(mute)
                    &&& mute@ == change.mute_view()
                    &&& final(self).log() == old(self).log().push(change.receipt_view())
                    &&& final(self).mutes() == applied(old(self).mutes(), change.receipt_view())
                },
                Err(e) => {
                    &&& r matches Err(message)
                    &&& message@ == "failed to append "@ + if change.receipt_view().operation
                        is Unmute {
                        "unmute"@
                    } else {
                        "mute"@
                    } + " receipt: "@ + e@
                    &&& final(self).log() == old(self).log()
                    &&& final(self).mutes() == old(self).mutes()
                },
            },
    {
        let PendingChange { receipt, mute } = change;
        match appended {
            Ok(_) => {
                let ghost log = self.log@;
                apply_receipt(&mut self.state, &receipt);
                self.log = Ghost(log.push(receipt@));
                assert(log.push(receipt@).drop_last() =~= log);
                Ok(mute)
            },
            Err(e) => {
                let mut message: String = "failed to append ".to_owned();
                match receipt.operation {
                    MuteOperation::Unmute => message.append("unmute"),
                    _ => message.append("mute"),
                }
                message.append(" receipt: ");
                message.append(e.as_str());
                Err(message)
            },
        }
    }

    /// The receipts to be written for the mutes that have run out at `now`.
    pub fn expiry_receipts(&self, now: Timestamp) -> (r: Vec<MuteReceipt>)
        requires
            self.wf(),
        ensures
            forall|i: int|
                0 <= i < r@.len() ==> {
                    let guild = (#[trigger] r@[i]).guild_id;
                    &&& self.mutes().contains_key(guild)
                    &&& !self.mutes()[guild].active(now)
                    &&& r@[i]@ == expire_receipt(self.mutes()[guild], now)
                },
            forall|i: int, j: int|
                0 <= i < j < r@.len() ==> (#[trigger] r@[i]).guild_id != (
                #[trigger] r@[j]).guild_id,
            forall|guild: u64| #[trigger]
                self.mutes().contains_key(guild) && !self.mutes()[guild].active(now) ==> exists|
                    i: int,
                | 0 <= i < r@.len() && (#[trigger] r@[i]).guild_id == guild,
    {
        let expired: Vec<GuildMute> = self.state.select(&now, false);
        let mut out: Vec<MuteReceipt> = Vec::new();
        let mut i: usize = 0;
        while i < expired.len()
            invariant
                i <= expired@.len(),
                out@.len() == i,
                self.wf(),
                selects(self.mutes(), now, false, expired@),
                forall|k: int|
                    0 <= k < i ==> (#[trigger] out@[k])@ == expire_receipt(expired@[k]@, now)
                        && out@[k].guild_id == expired@[k].guild_id,
            decreases expired@.len() - i,
        {
            let mute: &GuildMute = &expired[i];
            let cutoff_event_id: Option<String> = if mute.cutoff_event_id.as_str().is_empty() {
                None
            } else {
                Some(mute.cutoff_event_id.clone())
            };
            out.push(
                MuteReceipt {
                    timestamp: now,
                    guild_id: mute.guild_id,
                    operation: MuteOperation::Expire,
                    actor: "system".to_owned(),
                    reason: None,
                    muted_until: Some(mute.muted_until),
                    cutoff_event_id,
                },
            );
            i = i + 1;
        }
        proof {
            assert forall|k: int| 0 <= k < out@.len() implies {
                let guild = (#[trigger] out@[k]).guild_id;
                &&& self.mutes().contains_key(guild)
                &&& !self.mutes()[guild].active(now)
                &&& out@[k]@ == expire_receipt(self.mutes()[guild], now)
            } by {
                assert(expired@[k].guild_id == out@[k].guild_id);
            }
            assert forall|guild: u64| #[trigger]
                self.mutes().contains_key(guild) && !self.mutes()[guild].active(
                    now,
                ) implies exists|k: int|
                0 <= k < out@.len() && (#[trigger] out@[k]).guild_id == guild by {
                let k = choose|k: int|
                    0 <= k < expired@.len() && (#[trigger] expired@[k]).guild_id == guild;
                assert(out@[k].guild_id == guild);
            }
            assert forall|a: int, b: int| 0 <= a < b < out@.len() implies (#[trigger] out@[a]).guild_id
                != (#[trigger] out@[b]).guild_id by {
                assert(expired@[a].guild_id != expired@[b].guild_id);
            }
        }
        out
    }

    /// Ends a reconciliation: the mutes whose receipts were written are dropped;
    /// the others stay, to be tried again. Tells how many were dropped, or, where
    /// some receipt was not written, what went wrong last.
    pub fn reconcile_expiries(
        &mut self,
        receipts: &Vec<MuteReceipt>,
        appended: &Vec<Result<(), String>>,
    ) -> (r: Result<usize, String>)
        requires
            old(self).wf(),
            receipts@.len() == appended@.len(),
        ensures
            final(self).wf(),
            final(self).log() == old(self).log() + written(receipts@, appended@),
            match last_failure(appended@) {
                None => r == Ok::<usize, String>(receipts@.len() as usize),
                Some(e) => r matches Err(message) && message@ == e,
            },
    {
        let ghost log = self.log@;
        let mut count: usize = 0;
        let mut failure: Option<String> = None;
        let mut i: usize = 0;
        assert(log + written(receipts@.take(0), appended@.take(0)) =~= log);
        while i < receipts.len()
            invariant
                i <= receipts@.len() == appended@.len(),
                count <= i,
                self.wf(),
                self.log() == log + written(receipts@.take(i as int), appended@.take(i as int)),
                text::text_opt(failure) == last_failure(appended@.take(i as int)),
                failure is None ==> count == i,
            decreases receipts@.len() - i,
        {
            let ghost done = written(receipts@.take(i as int), appended@.take(i as int));
            proof {
                assert(receipts@.take(i + 1).drop_last() =~= receipts@.take(i as int));
                assert(appended@.take(i + 1).drop_last() =~= appended@.take(i as int));
                assert(appended@.take(i + 1).last() == appended@[i as int]);
            }
            match &appended[i] {
                Ok(_) => {
                    let ghost before = self.log@;
                    let receipt: &MuteReceipt = &receipts[i];
                    apply_receipt(&mut self.state, receipt);
                    self.log = Ghost(before.push(receipt@));
                    proof {
                        assert(before.push(receipt@).drop_last() =~= before);
                        assert(log + done.push(receipt@) =~= (log + done).push(receipt@));
                    }
                    count = count + 1;
                },
                Err(e) => {
                    failure = Some(e.clone());
                },
            }
            i = i + 1;
        }
        assert(receipts@.take(receipts@.len() as int) =~= receipts@);
        assert(appended@.take(appended@.len() as int) =~= appended@);
        match failure {
            Some(e) => Err(e),
            None => Ok(count),
        }
    }

    /// What the background task has to do next.
    pub fn next_wakeup(&self, now: Timestamp) -> (r: Wakeup)
        requires
            self.wf(),
        ensures
            match r {
                Wakeup::Reconcile => exists|guild: u64| #[trigger]
                    self.mutes().contains_key(guild) && !self.mutes()[guild].active(now),
                Wakeup::SleepUntil(deadline) => {
                    &&& forall|guild: u64| #[trigger]
                        self.mutes().contains_key(guild) ==> self.mutes()[guild].active(now)
                            && !self.mutes()[guild].muted_until.before(deadline)
                    &&& exists|guild: u64| #[trigger]
                        self.mutes().contains_key(guild) && self.mutes()[guild].muted_until
                            == deadline
                },
                Wakeup::Park => self.mutes() == Map::<u64, MuteView>::empty(),
            },
    {
        let overdue: Vec<GuildMute> = self.state.select(&now, false);
        if overdue.len() > 0 {
            assert(self.mutes().contains_key(overdue@[0].guild_id));
            return Wakeup::Reconcile;
        }
        let active: Vec<GuildMute> = self.state.select(&now, true);
        proof {
            assert forall|guild: u64| #[trigger] self.mutes().contains_key(guild) implies exists|
                k: int,
            | 0 <= k < active@.len() && (#[trigger] active@[k]).guild_id == guild by {
                if !self.mutes()[guild].active(now) {
                    let k = choose|k: int|
                        0 <= k < overdue@.len() && (#[trigger] overdue@[k]).guild_id == guild;
                }
            }
        }
        if active.len() == 0 {
            assert(self.mutes() =~= Map::<u64, MuteView>::empty());
            return Wakeup::Park;
        }
        let mut deadline: Timestamp = active[0].muted_until;
        let mut i: usize = 1;
        let ghost mut at: int = 0;
        while i < active.len()
            invariant
                1 <= i <= active@.len(),
                0 <= at < i,
                deadline == active@[at].muted_until,
                forall|k: int| 0 <= k < i ==> !(#[trigger] active@[k]).muted_until.before(deadline),
            decreases active@.len() - i,
        {
            if active[i].muted_until.is_before(&deadline) {
                deadline = active[i].muted_until;
                proof {
                    at = i as int;
                }
            }
            i = i + 1;
        }
        proof {
            assert(self.mutes().contains_key(active@[at].guild_id));
            assert(self.mutes()[active@[at].guild_id].muted_until == deadline);
            assert forall|guild: u64| #[trigger] self.mutes().contains_key(
                guild,
            ) implies self.mutes()[guild].active(now) && !self.mutes()[guild].muted_until.before(
                deadline,
            ) by {
                let k = choose|k: int|
                    0 <= k < active@.len() && (#[trigger] active@[k]).guild_id == guild;
                assert(self.mutes()[guild] == active@[k]@);
            }
        }
        Wakeup::SleepUntil(deadline)
    }
}

/// Muting a guild and then lifting the mute leaves every guild as if the guild
/// had never been muted.
pub proof fn law_unmute_undoes_mute(mutes: Mutes, mute: ReceiptView, unmute: ReceiptView)
    requires
        mute.operation is Mute,
        unmute.operation is Unmute,
        mute.guild_id == unmute.guild_id,
    ensures
        applied(applied(mutes, mute), unmute) == mutes.remove(mute.guild_id),
{
    assert(applied(applied(mutes, mute), unmute) =~= mutes.remove(mute.guild_id));
}

/// The log tells everything: a store that is loaded from the log of another holds
/// the same mutes.
pub proof fn law_restarts_lose_nothing(store: MuteStore, loaded: MuteStore)
    requires
        store.wf(),
        loaded.wf(),
        loaded.log() == store.log(),
    ensures
        store.mutes() == replayed(store.log()),
        loaded.mutes() == store.mutes(),
{
}

// ── What holds of mutes ─────────────────────────────────────────────────────

/// A guild is muted strictly before the time that its mute ends at, and not from then on.
pub proof fn law_mutes_end_when_they_end(mutes: Mutes, guild_id: u64, now: Timestamp)
    ensures
        muted_now(mutes, guild_id, now) <==> mutes.contains_key(guild_id) && (now.unix_secs()
            < mutes[guild_id].muted_until.unix_secs() || (now.unix_secs()
            == mutes[guild_id].muted_until.unix_secs() && now.subsec()
            < mutes[guild_id].muted_until.subsec())),
{
}

/// A guild that is muted, or muted for longer, is muted until the time that was set, by
/// whom it was set and for the reason that was given.
pub proof fn law_muting_mutes_until(
    mutes: Mutes,
    guild_id: u64,
    until: Timestamp,
    muted_by: Seq<char>,
    reason: Option<Seq<char>>,
    now: Timestamp,
    then: Timestamp,
)
    ensures
        ({
            let receipt = mute_receipt(mutes, guild_id, until, muted_by, reason, now);
            let after = applied(mutes, receipt);
            &&& receipt.guild_id == guild_id
            &&& receipt.timestamp == now
            &&& receipt.operation == if mutes.contains_key(guild_id) && now.before(
                mutes[guild_id].muted_until,
            ) {
                MuteOperation::Extend
            } else {
                MuteOperation::Mute
            }
            &&& after.contains_key(guild_id)
            &&& after[guild_id].guild_id == guild_id
            &&& after[guild_id].muted_until == until
            &&& after[guild_id].muted_by == muted_by
            &&& after[guild_id].reason == reason
            &&& after[guild_id].muted_at == now
            &&& muted_now(after, guild_id, then) <==> then.before(until)
        }),
{
}

/// A receipt of a mute that is taken back, or has run out, leaves no mute of its guild
/// and every other mute; one of a mute without an end leaves all as it is.
pub proof fn law_unmuted_guilds_are_not_muted(
    mutes: Mutes,
    receipt: ReceiptView,
    other: u64,
    then: Timestamp,
)
    ensures
        receipt.operation == MuteOperation::Unmute || receipt.operation == MuteOperation::Expire
            ==> !applied(mutes, receipt).contains_key(receipt.guild_id) && !muted_now(
            applied(mutes, receipt),
            receipt.guild_id,
            then,
        ),
        other != receipt.guild_id ==> muted_now(applied(mutes, receipt), other, then) == muted_now(
            mutes,
            other,
            then,
        ),
        (receipt.operation == MuteOperation::Mute || receipt.operation == MuteOperation::Extend)
            && receipt.muted_until is None ==> applied(mutes, receipt) == mutes,
        (receipt.operation == MuteOperation::Mute || receipt.operation == MuteOperation::Extend)
            && receipt.muted_until is Some ==> applied(mutes, receipt).contains_key(
            receipt.guild_id,
        ) && applied(mutes, receipt)[receipt.guild_id].muted_until == receipt.muted_until->0,
{
}

/// The receipt of a mute that ran out takes it away, in the name of the system.
pub proof fn law_expired_mutes_are_taken_away(mutes: Mutes, mute: MuteView, now: Timestamp)
    ensures
        ({
            let receipt = expire_receipt(mute, now);
            &&& receipt.guild_id == mute.guild_id
            &&& receipt.operation == MuteOperation::Expire
            &&& receipt.actor == "system"@
            &&& receipt.timestamp == now
            &&& receipt.muted_until == Some(mute.muted_until)
            &&& !applied(mutes, receipt).contains_key(mute.guild_id)
        }),
{
}

/// What is written to the log later is applied later: the state is that of the log so
/// far with the receipt applied to it.
pub proof fn law_receipts_are_applied_in_order(log: Seq<ReceiptView>, receipt: ReceiptView)
    ensures
        replayed(Seq::empty()) == Map::<u64, MuteView>::empty(),
        replayed(log.push(receipt)) == applied(replayed(log), receipt),
{
    assert(log.push(receipt).drop_last() =~= log);
}

/// A receipt counts as written exactly where it could be appended, and there is a failure
/// to tell of exactly where one could not.
pub proof fn law_only_appended_receipts_count(
    receipts: Seq<MuteReceipt>,
    appended: Seq<Result<(), String>>,
    receipt: MuteReceipt,
    outcome: Result<(), String>,
)
    requires
        receipts.len() == appended.len(),
    ensures
        outcome is Ok ==> written(receipts.push(receipt), appended.push(outcome)) == written(
            receipts,
            appended,
        ).push(receipt@),
        outcome is Err ==> written(receipts.push(receipt), appended.push(outcome)) == written(
            receipts,
            appended,
        ),
        last_failure(appended) is None <==> forall|i: int|
            0 <= i < appended.len() ==> (#[trigger] appended[i]) is Ok,
    decreases appended.len(),
{
    assert(receipts.push(receipt).drop_last() =~= receipts);
    assert(appended.push(outcome).drop_last() =~= appended);
    if appended.len() > 0 {
        let front = appended.drop_last();
        law_only_appended_receipts_count(receipts.drop_last(), front, receipt, outcome);
        assert(appended[appended.len() - 1] == appended.last());
        if last_failure(appended) is None {
            assert forall|i: int| 0 <= i < appended.len() implies (#[trigger] appended[i]) is Ok by {
                if i < front.len() {
                    assert(front[i] is Ok);
                }
            }
        }
        if forall|i: int| 0 <= i < appended.len() ==> (#[trigger] appended[i]) is Ok {
            assert forall|i: int| 0 <= i < front.len() implies (#[trigger] front[i]) is Ok by {
                assert(appended[i] is Ok);
            }
        }
    }
}

/// The lines of a log are read with their numbers: each line that is not blank once,
/// without the white space around it, and in order.
pub proof fn law_lines_keep_their_numbers(lines: Seq<Seq<char>>, line: Seq<char>)
    ensures
        text::is_blank(line) ==> numbered_lines(lines.push(line)) == numbered_lines(lines),
        !text::is_blank(line) ==> numbered_lines(lines.push(line)) == numbered_lines(lines).push(
            (lines.len() + 1, text::trimmed(line)),
        ),
        numbered_lines(Seq::empty()).len() == 0,
{
    assert(lines.push(line).drop_last() =~= lines);
}

/// No mute lasts longer than thirty days.
pub proof fn law_mutes_last_thirty_days_at_most()
    ensures
        MAX_TTL_MINUTES == 30 * 24 * 60,
{
}

/// A mute is refused exactly where it would hold for no time, for more than thirty days, or
/// for less long than the guild is muted already.
pub proof fn law_mutes_are_refused_for_their_length(
    store: &MuteStore,
    guild_id: u64,
    ttl_minutes: u64,
    muted_by: String,
    reason: Option<String>,
    now: Timestamp,
    r: Result<PendingChange, String>,
)
    requires
        store.wf(),
        call_ensures(
            MuteStore::mute_guild,
            (store, guild_id, ttl_minutes, muted_by, reason, now),
            r,
        ),
    ensures
        ttl_minutes == 0 || ttl_minutes > 43_200 ==> r is Err,
        1 <= ttl_minutes <= 43_200 && !muted_now(store.mutes(), guild_id, now) ==> r is Ok,
        1 <= ttl_minutes <= 43_200 && muted_now(store.mutes(), guild_id, now) ==> (r is Ok <==> (
        now.unix_secs() + ttl_minutes * 60, now.subsec()) == (
            store.mutes()[guild_id].muted_until.unix_secs(),
            store.mutes()[guild_id].muted_until.subsec(),
        ) || now.unix_secs() + ttl_minutes * 60 > store.mutes()[guild_id].muted_until.unix_secs()
            || (now.unix_secs() + ttl_minutes * 60
            == store.mutes()[guild_id].muted_until.unix_secs() && now.subsec()
            > store.mutes()[guild_id].muted_until.subsec())),
        r matches Ok(change) ==> {
            let after = applied(store.mutes(), change.receipt_view());
            &&& change.receipt_view().guild_id == guild_id
            &&& after.contains_key(guild_id)
            &&& after[guild_id].muted_until.unix_secs() == now.unix_secs() + ttl_minutes * 60
            &&& after[guild_id].muted_by == muted_by@
        },
{
}

/// Only a guild that is muted can be unmuted, and then it is muted no longer.
pub proof fn law_only_muted_guilds_are_unmuted(
    store: &MuteStore,
    guild_id: u64,
    now: Timestamp,
    then: Timestamp,
    r: Result<PendingChange, String>,
)
    requires
        store.wf(),
        call_ensures(MuteStore::unmute_guild, (store, guild_id, now), r),
    ensures
        r is Ok <==> muted_now(store.mutes(), guild_id, now),
        r matches Ok(change) ==> !muted_now(
            applied(store.mutes(), change.receipt_view()),
            guild_id,
            then,
        ),
{
}

/// The background task wakes up when there is something to do: not before the first mute
/// runs out, and not after it.
pub proof fn law_the_task_wakes_up_in_time(store: &MuteStore, now: Timestamp, r: Wakeup, guild: u64)
    requires
        store.wf(),
        call_ensures(MuteStore::next_wakeup, (store, now), r),
        store.mutes().contains_key(guild),
    ensures
        !(r is Park),
        !now.before(store.mutes()[guild].muted_until) ==> r is Reconcile,
        r matches Wakeup::SleepUntil(deadline) ==> now.before(deadline)
            && !store.mutes()[guild].muted_until.before(deadline),
{
    if let Wakeup::SleepUntil(deadline) = r {
        let first = choose|guild: u64| #[trigger]
            store.mutes().contains_key(guild) && store.mutes()[guild].muted_until == deadline;
        assert(store.mutes()[first].active(now));
    }
}

/// After a failure the task waits five seconds, and after a success not at all.
pub proof fn law_failures_are_tried_again(outcome: &Result<usize, String>, r: u64)
    requires
        call_ensures(wait_after_reconcile, (outcome,), r),
    ensures
        *outcome is Ok ==> r == 0,
        *outcome is Err ==> r == 5,
{
}

/// The moment of a mute is known by its time and by its guild, and two guilds that are muted
/// at the same time have moments of their own.
pub proof fn law_moments_of_mutes_are_known(at: Timestamp, guild_id: u64)
    ensures
        i64::MIN <= at.unix_nanos() <= i64::MAX ==> cutoff_text(at, guild_id)
            == text::signed_decimal(at.unix_nanos()) + "-"@ + text::decimal(guild_id as nat),
        !(i64::MIN <= at.unix_nanos() <= i64::MAX) ==> cutoff_text(at, guild_id)
            == text::signed_decimal(0) + "-"@ + text::decimal(guild_id as nat),
{
}

/// What is said of a mute that cannot be set, or be lifted, names what stands in the way.
pub proof fn law_refused_mutes_are_told_why(ttl_minutes: u64, guild_id: u64)
    ensures
        too_short_text() == "ttl_minutes (0) is below minimum (1)"@,
        too_long_text(ttl_minutes) == "ttl_minutes ("@ + text::decimal(ttl_minutes as nat)
            + ") exceeds maximum ("@ + text::decimal(43_200) + ")"@,
        not_muted_text(guild_id) == "guild "@ + text::decimal(guild_id as nat)
            + " is not currently muted"@,
{
}

} // verus!
