use dione::clock::Timestamp;
use dione::mute_store::{
    apply_receipt, is_listed_muted, receipt_lines, replay_receipt_log, wait_after_reconcile,
    GuildMute, MuteOperation, MuteReceipt, MuteState, MuteStore, ReadLine, Wakeup, MAX_TTL_MINUTES,
};

const NOW: i64 = 1_780_000_000;

fn at(secs: i64) -> Timestamp {
    Timestamp::at(secs, 0).unwrap()
}

fn now() -> Timestamp {
    at(NOW)
}

fn mute_receipt(guild_id: u64, until: i64, cutoff: Option<&str>) -> MuteReceipt {
    MuteReceipt {
        timestamp: at(NOW - 70),
        guild_id,
        operation: MuteOperation::Mute,
        actor: "admin".into(),
        reason: None,
        muted_until: Some(at(until)),
        cutoff_event_id: cutoff.map(String::from),
    }
}

fn lines(receipts: Vec<MuteReceipt>) -> Vec<ReadLine> {
    receipts
        .into_iter()
        .enumerate()
        .map(|(i, r)| ReadLine {
            number: i + 1,
            receipt: Ok(r),
        })
        .collect()
}

fn store(receipts: Vec<MuteReceipt>) -> MuteStore {
    MuteStore::load(&lines(receipts)).unwrap()
}

/// A store with the receipts that it has written.
struct Logged {
    store: MuteStore,
    log: Vec<MuteReceipt>,
}

fn copy(r: &MuteReceipt) -> MuteReceipt {
    MuteReceipt {
        timestamp: r.timestamp,
        guild_id: r.guild_id,
        operation: r.operation,
        actor: r.actor.clone(),
        reason: r.reason.clone(),
        muted_until: r.muted_until,
        cutoff_event_id: r.cutoff_event_id.clone(),
    }
}

impl Logged {
    fn new(receipts: Vec<MuteReceipt>) -> Self {
        Self {
            store: store(receipts),
            log: vec![],
        }
    }

    fn mute(
        &mut self,
        guild: u64,
        ttl: u64,
        by: &str,
        reason: Option<&str>,
    ) -> Result<GuildMute, String> {
        let change =
            self.store
                .mute_guild(guild, ttl, by.into(), reason.map(String::from), now())?;
        self.log.push(copy(change.receipt()));
        self.store.commit(change, Ok(()))
    }

    fn unmute(&mut self, guild: u64) -> Result<GuildMute, String> {
        let change = self.store.unmute_guild(guild, now())?;
        self.log.push(copy(change.receipt()));
        self.store.commit(change, Ok(()))
    }

    fn reconcile(&mut self) -> Result<usize, String> {
        let receipts = self.store.expiry_receipts(now());
        let appended = receipts.iter().map(|_| Ok(())).collect();
        self.log.extend(receipts.iter().map(copy));
        self.store.reconcile_expiries(&receipts, &appended)
    }
}

#[test]
fn is_guild_muted_returns_false_for_unknown_guild() {
    assert!(!store(vec![]).is_guild_muted(12345, &now()));
}

fn mute_until(until: i64) -> GuildMute {
    GuildMute {
        guild_id: 1,
        muted_until: at(until),
        muted_by: "test".into(),
        reason: None,
        muted_at: at(NOW - 70),
        cutoff_event_id: String::new(),
    }
}

#[test]
fn expired_mute_is_not_active() {
    let mute = mute_until(NOW - 10);
    assert!(!mute.is_active(&now()));
    assert_eq!(mute.remaining_seconds(&now()), 0);
}

#[test]
fn active_mute_is_active() {
    let mute = mute_until(NOW + 60);
    assert!(mute.is_active(&now()));
    assert_eq!(mute.remaining_seconds(&now()), 60);
}

#[test]
fn apply_receipt_mute_inserts_entry() {
    let mut state = MuteState::new();
    let receipt = MuteReceipt {
        timestamp: now(),
        guild_id: 42,
        operation: MuteOperation::Mute,
        actor: "admin".into(),
        reason: Some("noisy".into()),
        muted_until: Some(at(NOW + 3600)),
        cutoff_event_id: Some("cutoff-42".into()),
    };
    apply_receipt(&mut state, &receipt);
    assert_eq!(state.len(), 1);
    let mute = state.get(42).unwrap();
    assert_eq!(mute.guild_id, 42);
    assert_eq!(mute.cutoff_event_id, "cutoff-42");
    assert_eq!(mute.reason.as_deref(), Some("noisy"));
}

fn ended(operation: MuteOperation) -> MuteReceipt {
    MuteReceipt {
        timestamp: now(),
        guild_id: 42,
        operation,
        actor: "admin".into(),
        reason: None,
        muted_until: None,
        cutoff_event_id: None,
    }
}

#[test]
fn apply_receipt_unmute_removes_entry() {
    let mut state = MuteState::new();
    apply_receipt(&mut state, &mute_receipt(42, NOW + 3600, None));
    assert!(state.get(42).is_some());
    apply_receipt(&mut state, &ended(MuteOperation::Unmute));
    assert!(state.get(42).is_none());
}

#[test]
fn apply_receipt_expire_removes_entry() {
    let mut state = MuteState::new();
    apply_receipt(&mut state, &mute_receipt(42, NOW + 3600, None));
    apply_receipt(&mut state, &ended(MuteOperation::Expire));
    assert!(state.get(42).is_none());
}

#[test]
fn replay_receipt_log_rebuilds_state() {
    let mut unmute = ended(MuteOperation::Unmute);
    unmute.guild_id = 1;
    let state = replay_receipt_log(&lines(vec![
        mute_receipt(1, NOW + 3600, Some("cutoff-1")),
        mute_receipt(2, NOW + 3600, None),
        unmute,
    ]))
    .unwrap();
    assert_eq!(state.len(), 1);
    assert!(state.get(1).is_none());
    assert!(state.get(2).is_some());
}

#[test]
fn a_corrupt_line_makes_the_log_unusable() {
    let mut all = lines(vec![mute_receipt(1, NOW + 3600, None)]);
    all.push(ReadLine {
        number: 3,
        receipt: Err("expected value".into()),
    });
    let error = match replay_receipt_log(&all) {
        Ok(_) => panic!("expected an error"),
        Err(e) => e,
    };
    assert_eq!(error, "corrupt receipt at line 3: expected value");
}

#[test]
fn blank_lines_of_the_log_are_skipped_but_counted() {
    assert_eq!(
        receipt_lines("one\n  \n\nfour\n"),
        vec![(1, "one".to_string()), (4, "four".to_string())]
    );
}

#[test]
fn mute_and_unmute_roundtrip() {
    let mut s = Logged::new(vec![]);
    let mute = s.mute(42, 60, "admin", Some("noisy")).unwrap();
    assert_eq!(mute.guild_id, 42);
    assert!(s.store.is_guild_muted(42, &now()));
    assert!(
        !mute.cutoff_event_id.is_empty(),
        "cutoff_event_id must be set"
    );

    let removed = s.unmute(42).unwrap();
    assert_eq!(removed.guild_id, 42);
    assert!(!s.store.is_guild_muted(42, &now()));
}

#[test]
fn mute_rejects_shorter_ttl() {
    let mut s = Logged::new(vec![]);
    s.mute(42, 120, "admin", None).unwrap();
    let error = s.mute(42, 1, "admin", None).unwrap_err();
    assert!(error.contains("shorten"));
    assert_eq!(
        error,
        "guild 42 is already muted until 2026-05-28T22:26:40+00:00 (7200 seconds remaining); \
         new TTL would shorten the mute. Unmute first to replace."
    );
}

#[test]
fn mute_allows_extension() {
    let mut s = Logged::new(vec![]);
    s.mute(42, 10, "admin", None).unwrap();
    let extended = s.mute(42, 120, "admin", Some("extended")).unwrap();
    assert!(extended.remaining_seconds(&now()) > 60 * 10);
}

#[test]
fn unmute_nonexistent_guild_errors() {
    let error = Logged::new(vec![]).unmute(999).unwrap_err();
    assert!(error.contains("not currently muted"));
    assert_eq!(error, "guild 999 is not currently muted");
}

#[test]
fn list_muted_returns_only_active() {
    let store = store(vec![
        mute_receipt(1, NOW + 300, None),
        mute_receipt(2, NOW - 10, None),
    ]);
    let active = store.list_muted(&now());
    assert_eq!(active.len(), 1);
    assert_eq!(active[0].guild_id, 1);
}

#[test]
fn persistence_roundtrip_via_receipt_log() {
    let mut s = Logged::new(vec![]);
    s.mute(42, 60, "admin", Some("test")).unwrap();
    let again = store(s.log);
    assert!(again.is_guild_muted(42, &now()));
    let mutes = again.list_muted(&now());
    assert_eq!(mutes.len(), 1);
    assert_eq!(mutes[0].guild_id, 42);
    assert_eq!(mutes[0].reason.as_deref(), Some("test"));
    assert!(
        !mutes[0].cutoff_event_id.is_empty(),
        "cutoff_event_id should survive reload"
    );
}

#[test]
fn load_always_replays_receipt_log() {
    let store = store(vec![mute_receipt(42, NOW + 3600, Some("cutoff-42"))]);
    assert!(
        store.is_guild_muted(42, &now()),
        "guild 42 should be muted from log replay"
    );
    let listed = store.list_muted(&now());
    assert_eq!(listed.len(), 1);
    assert_eq!(listed[0].cutoff_event_id, "cutoff-42");
}

#[test]
fn load_starts_empty_when_no_receipt_log() {
    assert!(store(vec![]).list_muted(&now()).is_empty());
}

#[test]
fn reconcile_expiries_emits_expire_receipts() {
    let mut s = Logged::new(vec![
        mute_receipt(1, NOW - 10, Some("cutoff-1")),
        mute_receipt(2, NOW + 300, Some("cutoff-2")),
    ]);
    assert_eq!(
        s.reconcile(),
        Ok(1),
        "one entry should have been reconciled"
    );
    assert!(!s.store.is_guild_muted(1, &now()));
    assert!(s.store.is_guild_muted(2, &now()));
    assert_eq!(s.log.len(), 1);
    let r = &s.log[0];
    assert_eq!(r.operation, MuteOperation::Expire);
    assert_eq!(r.guild_id, 1);
    assert_eq!(r.actor, "system");
    assert_eq!(r.cutoff_event_id.as_deref(), Some("cutoff-1"));
}

#[test]
fn reconcile_expiries_noop_when_all_active() {
    let mut s = Logged::new(vec![mute_receipt(1, NOW + 300, None)]);
    assert_eq!(s.reconcile(), Ok(0));
    assert!(s.log.is_empty());
}

#[test]
fn mute_rejects_ttl_over_max() {
    let error = Logged::new(vec![])
        .mute(42, MAX_TTL_MINUTES + 1, "admin", None)
        .unwrap_err();
    assert!(error.contains("exceeds maximum"));
    assert_eq!(error, "ttl_minutes (43201) exceeds maximum (43200)");
}

#[test]
fn mute_rejects_a_ttl_of_zero() {
    let mut s = Logged::new(vec![]);
    let error = s.mute(42, 0, "admin", None).unwrap_err();
    assert_eq!(error, "ttl_minutes (0) is below minimum (1)");
    assert!(s.log.is_empty());
}

#[test]
fn receipt_log_records_mute_and_unmute() {
    let mut s = Logged::new(vec![]);
    s.mute(42, 60, "admin", Some("test")).unwrap();
    s.unmute(42).unwrap();
    assert_eq!(s.log.len(), 2, "should have exactly 2 receipts");
    let r1 = &s.log[0];
    assert_eq!(r1.operation, MuteOperation::Mute);
    assert_eq!(r1.guild_id, 42);
    assert!(r1.muted_until.is_some());
    assert!(
        r1.cutoff_event_id.is_some(),
        "Mute receipt must carry cutoff_event_id"
    );
    let r2 = &s.log[1];
    assert_eq!(r2.operation, MuteOperation::Unmute);
    assert_eq!(r2.guild_id, 42);
    assert!(r2.muted_until.is_none());
}

#[test]
fn receipt_log_records_extend() {
    let mut s = Logged::new(vec![]);
    s.mute(42, 10, "admin", None).unwrap();
    s.mute(42, 120, "admin", Some("extended")).unwrap();
    assert_eq!(s.log.len(), 2, "should have mute + extend receipts");
    assert_eq!(s.log[0].operation, MuteOperation::Mute);
    assert_eq!(s.log[1].operation, MuteOperation::Extend);
    assert_eq!(s.log[1].guild_id, 42);
    assert!(s.log[1].muted_until.is_some());
}

#[test]
fn receipt_append_failure_prevents_state_change() {
    let mut store = store(vec![]);
    let change = store
        .mute_guild(42, 60, "admin".into(), None, now())
        .unwrap();
    let result = store.commit(change, Err("no such directory".into()));
    assert_eq!(
        result.unwrap_err(),
        "failed to append mute receipt: no such directory"
    );
    assert!(
        !store.is_guild_muted(42, &now()),
        "the state must not be updated when the receipt is not written"
    );
}

#[test]
fn cutoff_event_id_is_deterministic() {
    let mute = Logged::new(vec![]).mute(42, 60, "admin", None).unwrap();
    assert_eq!(mute.cutoff_event_id, "1780000000000000000-42");
}

#[test]
fn startup_reconciles_expired_entries() {
    let mut s = Logged::new(vec![mute_receipt(42, NOW - 10, Some("cutoff-42"))]);
    assert_eq!(s.reconcile(), Ok(1));
    assert!(
        !s.store.is_guild_muted(42, &now()),
        "expired mute should not be active after load"
    );
    assert_eq!(
        s.store.load_state().len(),
        0,
        "expired entry should be removed from projection after reconciliation"
    );
    assert_eq!(s.log[0].operation, MuteOperation::Expire);
    assert_eq!(s.log[0].guild_id, 42);
    assert_eq!(s.log[0].actor, "system");
}

#[test]
fn earlier_deadline_mute_wakes_scheduler() {
    let distant = store(vec![mute_receipt(42, NOW + 600, None)]);
    assert_eq!(
        distant.next_wakeup(now()),
        Wakeup::SleepUntil(at(NOW + 600))
    );
    let mut s = Logged::new(vec![
        mute_receipt(42, NOW + 600, None),
        mute_receipt(99, NOW - 1, None),
    ]);
    assert_eq!(s.store.next_wakeup(now()), Wakeup::Reconcile);
    assert_eq!(s.reconcile(), Ok(1));
    assert!(s.store.load_state().get(99).is_none());
    assert!(
        s.store.is_guild_muted(42, &now()),
        "guild 42 should still be active (not yet at deadline)"
    );
    assert_eq!(s.log.len(), 1);
    assert_eq!(s.log[0].guild_id, 99);
    assert_eq!(
        s.store.next_wakeup(now()),
        Wakeup::SleepUntil(at(NOW + 600))
    );
}

#[test]
fn failed_reconciliation_leaves_entry_for_retry() {
    let mut s = Logged::new(vec![mute_receipt(1, NOW - 10, Some("cutoff-1"))]);
    let receipts = s.store.expiry_receipts(now());
    let result = s
        .store
        .reconcile_expiries(&receipts, &vec![Err("disk full".to_string())]);
    assert_eq!(result, Err("disk full".to_string()));
    assert!(
        s.store.load_state().get(1).is_some(),
        "failed entry must stay for retry"
    );
    assert_eq!(s.store.next_wakeup(now()), Wakeup::Reconcile);
    assert_eq!(s.reconcile(), Ok(1));
    assert_eq!(s.store.load_state().len(), 0);
}

#[test]
fn overdue_entries_trigger_immediate_reconciliation() {
    let mut s = Logged::new(vec![mute_receipt(1, NOW - 10, None)]);
    assert_eq!(s.store.next_wakeup(now()), Wakeup::Reconcile);
    assert_eq!(s.reconcile(), Ok(1));
    assert_eq!(s.store.next_wakeup(now()), Wakeup::Park);
    assert_eq!(s.log.len(), 1);
    assert_eq!(s.log[0].operation, MuteOperation::Expire);
}

#[test]
fn only_failed_reconciliations_are_waited_after() {
    assert_eq!(wait_after_reconcile(&Ok(0)), 0);
    assert_eq!(wait_after_reconcile(&Ok(3)), 0);
    assert_eq!(wait_after_reconcile(&Err("disk full".into())), 5);
}

#[test]
fn lists_of_mutes_tell_who_is_muted() {
    let store = store(vec![
        mute_receipt(1, NOW + 60, None),
        mute_receipt(2, NOW + 600, None),
    ]);
    let list = store.list_muted(&now());
    for (guild_id, secs) in [(1, 0), (1, 59), (1, 60), (2, 60), (2, 599), (2, 600), (3, 0)] {
        let later = at(NOW + secs);
        assert_eq!(
            is_listed_muted(&list, guild_id, &later),
            store.is_guild_muted(guild_id, &later)
        );
    }
    assert!(is_listed_muted(&list, 1, &at(NOW + 59)));
    assert!(!is_listed_muted(&list, 1, &at(NOW + 60)));
}
