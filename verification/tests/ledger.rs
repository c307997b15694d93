//! The resume ledger.

use slack2buzz::ledger::{read_invite, Ledger, State};

fn ledger() -> Ledger {
    Ledger::in_memory().unwrap()
}

#[test]
fn an_unknown_invite_is_absent_not_an_error() {
    let l = ledger();
    assert_eq!(l.invite("U0NOBODY").unwrap(), None);
    assert!(!l.invite_is_done("U0NOBODY").unwrap());
}

#[test]
fn a_sent_invite_is_done_and_a_resumed_run_skips_it() {
    let mut l = ledger();
    l.record_invite(
        "U0ALICE",
        State::Sent,
        Some(("code1", "https://x.test/invite/code1", 999)),
        Some(("D0DM", "1.2")),
        None,
        100,
    )
    .unwrap();
    assert!(l.invite_is_done("U0ALICE").unwrap());
    let r = l.invite("U0ALICE").unwrap().unwrap();
    assert_eq!(r.state, State::Sent);
    assert_eq!(r.invite_url.as_deref(), Some("https://x.test/invite/code1"));
}

/// The point of a resume ledger: a failure must be retried, not skipped.
#[test]
fn a_failed_invite_is_not_done_so_it_will_be_retried() {
    let mut l = ledger();
    l.record_invite("U0BOB", State::Failed, None, None, Some("429"), 100)
        .unwrap();
    assert!(!l.invite_is_done("U0BOB").unwrap());
    assert_eq!(
        l.invite("U0BOB").unwrap().unwrap().error.as_deref(),
        Some("429")
    );
}

/// A skipped person reflects an operator decision, so it is terminal.
#[test]
fn a_skipped_invite_is_done() {
    let mut l = ledger();
    l.record_invite("U0BOT", State::Skipped, None, None, None, 100)
        .unwrap();
    assert!(l.invite_is_done("U0BOT").unwrap());
}

/// Minting then sending must not lose the code: the second write only
/// changes state, and COALESCE keeps the earlier columns.
#[test]
fn a_later_write_does_not_erase_an_earlier_invite_code() {
    let mut l = ledger();
    l.record_invite(
        "U0ALICE",
        State::Minted,
        Some(("code1", "https://x.test/i/code1", 999)),
        None,
        None,
        100,
    )
    .unwrap();
    // The send step knows the DM ids but not the code.
    l.record_invite(
        "U0ALICE",
        State::Sent,
        None,
        Some(("D0DM", "1.2")),
        None,
        200,
    )
    .unwrap();

    let r = l.invite("U0ALICE").unwrap().unwrap();
    assert_eq!(r.state, State::Sent);
    assert_eq!(
        r.invite_url.as_deref(),
        Some("https://x.test/i/code1"),
        "the code survived the state transition"
    );
    assert_eq!(r.expires_at, Some(999));
}

/// Retrying a failure must clear the stale error, or the final report
/// claims a success also failed.
#[test]
fn a_successful_retry_clears_the_previous_error() {
    let mut l = ledger();
    l.record_invite("U0BOB", State::Failed, None, None, Some("429"), 100)
        .unwrap();
    l.record_invite(
        "U0BOB",
        State::Sent,
        Some(("c", "u", 1)),
        Some(("D", "1.0")),
        None,
        200,
    )
    .unwrap();
    let r = l.invite("U0BOB").unwrap().unwrap();
    assert_eq!(r.state, State::Sent);
    assert_eq!(r.error, None);
}

#[test]
fn invites_can_be_listed_by_state() {
    let mut l = ledger();
    l.record_invite("U0B", State::Sent, None, None, None, 1)
        .unwrap();
    l.record_invite("U0A", State::Sent, None, None, None, 1)
        .unwrap();
    l.record_invite("U0C", State::Failed, None, None, Some("x"), 1)
        .unwrap();
    assert_eq!(l.invites_by_state(State::Sent).unwrap(), vec!["U0A", "U0B"]);
    assert_eq!(l.invites_by_state(State::Failed).unwrap(), vec!["U0C"]);
}

// ── the thread map ───────────────────────────────────────────────────────

#[test]
fn the_thread_map_resolves_a_slack_ts_to_a_buzz_event_id() {
    let mut l = ledger();
    l.record_event("C0G", "100.1", Some("abc123"), State::Sent, None, 1)
        .unwrap();
    assert_eq!(
        l.buzz_event_id("C0G", "100.1").unwrap(),
        Some("abc123".to_string())
    );
}

#[test]
fn an_unpublished_root_resolves_to_none_so_replies_can_be_deferred() {
    let mut l = ledger();
    // Attempted, failed, no event id — a reply must not be orphaned onto it.
    l.record_event("C0G", "100.1", None, State::Failed, Some("boom"), 1)
        .unwrap();
    assert_eq!(l.buzz_event_id("C0G", "100.1").unwrap(), None);
    assert!(!l.event_is_done("C0G", "100.1").unwrap());
}

#[test]
fn events_are_keyed_per_channel_so_identical_ts_do_not_collide() {
    let mut l = ledger();
    l.record_event("C0A", "100.1", Some("aaa"), State::Sent, None, 1)
        .unwrap();
    l.record_event("C0B", "100.1", Some("bbb"), State::Sent, None, 1)
        .unwrap();
    assert_eq!(l.buzz_event_id("C0A", "100.1").unwrap().unwrap(), "aaa");
    assert_eq!(l.buzz_event_id("C0B", "100.1").unwrap().unwrap(), "bbb");
}

#[test]
fn re_recording_an_event_is_idempotent() {
    let mut l = ledger();
    for _ in 0..3 {
        l.record_event("C0G", "100.1", Some("abc"), State::Sent, None, 1)
            .unwrap();
    }
    assert!(l.event_is_done("C0G", "100.1").unwrap());
    assert_eq!(l.buzz_event_id("C0G", "100.1").unwrap().unwrap(), "abc");
}

#[test]
fn meta_round_trips_and_overwrites() {
    let mut l = ledger();
    assert_eq!(l.meta("community").unwrap(), None);
    l.set_meta("community", "abc").unwrap();
    l.set_meta("community", "def").unwrap();
    assert_eq!(l.meta("community").unwrap(), Some("def".to_string()));
}

#[test]
fn a_ledger_over_an_open_connection_keeps_its_rows() {
    let path = "file:kept?mode=memory&cache=shared";
    let first = rusqlite::Connection::open(path).unwrap();
    let second = rusqlite::Connection::open(path).unwrap();
    let mut l = Ledger::init(first).unwrap();
    l.record_event("C0G", "100.1", Some("abc"), State::Sent, None, 1)
        .unwrap();
    let again = Ledger::init(second).unwrap();
    assert_eq!(
        again.buzz_event_id("C0G", "100.1").unwrap(),
        Some("abc".to_string())
    );
}

#[test]
fn recording_one_person_leaves_the_others_alone() {
    let mut l = ledger();
    l.record_invite("U0A", State::Sent, Some(("c", "u", 5)), None, None, 1)
        .unwrap();
    let before = l.invite("U0A").unwrap();
    l.record_invite("U0B", State::Failed, None, None, Some("x"), 2)
        .unwrap();
    assert_eq!(l.invite("U0A").unwrap(), before);
    assert_eq!(l.invites_by_state(State::Minted).unwrap(), Vec::<String>::new());
}

#[test]
fn a_state_that_is_not_known_reads_as_a_failure() {
    let columns = (
        "teleported".to_string(),
        Some("https://x.test".to_string()),
        Some(7),
        None,
    );
    let r = read_invite("U0A", columns);
    assert_eq!(r.state, State::Failed);
    assert_eq!(r.slack_user_id, "U0A");
    assert_eq!(r.invite_url.as_deref(), Some("https://x.test"));
    assert_eq!(r.expires_at, Some(7));
    assert_eq!(r.error, None);
    for (word, state) in [
        ("planned", State::Planned),
        ("minted", State::Minted),
        ("sent", State::Sent),
        ("failed", State::Failed),
        ("skipped", State::Skipped),
    ] {
        assert_eq!(read_invite("U", (word.to_string(), None, None, None)).state, state);
    }
}

#[test]
fn only_sent_and_skipped_are_done() {
    assert!(State::Sent.is_done());
    assert!(State::Skipped.is_done());
    assert!(!State::Planned.is_done());
    assert!(!State::Minted.is_done());
    assert!(!State::Failed.is_done());
}

#[test]
fn ledger_failures_name_the_row() {
    // A connection without the tables: every statement fails.
    let bare = rusqlite::Connection::open_in_memory().unwrap();
    bare.execute_batch("CREATE TABLE invites (slack_user_id TEXT)")
        .unwrap();
    match Ledger::init(bare) {
        Err(e) => assert_eq!(e.exit_code(), 4),
        Ok(mut l) => {
            let e = l
                .record_invite("U0A", State::Sent, None, None, None, 1)
                .unwrap_err();
            assert_eq!(e.to_string(), "ledger: recording invite for U0A");
            assert!(e.has_source());
            let e = l.invite("U0A").unwrap_err();
            assert_eq!(e.to_string(), "ledger: reading invite for U0A");
        }
    }
}

#[test]
fn a_ledger_sets_how_its_database_syncs() {
    // SQLite refuses this setting inside a transaction.
    let conn = rusqlite::Connection::open_in_memory().unwrap();
    conn.execute_batch("BEGIN").unwrap();
    let err = Ledger::init(conn).err().unwrap();
    assert_eq!(err.to_string(), "ledger: database operation failed");
}
