//! The two services behind `invite`, as a dry run sees them.

use slack2buzz::invite::buzz::{
    clamp_ttl, DryRunMinter, Minter, Role, BUZZ_DEFAULT_TTL_SECS, DEFAULT_TTL_SECS, MAX_TTL_SECS,
    MIN_TTL_SECS,
};
use slack2buzz::invite::slack::{DryRunMessenger, FlakyMessenger, Messenger};

#[test]
fn only_owner_and_admin_can_mint() {
    assert!(Role::Owner.can_mint());
    assert!(Role::Admin.can_mint());
    assert!(!Role::Member.can_mint());
    assert!(!Role::NoRole.can_mint());
}

#[test]
fn ttl_over_the_cap_is_clamped_and_reported() {
    let (ttl, warning) = clamp_ttl(MAX_TTL_SECS + 1);
    assert_eq!(ttl, MAX_TTL_SECS);
    assert!(warning.unwrap().contains("30-day cap"));
}

#[test]
fn ttl_under_the_floor_is_clamped_and_reported() {
    let (ttl, warning) = clamp_ttl(1);
    assert_eq!(ttl, 60);
    assert!(warning.unwrap().contains("60s floor"));
}

#[test]
fn an_acceptable_ttl_passes_through_silently() {
    let (ttl, warning) = clamp_ttl(DEFAULT_TTL_SECS);
    assert_eq!(ttl, DEFAULT_TTL_SECS);
    assert_eq!(warning, None);
}

/// A dry-run transcript must not contain anything mistakable for a real
/// invite — someone reading the output should not be able to paste a link.
#[test]
fn dry_run_codes_are_obviously_fake() {
    let mut m = DryRunMinter::new("acme.test");
    let invite = m.mint(3600).unwrap();
    assert!(invite.code.contains("DRY-RUN-NOT-A-REAL-CODE"));
    assert!(invite.url.contains("DRY-RUN-NOT-A-REAL-CODE"));
}

#[test]
fn dry_run_codes_are_unique_per_mint() {
    let mut m = DryRunMinter::new("acme.test");
    let a = m.mint(60).unwrap();
    let b = m.mint(60).unwrap();
    assert_ne!(a.code, b.code, "one code per person, as in the real path");
}

#[test]
fn dry_run_records_instead_of_sending() {
    let mut m = DryRunMessenger::default();
    m.send_dm("U0ALICE", "hello").unwrap();
    assert_eq!(m.sent, vec![("U0ALICE".to_string(), "hello".to_string())]);
}

#[test]
fn flaky_messenger_fails_only_for_named_users() {
    let mut m = FlakyMessenger {
        fail_for: vec!["U0BOB".to_string()],
        sent: vec![],
    };
    assert!(m.send_dm("U0ALICE", "x").is_ok());
    assert!(m.send_dm("U0BOB", "x").is_err());
    assert_eq!(m.sent, vec!["U0ALICE"]);
}

#[test]
fn ttl_constants_are_what_buzz_honours() {
    assert_eq!(DEFAULT_TTL_SECS, 1_209_600);
    assert_eq!(MAX_TTL_SECS, 2_592_000);
    assert_eq!(BUZZ_DEFAULT_TTL_SECS, 259_200);
    assert_eq!(clamp_ttl(MIN_TTL_SECS), (60, None));
    assert_eq!(clamp_ttl(MAX_TTL_SECS), (MAX_TTL_SECS, None));
}

#[test]
fn a_clamped_ttl_says_what_it_became() {
    assert_eq!(
        clamp_ttl(5_000_000).1.as_deref(),
        Some("requested TTL of 5000000s exceeds Buzz's 30-day cap; using 2592000s")
    );
    assert_eq!(
        clamp_ttl(59).1.as_deref(),
        Some("requested TTL of 59s is below Buzz's 60s floor; using 60s")
    );
    let once = clamp_ttl(u64::MAX).0;
    assert_eq!(clamp_ttl(once), (once, None));
}

#[test]
fn a_dry_run_invite_is_spelled_out() {
    let mut m = DryRunMinter::new("acme.test").at(1000);
    assert_eq!(m.role().unwrap(), Role::Owner);
    let invite = m.mint(60).unwrap();
    assert_eq!(invite.code, "DRY-RUN-NOT-A-REAL-CODE-1");
    assert_eq!(
        invite.url,
        "https://acme.test/invite/DRY-RUN-NOT-A-REAL-CODE-1"
    );
    assert_eq!(invite.expires_at, 1060);
    assert_eq!(m.minted, 1);
}

#[test]
fn roles_have_names() {
    assert_eq!(Role::Owner.as_str(), "owner");
    assert_eq!(Role::Admin.as_str(), "admin");
    assert_eq!(Role::Member.as_str(), "member");
    assert_eq!(Role::NoRole.as_str(), "none");
}

#[test]
fn messengers_say_where_a_dm_landed() {
    let mut dry = DryRunMessenger::default();
    let dm = dry.send_dm("U0ALICE", "x").unwrap();
    assert_eq!(dm.channel, "DRYRUN-U0ALICE");
    assert_eq!(dm.ts, "0.000000");
    let mut flaky = FlakyMessenger {
        fail_for: vec!["U0BOB".to_string()],
        sent: vec![],
    };
    assert_eq!(flaky.send_dm("U0ALICE", "x").unwrap().channel, "D-U0ALICE");
    assert_eq!(
        flaky.send_dm("U0BOB", "x").unwrap_err().to_string(),
        "slack: ratelimited"
    );
}
