//! Slack's own records.

use slack2buzz::probe::message_secs;
use slack2buzz::slack::{
    handling, is_broadcast, is_join_leave, Handling, SlackConversation, SlackFile, SlackMessage,
    SlackProfile, SlackPurpose, SlackUser,
};

fn user(name: &str, profile: Option<SlackProfile>) -> SlackUser {
    SlackUser {
        id: "U1".to_string(),
        name: name.to_string(),
        deleted: false,
        is_bot: false,
        tz: None,
        profile,
    }
}

fn profile(display_name: &str, real_name: &str) -> Option<SlackProfile> {
    Some(SlackProfile {
        display_name: Some(display_name.to_string()),
        real_name: Some(real_name.to_string()),
        ..SlackProfile::default()
    })
}

#[test]
fn display_name_follows_slack_preference_order() {
    let u = user("handle", profile("Disp", "Real"));
    assert_eq!(u.best_display_name(), "Disp");
}

#[test]
fn empty_display_name_falls_through_to_real_name() {
    let u = user("handle", profile("", "Real"));
    assert_eq!(u.best_display_name(), "Real");
}

#[test]
fn missing_profile_falls_back_to_handle() {
    let u = user("handle", None);
    assert_eq!(u.best_display_name(), "handle");
}

#[test]
fn nameless_user_falls_back_to_id() {
    let u = user("", None);
    assert_eq!(u.best_display_name(), "U1");
}

#[test]
fn message_without_ts_deserialises_so_we_can_count_it_as_skipped() {
    let m = SlackMessage {
        ts: None,
        msg_type: Some("message".to_string()),
        subtype: None,
        user: None,
        bot_id: None,
        username: None,
        text: Some("x".to_string()),
        thread_ts: None,
        edited: None,
        reactions: vec![],
        files: vec![],
    };
    assert!(m.ts.is_none());
    assert_eq!(message_secs(&m), None);
}

#[test]
fn join_leave_detection() {
    assert!(is_join_leave(Some("channel_join")));
    assert!(is_join_leave(Some("group_leave")));
    assert!(!is_join_leave(Some("bot_message")));
    assert!(!is_join_leave(None));
}

#[test]
fn no_subtype_is_a_plain_message() {
    assert_eq!(handling(None), Handling::Plain);
}

#[test]
fn both_spellings_of_broadcast_are_recognised() {
    // `reply_broadcast` is the older name and still shows up in exports of
    // old history.
    assert_eq!(handling(Some("thread_broadcast")), Handling::Broadcast);
    assert_eq!(handling(Some("reply_broadcast")), Handling::Broadcast);
    assert!(is_broadcast(Some("thread_broadcast")));
    assert!(!is_broadcast(Some("bot_message")));
    assert!(!is_broadcast(None));
}

#[test]
fn recognised_text_subtypes_are_not_reported_as_unknown() {
    for s in ["bot_message", "channel_topic", "me_message", "file_share"] {
        assert_eq!(handling(Some(s)), Handling::AsPlainText, "{s}");
    }
}

#[test]
fn join_leave_is_classified_before_plain_text() {
    assert_eq!(handling(Some("channel_join")), Handling::JoinLeave);
}

/// The case this enum exists for: Slack keeps adding subtypes, and an
/// unfamiliar one must be visible rather than silently ordinary.
#[test]
fn an_unfamiliar_subtype_is_unknown() {
    assert_eq!(handling(Some("some_future_slack_thing")), Handling::Unknown);
    assert_eq!(handling(Some("")), Handling::Unknown);
}

fn file(mode: Option<&str>) -> SlackFile {
    SlackFile {
        id: Some("F1".to_string()),
        name: None,
        mimetype: None,
        size: None,
        url_private: None,
        permalink: None,
        mode: mode.map(str::to_string),
        is_external: false,
    }
}

#[test]
fn deleted_files_are_recognised() {
    assert!(file(Some("file_deleted")).is_gone());
    assert!(!file(Some("hosted")).is_gone());
}

#[test]
fn topic_and_purpose_unwrap_and_treat_blank_as_absent() {
    let c = SlackConversation {
        id: "C1".to_string(),
        name: None,
        created: None,
        creator: None,
        is_archived: false,
        members: vec![],
        topic: Some(SlackPurpose {
            value: "  ".to_string(),
        }),
        purpose: Some(SlackPurpose {
            value: "why".to_string(),
        }),
    };
    assert_eq!(c.topic_text(), None);
    assert_eq!(c.purpose_text(), Some("why".to_string()));
}

#[test]
fn files_beyond_the_plan_limit_are_gone_too() {
    assert!(!file(None).is_gone());
    assert!(file(Some("hidden_by_limit")).is_gone());
}

#[test]
fn avatar_prefers_the_larger_image() {
    let mut u = user("h", profile("", "Real"));
    assert_eq!(u.avatar_url(), None);
    assert_eq!(u.real_name().as_deref(), Some("Real"));
    u.profile = Some(SlackProfile {
        image_192: Some("small".to_string()),
        image_512: Some("large".to_string()),
        ..SlackProfile::default()
    });
    assert_eq!(u.avatar_url().as_deref(), Some("large"));
    assert_eq!(u.real_name(), None);
}
