//! The intermediate representation.

use slack2buzz::ir::{ts_to_unix_secs, ChannelKind, Counts, Message};

#[test]
fn ts_parses_seconds_and_ignores_microseconds() {
    assert_eq!(ts_to_unix_secs("1728394855.123456"), Some(1728394855));
    assert_eq!(ts_to_unix_secs("1728394855"), Some(1728394855));
    assert_eq!(ts_to_unix_secs("not-a-ts"), None);
    assert_eq!(ts_to_unix_secs(""), None);
}

fn msg(ts: &str, thread_ts: Option<&str>) -> Message {
    Message {
        slack_ts: ts.to_string(),
        channel_slack_id: "C1".into(),
        created_at: 0,
        user_slack_id: None,
        bot_id: None,
        author_override: None,
        text: String::new(),
        raw_text: String::new(),
        thread_ts: thread_ts.map(str::to_string),
        subtype: None,
        broadcast: false,
        edited_at: None,
        mentions: vec![],
        file_ids: vec![],
    }
}

#[test]
fn thread_root_and_reply_are_distinguished_by_thread_ts() {
    let plain = msg("100.1", None);
    assert!(!plain.is_thread_root());
    assert!(!plain.is_thread_reply());

    let root = msg("100.1", Some("100.1"));
    assert!(root.is_thread_root());
    assert!(!root.is_thread_reply());

    let reply = msg("200.2", Some("100.1"));
    assert!(!reply.is_thread_root());
    assert!(reply.is_thread_reply());
}

#[test]
fn a_ts_reads_as_an_integer_would() {
    for s in [
        "+5.1",
        "-5.1",
        "5.",
        ".5",
        " 5.1",
        "9223372036854775807.9",
        "9223372036854775808.0",
        "-9223372036854775808",
        "-9223372036854775809",
        "-",
        "+",
        "1_0",
    ] {
        let expected = s.split('.').next().unwrap().parse::<i64>().ok();
        assert_eq!(ts_to_unix_secs(s), expected, "{s}");
    }
}

#[test]
fn only_public_channels_are_not_private() {
    for (kind, word, private) in [
        (ChannelKind::Public, "public", false),
        (ChannelKind::Private, "private", true),
        (ChannelKind::Dm, "dm", true),
        (ChannelKind::GroupDm, "group_dm", true),
    ] {
        assert_eq!(kind.as_str(), word);
        assert_eq!(kind.is_private(), private);
    }
}

#[test]
fn counts_start_at_nothing() {
    let c = Counts::default();
    assert_eq!(c.messages, 0);
    assert!(c.unknown_subtypes.entries().is_empty());
    assert_eq!(c.clone(), c);
}
