//! What the stages make of a small export: probing, selecting, parsing and
//! inviting.

use std::collections::BTreeSet;

use slack2buzz::error::Error;
use slack2buzz::export::{DayFile, Export};
use slack2buzz::invite;
use slack2buzz::invite::buzz::{DryRunMinter, Invite, Minter, Role, DEFAULT_TTL_SECS};
use slack2buzz::invite::slack::{DryRunMessenger, FlakyMessenger};
use slack2buzz::invite::{
    candidates, compose_dm, execute, numbered_lines, plan, Exclusion, Person, PersonFilter, Plan,
    Scope,
};
use slack2buzz::ir::{ChannelKind, Counts, Record, IR_VERSION};
use slack2buzz::ledger::{Ledger, State};
use slack2buzz::parse::{parse, Options};
use slack2buzz::probe::{probe, survey, tally_day, ConversationSummary, ExportScope, Inventory};
use slack2buzz::report::{
    classify, next_step, print_counts, print_inventory, print_plan, report_selection, Step,
};
use slack2buzz::room::{can_parse, can_probe, can_total, has_room, weigh, weigh_day};
use slack2buzz::selection::{
    describe, list_of_lines, offer, parse_list, parse_lists, picked_filter, preset_filter, presets,
    resolve, Filter, Resolved,
};
use slack2buzz::slack::{
    SlackConversation, SlackEdited, SlackFile, SlackMessage, SlackProfile, SlackReaction, SlackUser,
};

fn text(s: &str) -> Option<String> {
    Some(s.to_string())
}

fn texts(list: &[&str]) -> Vec<String> {
    list.iter().map(|s| s.to_string()).collect()
}

fn user(id: &str, name: &str, real_name: &str) -> SlackUser {
    SlackUser {
        id: id.to_string(),
        name: name.to_string(),
        deleted: false,
        is_bot: false,
        tz: text("Europe/Warsaw"),
        profile: Some(SlackProfile {
            real_name: text(real_name),
            display_name: text(""),
            ..SlackProfile::default()
        }),
    }
}

fn conversation(id: &str, name: Option<&str>, members: &[&str]) -> SlackConversation {
    SlackConversation {
        id: id.to_string(),
        name: name.map(str::to_string),
        created: Some(1_700_000_000),
        creator: text("U0ALICE"),
        is_archived: false,
        members: texts(members),
        topic: None,
        purpose: None,
    }
}

fn message(ts: &str, author: &str, body: &str) -> SlackMessage {
    SlackMessage {
        ts: text(ts),
        msg_type: text("message"),
        subtype: None,
        user: text(author),
        bot_id: None,
        username: None,
        text: text(body),
        thread_ts: None,
        edited: None,
        reactions: vec![],
        files: vec![],
    }
}

fn reply(ts: &str, author: &str, body: &str) -> SlackMessage {
    SlackMessage {
        thread_ts: text("1709545500.000500"),
        ..message(ts, author, body)
    }
}

fn file(id: &str, mode: &str) -> SlackFile {
    SlackFile {
        id: text(id),
        name: text("notes.txt"),
        mimetype: text("text/plain"),
        size: Some(42),
        url_private: text("https://files.test/notes"),
        permalink: None,
        mode: text(mode),
        is_external: false,
    }
}

fn general_day_one() -> Vec<SlackMessage> {
    vec![
        SlackMessage {
            subtype: text("channel_join"),
            ..message("1709545200.000100", "U0ALICE", "<@U0ALICE> has joined the channel")
        },
        SlackMessage {
            reactions: vec![
                SlackReaction {
                    name: "eyes".to_string(),
                    users: texts(&["U0BOB", "U024BE7LH"]),
                },
                SlackReaction {
                    name: "tada".to_string(),
                    users: texts(&["U0ALICE", "U024BE7LH"]),
                },
            ],
            ..message("1709545300.000300", "U0ALICE", "morning")
        },
        message(
            "1709545400.000400",
            "U0ALICE",
            "<@U024BE7LH> the *deploy* from <#C0ENGPRIV|eng-private> is <https://ci.test/build/42|build 42> <!here>, load 5 &amp; rising, `if (a &lt; b)`",
        ),
        SlackMessage {
            ts: None,
            ..message("", "U0BOB", "a message without a ts")
        },
        reply("1709545700.000700", "U0ALICE", "second reply"),
        SlackMessage {
            thread_ts: text("1709545500.000500"),
            ..message("1709545500.000500", "U024BE7LH", "the root")
        },
        reply("1709545600.000600", "U0BOB", "first reply"),
        SlackMessage {
            subtype: text("channel_topic"),
            ..message("1709545800.000800", "U024BE7LH", "set the channel topic: ship it")
        },
    ]
}

fn general_day_two() -> Vec<SlackMessage> {
    vec![
        SlackMessage {
            subtype: text("bot_message"),
            user: None,
            bot_id: text("B0CI"),
            username: text("CI"),
            ..message("1709631700.001000", "", "build green")
        },
        SlackMessage {
            files: vec![file("F0NOTES", "hosted"), file("F0GONE", "tombstone")],
            ..message("1709631800.001100", "U024BE7LH", "notes")
        },
        SlackMessage {
            edited: Some(SlackEdited {
                ts: text("1709632000.000000"),
            }),
            ..message("1709631900.001200", "U0ALICE", "fixed a typo")
        },
        SlackMessage {
            subtype: text("thread_broadcast"),
            ..reply("1709632100.001300", "U0BOB", "also to the channel")
        },
        SlackMessage {
            subtype: text("some_future_slack_thing"),
            ..message("1709632200.001400", "U024BE7LH", "who knows")
        },
    ]
}

fn day(dir: &str, messages: Vec<SlackMessage>) -> DayFile {
    DayFile {
        dir: dir.to_string(),
        messages: Some(messages),
    }
}

/// A small export with every kind of conversation but a group DM: two public
/// channels, one of them archived and empty, a private one and a DM.
fn basic_export() -> Export {
    Export {
        users: Some(vec![
            user("U024BE7LH", "pawel", "Paweł Zieliński"),
            SlackUser {
                profile: None,
                ..user("U0ALICE", "alice", "")
            },
            user("U0BOB", "bob", "bob"),
            SlackUser {
                is_bot: true,
                ..user("U0BUILDBOT", "buildbot", "Build Bot")
            },
            SlackUser {
                deleted: true,
                ..user("U0GONE", "gone", "Long Gone")
            },
        ]),
        channels: Some(vec![
            conversation(
                "C0GENERAL",
                Some("general"),
                &["U0ALICE", "U024BE7LH", "U0BOB", "U0BUILDBOT"],
            ),
            SlackConversation {
                is_archived: true,
                ..conversation("C0EMPTY", Some("tumbleweed"), &[])
            },
        ]),
        groups: Some(vec![conversation(
            "C0ENGPRIV",
            Some("eng-private"),
            &["U024BE7LH", "U0BOB"],
        )]),
        mpims: None,
        dms: Some(vec![conversation("D0ALICEBOB", None, &["U0ALICE", "U0BOB"])]),
        emoji: Some(
            br#"{"shipit":"https://e.test/shipit.png","parrot":"https://e.test/parrot.gif","squirrel":"alias:shipit"}"#
                .to_vec(),
        ),
        dirs: texts(&["D0ALICEBOB", "eng-private", "general"]),
        days: vec![
            day("general", general_day_one()),
            day("general", general_day_two()),
            day(
                "eng-private",
                vec![
                    message("1709545900.000900", "U024BE7LH", "secret plans"),
                    message("1709546000.000950", "U0BOB", "ok"),
                ],
            ),
            day(
                "D0ALICEBOB",
                vec![message("1709546100.000970", "U0ALICE", "lunch?")],
            ),
        ],
    }
}

// ── parse ────────────────────────────────────────────────────────────────────

fn run(filter: &Filter, options: &Options) -> (Vec<Record>, Counts) {
    let export = basic_export();
    let inventory = probe(&export, options.keep_joins).unwrap();
    let resolved = resolve(&inventory, filter).unwrap();
    let import = parse(&export, &inventory, &resolved.selected, options).unwrap();
    (import.records, import.counts)
}

fn has_subtype(records: &[Record], subtype: &str) -> bool {
    records
        .iter()
        .any(|r| matches!(r, Record::Message(m) if m.subtype.as_deref() == Some(subtype)))
}

#[test]
fn first_line_is_always_the_header() {
    let (recs, _) = run(&Filter::public_only(), &Options::default());
    let first = recs.into_iter().next().unwrap();
    match first {
        Record::Header(h) => {
            assert_eq!(h.ir_version, IR_VERSION);
            assert_eq!(h.source, "slack");
            assert_eq!(h.selected_channels, vec!["C0GENERAL"]);
        }
        other => panic!("expected a header, got {other:?}"),
    }
}

#[test]
fn header_counts_match_the_records_that_follow() {
    let (recs, counts) = run(&Filter::everything(), &Options::default());
    let actual_messages = recs
        .iter()
        .filter(|r| matches!(r, Record::Message(_)))
        .count();
    let actual_reactions = recs
        .iter()
        .filter(|r| matches!(r, Record::Reaction(_)))
        .count();
    assert_eq!(counts.messages, actual_messages);
    assert_eq!(counts.reactions, actual_reactions);

    match recs.into_iter().next().unwrap() {
        Record::Header(h) => {
            assert_eq!(h.counts.messages, actual_messages);
            assert_eq!(h.counts.reactions, actual_reactions);
        }
        other => panic!("expected a header, got {other:?}"),
    }
}

#[test]
fn unselected_channels_contribute_no_records() {
    // A raw substring check would false-positive on the header's
    // `skipped_channels` list and on a message that mentions
    // `<#C0ENGPRIV|eng-private>`, so inspect the records themselves.
    let (recs, _) = run(&Filter::public_only(), &Options::default());
    for record in recs.clone() {
        let channel = match record {
            Record::Channel(c) => c.slack_id,
            Record::Message(m) => m.channel_slack_id,
            Record::Reaction(r) => r.channel_slack_id,
            Record::File(f) => f.channel_slack_id,
            _ => continue,
        };
        assert_eq!(
            channel, "C0GENERAL",
            "only the selected channel may contribute records"
        );
    }

    match recs.clone().into_iter().next().unwrap() {
        Record::Header(h) => {
            assert!(h.skipped_channels.contains(&"C0ENGPRIV".to_string()));
            assert!(h.skipped_channels.contains(&"D0ALICEBOB".to_string()));
        }
        other => panic!("expected a header, got {other:?}"),
    }
}

#[test]
fn messages_are_ordered_by_timestamp_within_a_channel() {
    let (recs, _) = run(&Filter::public_only(), &Options::default());
    let times: Vec<i64> = recs.clone()
        .into_iter()
        .filter_map(|r| match r {
            Record::Message(m) => Some(m.created_at),
            _ => None,
        })
        .collect();
    assert!(times.windows(2).all(|w| w[0] <= w[1]), "{times:?}");
}

#[test]
fn joins_are_dropped_by_default_and_kept_on_request() {
    let (dropped, counts_dropped) = run(&Filter::public_only(), &Options::default());
    assert!(!has_subtype(&dropped, "channel_join"));
    assert!(counts_dropped.dropped_joins > 0);

    let (kept, counts_kept) = run(&Filter::public_only(), &Options { keep_joins: true });
    assert!(has_subtype(&kept, "channel_join"));
    assert_eq!(counts_kept.dropped_joins, 0);
    assert_eq!(
        counts_kept.messages,
        counts_dropped.messages + counts_dropped.dropped_joins
    );
}

#[test]
fn a_message_without_a_ts_is_counted_as_skipped_not_imported() {
    let (_, counts) = run(&Filter::public_only(), &Options::default());
    assert_eq!(
        counts.skipped_unparseable, 1,
        "the fixture contains exactly one ts-less message"
    );
}

#[test]
fn reactions_are_exploded_one_per_reactor() {
    let (recs, _) = run(&Filter::public_only(), &Options::default());
    let eyes: Vec<_> = recs.clone()
        .into_iter()
        .filter_map(|r| match r {
            Record::Reaction(x) if x.name == "eyes" => Some(x.user_slack_id),
            _ => None,
        })
        .collect();
    assert_eq!(eyes, vec!["U024BE7LH", "U0BOB"], "sorted, one per reactor");
}

#[test]
fn thread_replies_are_marked_and_counted() {
    let (recs, counts) = run(&Filter::public_only(), &Options::default());
    let replies: Vec<_> = recs.clone()
        .into_iter()
        .filter_map(|r| match r {
            Record::Message(m) if m.is_thread_reply() => Some(m.slack_ts),
            _ => None,
        })
        .collect();
    // Three: two ordinary replies plus the broadcast, which is a reply too.
    assert_eq!(replies.len(), 3);
    assert_eq!(counts.thread_replies, 3);
}

/// A `thread_broadcast` reply went to the channel as well as the thread.
/// Losing that flag would silently downgrade it to an ordinary reply.
#[test]
fn a_broadcast_reply_is_flagged_and_still_a_reply() {
    let (recs, _) = run(&Filter::public_only(), &Options::default());
    let broadcast = recs.clone()
        .into_iter()
        .filter_map(|r| match r {
            Record::Message(m) if m.broadcast => Some(m),
            _ => None,
        })
        .next()
        .expect("the fixture has a thread_broadcast message");

    assert_eq!(broadcast.subtype.as_deref(), Some("thread_broadcast"));
    assert!(
        broadcast.is_thread_reply(),
        "a broadcast is still a reply and must attach to its root"
    );
    assert_eq!(broadcast.thread_ts.as_deref(), Some("1709545500.000500"));
}

#[test]
fn ordinary_messages_are_not_flagged_as_broadcast() {
    let (recs, _) = run(&Filter::public_only(), &Options::default());
    let flagged = recs.clone()
        .into_iter()
        .filter(|r| matches!(r, Record::Message(m) if m.broadcast))
        .count();
    assert_eq!(flagged, 1, "exactly the one broadcast in the fixture");
}

/// Unrecognised subtypes are imported, but must be counted so the operator
/// can find out. Slack keeps adding subtypes; silence is the failure mode.
#[test]
fn an_unrecognised_subtype_is_imported_and_counted() {
    let (recs, counts) = run(&Filter::public_only(), &Options::default());
    assert_eq!(
        counts.unknown_subtypes.get("some_future_slack_thing"),
        Some(&1)
    );

    let imported = recs.clone().into_iter().any(|r| {
        matches!(r, Record::Message(m)
            if m.subtype.as_deref() == Some("some_future_slack_thing"))
    });
    assert!(imported, "counted, but still imported — not dropped");
}

#[test]
fn recognised_subtypes_are_not_counted_as_unknown() {
    let (_, counts) = run(&Filter::public_only(), &Options::default());
    for known in ["bot_message", "channel_topic", "thread_broadcast"] {
        assert!(
            !counts.unknown_subtypes.contains_key(known),
            "{known} is recognised and must not be reported"
        );
    }
}

#[test]
fn thread_root_is_not_counted_as_a_reply() {
    let (recs, _) = run(&Filter::public_only(), &Options::default());
    let root = recs.clone()
        .into_iter()
        .filter_map(|r| match r {
            Record::Message(m) if m.slack_ts == "1709545500.000500" => Some(m),
            _ => None,
        })
        .next()
        .unwrap();
    assert!(root.is_thread_root());
    assert!(!root.is_thread_reply());
}

#[test]
fn raw_text_is_preserved_alongside_the_normalised_text() {
    let (recs, _) = run(&Filter::public_only(), &Options::default());
    let m = recs.clone()
        .into_iter()
        .filter_map(|r| match r {
            Record::Message(m) if m.slack_ts == "1709545400.000400" => Some(m),
            _ => None,
        })
        .next()
        .unwrap();
    assert!(m.raw_text.contains("<@U024BE7LH>"), "raw kept verbatim");
    // `display_name` is empty for this user, so Slack's own preference
    // order falls through to `real_name`.
    assert!(
        m.text.contains("@Paweł Zieliński"),
        "normalised text resolved: {}",
        m.text
    );
    assert!(m.text.contains("**deploy**"), "mrkdwn converted");
    assert!(
        m.text.contains("#eng-private"),
        "channel ref uses its label"
    );
    assert!(
        m.text.contains("[build 42](https://ci.test/build/42)"),
        "labelled link became Markdown"
    );
    assert!(m.text.contains("@here"), "broadcast keyword");
    assert!(m.text.contains("5 & rising"), "entities decoded");
    assert!(
        m.text.contains("if (a < b)"),
        "escaped angle brackets decoded"
    );
    assert_eq!(m.mentions, vec!["U024BE7LH"]);
}

#[test]
fn deleted_files_are_flagged_rather_than_dropped() {
    let (recs, _) = run(&Filter::public_only(), &Options::default());
    let files: Vec<_> = recs.clone()
        .into_iter()
        .filter_map(|r| match r {
            Record::File(f) => Some((f.slack_file_id, f.is_deleted)),
            _ => None,
        })
        .collect();
    assert_eq!(
        files,
        vec![("F0NOTES".to_string(), false), ("F0GONE".to_string(), true)]
    );
}

#[test]
fn bot_messages_keep_their_own_display_name() {
    let (recs, _) = run(&Filter::public_only(), &Options::default());
    let bot = recs.clone()
        .into_iter()
        .filter_map(|r| match r {
            Record::Message(m) if m.bot_id.is_some() => Some(m),
            _ => None,
        })
        .next()
        .unwrap();
    assert_eq!(bot.author_override.as_deref(), Some("CI"));
    assert_eq!(bot.user_slack_id, None);
}

#[test]
fn edits_record_when_they_happened() {
    let (recs, _) = run(&Filter::public_only(), &Options::default());
    let edited = recs.clone()
        .into_iter()
        .filter_map(|r| match r {
            Record::Message(m) if m.edited_at.is_some() => Some(m),
            _ => None,
        })
        .next()
        .unwrap();
    assert_eq!(edited.edited_at, Some(1_709_632_000));
}

#[test]
fn deleted_users_are_still_emitted_so_their_messages_are_not_orphaned() {
    let (recs, _) = run(&Filter::public_only(), &Options::default());
    let gone = recs.clone()
        .into_iter()
        .filter_map(|r| match r {
            Record::User(u) if u.slack_id == "U0GONE" => Some(u),
            _ => None,
        })
        .next()
        .unwrap();
    assert!(gone.is_deleted);
}

#[test]
fn output_is_byte_stable_across_runs() {
    let (a, _) = run(&Filter::everything(), &Options::default());
    let (b, _) = run(&Filter::everything(), &Options::default());
    assert_eq!(
        a, b,
        "emoji and reaction ordering must not depend on hashing"
    );
}

/// Selecting one channel by name must produce exactly the same records for it
/// as selecting all public channels does — the selection must not leak into how
/// a message is parsed.
#[test]
fn selection_does_not_change_how_messages_are_parsed() {
    let by_name = run(
        &Filter {
            included: vec!["general".to_string()],
            ..Filter::default()
        },
        &Options::default(),
    )
    .0;
    let by_kind = run(&Filter::public_only(), &Options::default()).0;

    let messages = |records: &[Record]| -> Vec<Record> {
        records
            .iter()
            .filter(|r| matches!(r, Record::Message(_)))
            .cloned()
            .collect()
    };
    assert_eq!(messages(&by_name), messages(&by_kind));
}

#[test]
fn a_message_record_is_spelled_out() {
    let (recs, _) = run(&Filter::public_only(), &Options::default());
    let m = recs
        .into_iter()
        .find_map(|r| match r {
            Record::Message(m) if m.slack_ts == "1709545400.000400" => Some(m),
            _ => None,
        })
        .unwrap();
    assert_eq!(
        m.text,
        "@Paweł Zieliński the **deploy** from #eng-private is [build 42](https://ci.test/build/42) @here, load 5 & rising, `if (a < b)`"
    );
    assert_eq!(m.channel_slack_id, "C0GENERAL");
    assert_eq!(m.created_at, 1_709_545_400);
    assert_eq!(m.user_slack_id.as_deref(), Some("U0ALICE"));
    assert_eq!(m.author_override, None);
    assert_eq!(m.thread_ts, None);
    assert_eq!(m.edited_at, None);
    assert!(m.file_ids.is_empty());
}

#[test]
fn a_conversation_is_written_channel_first_then_messages_with_their_details() {
    let (recs, counts) = run(&Filter::public_only(), &Options::default());
    let shape: Vec<&str> = recs
        .iter()
        .map(|r| match r {
            Record::Header(_) => "header",
            Record::User(_) => "user",
            Record::Channel(_) => "channel",
            Record::Message(_) => "message",
            Record::Reaction(_) => "reaction",
            Record::File(_) => "file",
            Record::Emoji(_) => "emoji",
        })
        .collect();
    assert_eq!(shape.iter().filter(|s| **s == "header").count(), 1);
    assert_eq!(counts.users, 5);
    assert_eq!(counts.channels, 1);
    assert_eq!(counts.messages, 11);
    assert_eq!(counts.reactions, 4);
    assert_eq!(counts.files, 2);
    assert_eq!(counts.emoji, 3);
    assert_eq!(
        recs.len(),
        1 + counts.users + counts.channels + counts.messages + counts.reactions + counts.files
            + counts.emoji
    );
    let first_message = shape.iter().position(|s| *s == "message").unwrap();
    let channel = shape.iter().position(|s| *s == "channel").unwrap();
    assert!(channel < first_message);
}

#[test]
fn emoji_are_written_in_order_of_their_names() {
    let (recs, _) = run(&Filter::public_only(), &Options::default());
    let names: Vec<String> = recs
        .into_iter()
        .filter_map(|r| match r {
            Record::Emoji(e) => Some(e.name),
            _ => None,
        })
        .collect();
    assert_eq!(names, vec!["parrot", "shipit", "squirrel"]);
}

#[test]
fn an_id_that_is_not_in_the_inventory_is_refused() {
    let export = basic_export();
    let inventory = probe(&export, false).unwrap();
    let err = parse(
        &export,
        &inventory,
        &texts(&["C0NOWHERE"]),
        &Options::default(),
    )
    .unwrap_err();
    assert_eq!(
        err.to_string(),
        "selected conversation C0NOWHERE is not in the inventory"
    );
}

#[test]
fn parse_gives_what_probe_showed() {
    let export = basic_export();
    let inventory = probe(&export, false).unwrap();
    let (_, counts) = run(&Filter::everything(), &Options::default());
    assert_eq!(counts.messages, inventory.total_messages());
    assert_eq!(counts.reactions, inventory.total_reactions());
    assert_eq!(counts.files, inventory.total_files());
    assert_eq!(counts.thread_replies, inventory.total_thread_replies());
}

#[test]
fn a_file_without_an_id_is_neither_shown_nor_imported() {
    let mut export = basic_export();
    let before = probe(&export, false).unwrap().total_files();
    let nameless = SlackFile {
        id: None,
        ..file("", "hosted")
    };
    export.days.push(day(
        "general",
        vec![SlackMessage {
            files: vec![nameless, file("F0NEW", "hosted")],
            ..message("1709900000.000100", "U0ALICE", "two files, one id")
        }],
    ));
    let inventory = probe(&export, false).unwrap();
    assert_eq!(inventory.total_files(), before + 1);
    let selected = resolve(&inventory, &Filter::everything()).unwrap().selected;
    let import = parse(&export, &inventory, &selected, &Options::default()).unwrap();
    assert_eq!(import.counts.files, inventory.total_files());
}

#[test]
fn messages_of_one_second_are_ordered_by_their_ts() {
    let mut export = basic_export();
    export.days = vec![day(
        "general",
        vec![
            message("1709545200.000300", "U0ALICE", "third"),
            message("1709545200.000100", "U0ALICE", "first"),
            message("1709545200.000200", "U0ALICE", "second"),
        ],
    )];
    let inventory = probe(&export, false).unwrap();
    let selected = resolve(&inventory, &Filter::public_only()).unwrap().selected;
    let import = parse(&export, &inventory, &selected, &Options::default()).unwrap();
    let order: Vec<String> = import
        .records
        .iter()
        .filter_map(|r| match r {
            Record::Message(m) => Some(m.text.clone()),
            _ => None,
        })
        .collect();
    assert_eq!(order, vec!["first", "second", "third"]);
}

#[test]
fn exports_that_say_the_same_import_the_same() {
    let read_by_name = basic_export();
    let mut read_in_between = basic_export();
    // Day files of different directories may come in any order.
    read_in_between
        .days
        .sort_by_key(|d| (d.dir != "eng-private", d.dir.clone()));
    // A directory without messages adds none.
    read_in_between.dirs.push("tumbleweed".to_string());
    let import = |export: &Export| {
        let inventory = probe(export, false).unwrap();
        let selected = resolve(&inventory, &Filter::everything()).unwrap().selected;
        parse(export, &inventory, &selected, &Options::default()).unwrap()
    };
    assert_eq!(import(&read_by_name), import(&read_in_between));
}

// ── probe ────────────────────────────────────────────────────────────────────

#[test]
fn fixture_export_scope_includes_dms() {
    let e = basic_export();
    let inv = probe(&e, false).unwrap();
    assert_eq!(inv.scope, ExportScope::WithDms);
}

#[test]
fn fixture_finds_all_three_conversations() {
    let e = basic_export();
    let inv = probe(&e, false).unwrap();
    assert_eq!(
        inv.conversations.len(),
        4,
        "general, tumbleweed, eng-private, the DM"
    );
    assert_eq!(inv.of_kind(ChannelKind::Public).len(), 2);
    assert_eq!(inv.of_kind(ChannelKind::Private).len(), 1);
    assert_eq!(inv.of_kind(ChannelKind::Dm).len(), 1);
}

fn general(inv: &Inventory) -> &ConversationSummary {
    inv.conversations
        .iter()
        .find(|c| c.name.as_deref() == Some("general"))
        .unwrap()
}

#[test]
fn join_messages_are_dropped_by_default_and_counted() {
    let e = basic_export();
    let inv = probe(&e, false).unwrap();
    assert!(
        general(&inv).dropped_joins > 0,
        "fixture should exercise join filtering"
    );

    let kept = probe(&e, true).unwrap();
    assert_eq!(
        general(&kept).message_count,
        general(&inv).message_count + general(&inv).dropped_joins,
        "--keep-joins should add exactly the dropped joins back"
    );
}

#[test]
fn date_range_is_derived_from_message_timestamps() {
    let e = basic_export();
    let inv = probe(&e, false).unwrap();
    let (first, last) = (
        general(&inv).first_ts.unwrap(),
        general(&inv).last_ts.unwrap(),
    );
    assert!(first <= last);
    assert_eq!(first, 1_709_545_300);
    assert_eq!(last, 1_709_632_200);
}

#[test]
fn reactions_are_counted_per_reactor_not_per_emoji() {
    let e = basic_export();
    let inv = probe(&e, false).unwrap();
    // The fixture has one emoji reacted to by two people.
    assert!(inv.total_reactions() >= 2);
    assert_eq!(inv.total_reactions(), 4);
}

#[test]
fn tallying_day_by_day_is_probing() {
    let e = basic_export();
    let whole = probe(&e, false).unwrap();
    let mut summary = general(&survey(&e)).clone();
    assert_eq!(summary.message_count, 0);
    for d in e.days.iter().filter(|d| d.dir == "general") {
        tally_day(&mut summary, &d.messages, false);
    }
    assert_eq!(summary.message_count, general(&whole).message_count);
    assert_eq!(summary.thread_reply_count, 3);
    assert_eq!(summary.skipped_unparseable, 1);
    assert_eq!(summary.first_ts, general(&whole).first_ts);
    assert_eq!(summary.last_ts, general(&whole).last_ts);
}

#[test]
fn what_was_read_can_be_counted() {
    let e = basic_export();
    assert!(can_probe(&e));
    // 13 messages, 4 reactors and 2 files in general; 3 messages elsewhere.
    assert_eq!(weigh(&e.days), Some(13 + 4 + 2 + 3));
    assert_eq!(weigh_day(&None), Some(1));
    let inv = probe(&e, false).unwrap();
    assert!(can_total(&inv));
    assert!(can_parse(&e, &inv, &texts(&["C0GENERAL"]), &Options::default()));
    let mut full = general(&inv).clone();
    assert!(has_room(&full, &e.days[0].messages, false));
    full.file_count = usize::MAX - 3;
    assert!(!has_room(&full, &e.days[0].messages, false));
    let mut crowded = inventory();
    crowded.conversations[0].message_count = usize::MAX;
    assert!(!can_total(&crowded));
}

#[test]
fn a_day_file_that_does_not_parse_counts_once() {
    let e = Export {
        days: vec![DayFile {
            dir: "general".to_string(),
            messages: None,
        }],
        ..basic_export()
    };
    let inv = probe(&e, false).unwrap();
    assert_eq!(general(&inv).skipped_unparseable, 1);
    assert_eq!(general(&inv).message_count, 0);
}

#[test]
fn a_directory_no_manifest_lists_is_reported() {
    let mut e = basic_export();
    e.dirs.push("mystery".to_string());
    let inv = probe(&e, false).unwrap();
    assert!(
        inv.warnings.iter().any(|w| w.contains("mystery")),
        "{:?}",
        inv.warnings
    );
}

#[test]
fn scope_follows_the_manifests() {
    let public = Export {
        groups: None,
        dms: None,
        ..basic_export()
    };
    assert_eq!(probe(&public, false).unwrap().scope, ExportScope::PublicOnly);
    let private = Export {
        dms: None,
        ..basic_export()
    };
    assert_eq!(
        probe(&private, false).unwrap().scope,
        ExportScope::WithPrivate
    );
    assert_eq!(ExportScope::PublicOnly.describe(), "public channels only");
}

#[test]
fn a_broken_emoji_table_stops_the_probe() {
    let e = Export {
        emoji: Some(b"not json".to_vec()),
        ..basic_export()
    };
    match probe(&e, false) {
        Err(Error::Json { what, .. }) => assert_eq!(what, "emoji.json"),
        other => panic!("{other:?}"),
    }
}

// ── selection ────────────────────────────────────────────────────────────────

fn inventory() -> Inventory {
    probe(&basic_export(), false).unwrap()
}

fn ids(r: &Resolved) -> Vec<&str> {
    r.selected.iter().map(String::as_str).collect()
}

#[test]
fn empty_filter_is_refused_rather_than_defaulting_to_everything() {
    let inv = inventory();
    let err = resolve(&inv, &Filter::default()).unwrap_err().to_string();
    assert!(err.contains("no channels selected"), "{err}");
}

#[test]
fn all_public_selects_only_public_channels_with_messages() {
    let inv = inventory();
    let r = resolve(&inv, &Filter::public_only()).unwrap();
    // `tumbleweed` is public but archived and empty, so it is left out.
    assert_eq!(ids(&r), vec!["C0GENERAL"]);
}

#[test]
fn all_includes_private_and_dms() {
    let inv = inventory();
    let r = resolve(&inv, &Filter::everything()).unwrap();
    assert_eq!(ids(&r), vec!["C0GENERAL", "C0ENGPRIV", "D0ALICEBOB"]);
}

#[test]
fn channels_can_be_named_by_name_case_insensitively_or_with_a_hash() {
    let inv = inventory();
    for selector in ["general", "GENERAL", "#general", "C0GENERAL"] {
        let f = Filter {
            included: vec![selector.to_string()],
            ..Filter::default()
        };
        assert_eq!(
            ids(&resolve(&inv, &f).unwrap()),
            vec!["C0GENERAL"],
            "{selector}"
        );
    }
}

#[test]
fn a_typo_in_a_selector_is_an_error_not_a_silent_skip() {
    let inv = inventory();
    let f = Filter {
        included: vec!["genral".to_string()],
        ..Filter::default()
    };
    let err = resolve(&inv, &f).unwrap_err().to_string();
    assert!(err.contains("no channel in this export matches"), "{err}");
}

#[test]
fn exclude_applies_after_the_kind_flags() {
    let inv = inventory();
    let f = Filter {
        all: true,
        exclude: vec!["general".to_string()],
        ..Filter::default()
    };
    assert_eq!(
        ids(&resolve(&inv, &f).unwrap()),
        vec!["C0ENGPRIV", "D0ALICEBOB"]
    );
}

#[test]
fn a_typo_in_exclude_is_also_an_error() {
    let inv = inventory();
    let f = Filter {
        all: true,
        exclude: vec!["nope".to_string()],
        ..Filter::default()
    };
    assert!(resolve(&inv, &f).is_err());
}

#[test]
fn naming_an_archived_empty_channel_explicitly_overrides_the_defaults() {
    let inv = inventory();
    let f = Filter {
        included: vec!["tumbleweed".to_string()],
        ..Filter::default()
    };
    assert_eq!(ids(&resolve(&inv, &f).unwrap()), vec!["C0EMPTY"]);
}

#[test]
fn excluding_everything_selected_is_an_error() {
    let inv = inventory();
    let f = Filter {
        all_public: true,
        exclude: vec!["general".to_string()],
        ..Filter::default()
    };
    let err = resolve(&inv, &f).unwrap_err().to_string();
    assert!(err.contains("matched no conversations"), "{err}");
}

#[test]
fn skipped_is_the_complement_of_selected() {
    let inv = inventory();
    let r = resolve(&inv, &Filter::public_only()).unwrap();
    assert_eq!(r.selected.len() + r.skipped.len(), inv.conversations.len());
    assert!(r.skipped.contains(&"C0ENGPRIV".to_string()));
}

#[test]
fn selector_lists_tolerate_whitespace_and_trailing_commas() {
    assert_eq!(parse_list("a, b ,,c,"), vec!["a", "b", "c"]);
    assert_eq!(parse_list("").len(), 0);
}

#[test]
fn kinds_can_be_asked_for_one_by_one() {
    let inv = inventory();
    let private = Filter {
        all_private: true,
        ..Filter::default()
    };
    assert_eq!(ids(&resolve(&inv, &private).unwrap()), vec!["C0ENGPRIV"]);
    let dms = Filter {
        all_dms: true,
        ..Filter::default()
    };
    assert_eq!(ids(&resolve(&inv, &dms).unwrap()), vec!["D0ALICEBOB"]);
    let archived = Filter {
        all_public: true,
        include_archived: true,
        include_empty: true,
        ..Filter::default()
    };
    assert_eq!(
        ids(&resolve(&inv, &archived).unwrap()),
        vec!["C0GENERAL", "C0EMPTY"]
    );
}

#[test]
fn lists_are_read_from_flags_and_files() {
    assert_eq!(parse_lists(&texts(&["a,b", "c"])), vec!["a", "b", "c"]);
    assert_eq!(
        list_of_lines("# pilot\n general \n\n#skip\nC0X\r\n"),
        vec!["general", "C0X"]
    );
}

#[test]
fn the_picker_offers_what_has_messages() {
    let inv = inventory();
    assert_eq!(presets().len(), 3);
    let shown = offer(&inv, 0).unwrap();
    assert_eq!(shown.ids, vec!["C0GENERAL", "C0ENGPRIV", "D0ALICEBOB"]);
    assert_eq!(shown.ticked, vec![true, false, false]);
    assert_eq!(
        shown.items[0],
        "general                  public        11 msgs  2024-03-04 → 2024-03-05"
    );
    assert_eq!(offer(&inv, 1).unwrap().ticked, vec![true, true, true]);
    assert_eq!(offer(&inv, 2).unwrap().ticked, vec![false, false, false]);
    assert!(preset_filter(2).is_empty());

    let filter = picked_filter(&shown, &vec![2, 0]).unwrap();
    assert_eq!(filter.included, vec!["D0ALICEBOB", "C0GENERAL"]);
    assert_eq!(
        ids(&resolve(&inv, &filter).unwrap()),
        vec!["C0GENERAL", "D0ALICEBOB"]
    );
    let err = picked_filter(&shown, &vec![]).unwrap_err();
    assert_eq!(err.to_string(), "nothing selected");
}

#[test]
fn an_export_without_messages_offers_nothing() {
    let quiet = Export {
        days: vec![],
        ..basic_export()
    };
    let inv = probe(&quiet, false).unwrap();
    let err = offer(&inv, 0).unwrap_err();
    assert_eq!(
        err.to_string(),
        "this export contains no conversations with messages"
    );
    let tumbleweed = inv
        .conversations
        .iter()
        .find(|c| c.slack_id == "C0EMPTY")
        .unwrap();
    assert_eq!(
        describe(tumbleweed),
        "tumbleweed               public         0 msgs  no messages [archived]"
    );
}

// ── report ───────────────────────────────────────────────────────────────────

#[test]
fn the_inventory_is_printed_by_kind() {
    let printed = print_inventory(&inventory());
    let expected = "\
Export contains: public channels, private channels and direct messages
5 users, 4 conversations, 14 messages, 3 custom emoji

public (2):
  general                         11 msgs     3 thr     4 rxn    2 files  2024-03-04 → 2024-03-05
  tumbleweed                       0 msgs     0 thr     0 rxn    0 files  empty  [archived]

private (1):
  eng-private                      2 msgs     0 thr     0 rxn    0 files  2024-03-04 → 2024-03-04

dm (1):
  D0ALICEBOB                       1 msgs     0 thr     0 rxn    0 files  2024-03-04 → 2024-03-04

Notes:
  - public \"tumbleweed\" is listed in channels.json but has no messages in the export

This export includes conversations people had a reasonable expectation of privacy about.
Nothing beyond public channels is selected by default.

";
    assert_eq!(printed, expected);
}

#[test]
fn the_selection_is_summed_up() {
    let inv = inventory();
    let r = resolve(&inv, &Filter::everything()).unwrap();
    assert_eq!(
        report_selection(&inv, &r),
        "Selected 3 conversations (2 private), skipping 1 conversation."
    );
}

#[test]
fn the_counts_are_summed_up() {
    let (_, counts) = run(&Filter::public_only(), &Options::default());
    assert_eq!(
        print_counts(&counts, "-"),
        vec![
            "Wrote stdout: 11 messages (3 thread replies), 4 reactions, 2 file references, 5 users, 3 custom emoji.",
            "Dropped 1 join/leave messages (--keep-joins to keep them).",
            "WARNING: skipped 1 unparseable records — this is fidelity loss. Re-run with RUST_LOG=warn for detail.",
        ]
    );
    assert_eq!(
        print_counts(&Counts::default(), "import.jsonl"),
        vec![
            "Wrote import.jsonl: 0 messages (0 thread replies), 0 reactions, 0 file references, 0 users, 0 custom emoji.",
        ]
    );
}

#[test]
fn asking_for_nothing_prompts_or_refuses() {
    let nothing = Filter::default();
    assert_eq!(next_step(&nothing, false, true), Step::Prompt);
    assert_eq!(next_step(&nothing, true, true), Step::Refuse);
    assert_eq!(next_step(&nothing, false, false), Step::Refuse);
    assert_eq!(next_step(&Filter::public_only(), true, false), Step::Resolve);
}

#[test]
fn other_errors_are_classified_by_what_they_say() {
    for m in [
        "no channels selected: pass --all",
        "no channel in this export matches \"x\"",
        "the selection matched no conversations",
        "nothing selected",
        "this export contains no conversations",
        "reading export.zip as a zip archive",
        "reading general/2024-01-01.json from zip",
        "parsing channels.json from the export",
        "reading users.json",
        "import.jsonl:3: malformed IR record",
        "no one in this import matches --users \"x\"",
    ] {
        assert_eq!(classify(m, false), 1, "{m}");
    }
    assert_eq!(classify("ledger: database operation failed", false), 4);
    assert_eq!(classify("serialising an IR record", false), 4);
    assert_eq!(classify("creating import.jsonl", true), 1);
    assert_eq!(classify("something else", false), 4);
}

// ── invite ───────────────────────────────────────────────────────────────────

/// Build an IR from the fixture the same way the CLI would.
fn fixture_ir(channel_filter: &Filter) -> Vec<Record> {
    run(channel_filter, &Options::default()).0
}

fn people_for(channel_filter: &Filter) -> Vec<Person> {
    candidates(&fixture_ir(channel_filter))
}

fn recipients(plan: &Plan) -> Vec<&str> {
    plan.recipients
        .iter()
        .map(|r| r.person.slack_id.as_str())
        .collect()
}

fn none() -> Vec<String> {
    Vec::new()
}

#[test]
fn candidates_come_from_the_user_table() {
    let people = people_for(&Filter::public_only());
    let found: BTreeSet<&str> = people.iter().map(|p| p.slack_id.as_str()).collect();
    assert!(found.contains("U0ALICE"));
    assert!(
        found.contains("U0BUILDBOT"),
        "bots are candidates, then excluded"
    );
    assert!(found.contains("U0GONE"));
}

#[test]
fn message_counts_reflect_only_the_imported_channels() {
    let public = people_for(&Filter::public_only());
    let alice_public = public
        .iter()
        .find(|p| p.slack_id == "U0ALICE")
        .unwrap()
        .message_count;

    let all = people_for(&Filter::everything());
    let alice_all = all
        .iter()
        .find(|p| p.slack_id == "U0ALICE")
        .unwrap()
        .message_count;

    assert!(
        alice_all > alice_public,
        "importing the DM adds Alice messages: {alice_public} → {alice_all}"
    );
}

#[test]
fn candidates_are_ordered_most_active_first() {
    let people = people_for(&Filter::everything());
    let counts: Vec<usize> = people.iter().map(|p| p.message_count).collect();
    assert!(counts.windows(2).all(|w| w[0] >= w[1]), "{counts:?}");
}

#[test]
fn bots_are_never_invited_even_when_named_explicitly() {
    let people = people_for(&Filter::public_only());
    let p = plan(
        &people,
        &PersonFilter {
            included: vec!["buildbot".to_string()],
            ..PersonFilter::default()
        },
        &none(),
    )
    .unwrap();
    assert!(p.is_empty(), "a named bot is still not invitable");
    assert!(p
        .excluded
        .iter()
        .any(|(person, r)| person.slack_id == "U0BUILDBOT" && *r == Exclusion::Bot));
}

#[test]
fn deactivated_accounts_are_never_invited() {
    let people = people_for(&Filter::public_only());
    let p = plan(&people, &PersonFilter::default(), &none()).unwrap();
    assert!(!recipients(&p).contains(&"U0GONE"));
    assert!(p
        .excluded
        .iter()
        .any(|(person, r)| person.slack_id == "U0GONE" && *r == Exclusion::Deactivated));
}

#[test]
fn default_scope_is_members_of_imported_channels() {
    let people = people_for(&Filter::public_only());
    let p = plan(&people, &PersonFilter::default(), &none()).unwrap();
    // general's members are alice, pawel, bob, buildbot; buildbot is a bot.
    assert_eq!(recipients(&p), vec!["U024BE7LH", "U0ALICE", "U0BOB"]);
}

/// The point of the default: importing only #general must not DM someone
/// whose only membership is a channel that was left out.
#[test]
fn a_member_of_an_unimported_channel_is_not_invited() {
    // eng-private's members are pawel and bob. Import only the DM, whose
    // members are alice and bob — so pawel should not be a recipient.
    let people = people_for(&Filter {
        all_dms: true,
        ..Filter::default()
    });
    let p = plan(&people, &PersonFilter::default(), &none()).unwrap();
    assert_eq!(recipients(&p), vec!["U0ALICE", "U0BOB"]);
    assert!(p
        .excluded
        .iter()
        .any(|(person, r)| person.slack_id == "U024BE7LH"
            && *r == Exclusion::NotInImportedChannels));
}

#[test]
fn everyone_scope_ignores_channel_membership() {
    // U0GONE is in no channel, but is excluded as deactivated, not by scope.
    let people = people_for(&Filter {
        all_dms: true,
        ..Filter::default()
    });
    let p = plan(
        &people,
        &PersonFilter {
            scope: Scope::Everyone,
            ..PersonFilter::default()
        },
        &none(),
    )
    .unwrap();
    assert!(
        recipients(&p).contains(&"U024BE7LH"),
        "not a DM member, still invited"
    );
}

#[test]
fn posters_only_scope_drops_lurkers() {
    let people = people_for(&Filter::public_only());
    let p = plan(
        &people,
        &PersonFilter {
            scope: Scope::PostersOnly,
            ..PersonFilter::default()
        },
        &none(),
    )
    .unwrap();
    for r in &p.recipients {
        assert!(r.person.message_count > 0, "{:?}", r.person);
    }
}

#[test]
fn explicit_users_can_be_named_by_handle_id_or_display_name() {
    let people = people_for(&Filter::public_only());
    for selector in ["alice", "ALICE", "@alice", "U0ALICE"] {
        let p = plan(
            &people,
            &PersonFilter {
                included: vec![selector.to_string()],
                ..PersonFilter::default()
            },
            &none(),
        )
        .unwrap();
        assert_eq!(recipients(&p), vec!["U0ALICE"], "{selector}");
    }
}

#[test]
fn a_typo_in_users_is_an_error_not_a_silent_skip() {
    let people = people_for(&Filter::public_only());
    let err = plan(
        &people,
        &PersonFilter {
            included: vec!["alise".to_string()],
            ..PersonFilter::default()
        },
        &none(),
    )
    .unwrap_err()
    .to_string();
    assert!(err.contains("no one in this import matches"), "{err}");
}

#[test]
fn a_typo_in_exclude_users_is_also_an_error() {
    let people = people_for(&Filter::public_only());
    assert!(plan(
        &people,
        &PersonFilter {
            exclude: vec!["nobody".to_string()],
            ..PersonFilter::default()
        },
        &none(),
    )
    .is_err());
}

#[test]
fn exclude_users_removes_from_the_scope() {
    let people = people_for(&Filter::public_only());
    let p = plan(
        &people,
        &PersonFilter {
            exclude: vec!["bob".to_string()],
            ..PersonFilter::default()
        },
        &none(),
    )
    .unwrap();
    assert_eq!(recipients(&p), vec!["U024BE7LH", "U0ALICE"]);
    assert!(p
        .excluded
        .iter()
        .any(|(person, r)| person.slack_id == "U0BOB" && *r == Exclusion::ExcludedByOperator));
}

/// The resume guarantee: nobody is DMed twice.
#[test]
fn already_invited_people_are_skipped_on_a_resumed_run() {
    let people = people_for(&Filter::public_only());
    let done = vec!["U0ALICE".to_string()];

    let p = plan(&people, &PersonFilter::default(), &done).unwrap();
    assert!(!recipients(&p).contains(&"U0ALICE"));
    assert!(p
        .excluded
        .iter()
        .any(|(person, r)| person.slack_id == "U0ALICE" && *r == Exclusion::AlreadyInvited));
}

#[test]
fn every_candidate_is_either_a_recipient_or_an_explained_exclusion() {
    let people = people_for(&Filter::everything());
    let p = plan(&people, &PersonFilter::default(), &none()).unwrap();
    assert_eq!(
        p.recipients.len() + p.excluded.len(),
        people.len(),
        "nobody may be silently dropped"
    );
}

#[test]
fn exclusion_counts_are_grouped_for_the_summary() {
    let people = people_for(&Filter::public_only());
    let p = plan(&people, &PersonFilter::default(), &none()).unwrap();
    let counts = p.exclusion_counts();
    assert_eq!(counts.get("is a bot"), Some(&1));
    assert_eq!(counts.get("account is deactivated"), Some(&1));
}

#[test]
fn the_dm_says_what_it_is_and_that_the_archive_is_not_them() {
    let person = Person {
        slack_id: "U0ALICE".into(),
        name: "alice".into(),
        display_name: "Alice Anderson".into(),
        is_bot: false,
        is_deleted: false,
        channels: vec![],
        message_count: 3,
    };
    let dm = compose_dm(&person, "Acme", "https://acme.test/invite/x", "in 14 days");
    assert!(dm.contains("Alice Anderson"));
    assert!(dm.contains("https://acme.test/invite/x"));
    assert!(dm.contains("archive"), "must disclose what the history is");
    assert!(
        dm.contains("don't forward"),
        "invite codes are multi-use bearer tokens"
    );
}

// ── execute ──────────────────────────────────────────────────────────────

fn fixture_plan() -> Plan {
    let people = people_for(&Filter::public_only());
    plan(&people, &PersonFilter::default(), &none()).unwrap()
}

#[test]
fn a_dry_run_sends_nothing_but_walks_every_recipient() {
    let p = fixture_plan();
    let mut ledger = Ledger::in_memory().unwrap();
    let mut minter = DryRunMinter::new("acme.test");
    let mut messenger = DryRunMessenger::default();

    let outcome = execute(
        &p,
        "Acme",
        DEFAULT_TTL_SECS,
        &mut minter,
        &mut messenger,
        &mut ledger,
        100,
    )
    .unwrap();

    assert_eq!(outcome.sent.len(), p.len());
    assert!(outcome.is_complete());
    assert_eq!(
        messenger.sent.len(),
        p.len(),
        "the dry run exercises the same sequencing as the real path"
    );
}

#[test]
fn an_under_privileged_key_fails_before_any_dm_is_sent() {
    let p = fixture_plan();
    let mut ledger = Ledger::in_memory().unwrap();
    let mut minter = DryRunMinter::new("acme.test");
    minter.role = Role::Member;
    let mut messenger = DryRunMessenger::default();

    let err = execute(
        &p,
        "Acme",
        DEFAULT_TTL_SECS,
        &mut minter,
        &mut messenger,
        &mut ledger,
        100,
    )
    .unwrap_err()
    .to_string();

    assert!(err.contains("only owners and admins"), "{err}");
    assert!(
        messenger.sent.is_empty(),
        "not a single DM may go out with an unusable key"
    );
}

#[test]
fn one_recipients_failure_does_not_strand_the_rest() {
    let p = fixture_plan();
    let victim = p.recipients[0].person.slack_id.clone();
    let mut ledger = Ledger::in_memory().unwrap();
    let mut minter = DryRunMinter::new("acme.test");
    let mut messenger = FlakyMessenger {
        fail_for: vec![victim.clone()],
        sent: vec![],
    };

    let outcome = execute(
        &p,
        "Acme",
        DEFAULT_TTL_SECS,
        &mut minter,
        &mut messenger,
        &mut ledger,
        100,
    )
    .unwrap();

    assert_eq!(outcome.failed.len(), 1);
    assert_eq!(outcome.failed[0].0, victim);
    assert_eq!(outcome.sent.len(), p.len() - 1);
    assert!(!outcome.is_complete());
}

#[test]
fn a_failed_dm_still_records_the_code_so_it_is_not_lost() {
    let p = fixture_plan();
    let victim = p.recipients[0].person.slack_id.clone();
    let mut ledger = Ledger::in_memory().unwrap();
    let mut minter = DryRunMinter::new("acme.test");
    let mut messenger = FlakyMessenger {
        fail_for: vec![victim.clone()],
        sent: vec![],
    };

    execute(
        &p,
        "Acme",
        DEFAULT_TTL_SECS,
        &mut minter,
        &mut messenger,
        &mut ledger,
        100,
    )
    .unwrap();

    let record = ledger.invite(&victim).unwrap().unwrap();
    assert_eq!(record.state, State::Failed);
    assert!(
        record.invite_url.is_some(),
        "the minted code survives a failed send"
    );
}

/// The end-to-end resume guarantee, through the ledger rather than a set.
#[test]
fn a_second_run_does_not_dm_anyone_twice() {
    let people = people_for(&Filter::public_only());
    let mut ledger = Ledger::in_memory().unwrap();

    let first = plan(&people, &PersonFilter::default(), &none()).unwrap();
    let mut minter = DryRunMinter::new("acme.test");
    let mut messenger = DryRunMessenger::default();
    let outcome = execute(
        &first,
        "Acme",
        DEFAULT_TTL_SECS,
        &mut minter,
        &mut messenger,
        &mut ledger,
        100,
    )
    .unwrap();
    assert!(!outcome.sent.is_empty());

    // Re-plan from the ledger, as the CLI does on a resumed run.
    let done = ledger.invites_by_state(State::Sent).unwrap();
    let second = plan(&people, &PersonFilter::default(), &done).unwrap();

    assert!(
        second.is_empty(),
        "everyone already invited: {:?}",
        second.recipients
    );
    let mut messenger2 = DryRunMessenger::default();
    let outcome2 = execute(
        &second,
        "Acme",
        DEFAULT_TTL_SECS,
        &mut minter,
        &mut messenger2,
        &mut ledger,
        200,
    )
    .unwrap();
    assert!(messenger2.sent.is_empty());
    assert!(outcome2.sent.is_empty());
}

/// A retry after a failure must actually re-send, not skip.
#[test]
fn a_failed_recipient_is_retried_on_the_next_run() {
    let people = people_for(&Filter::public_only());
    let mut ledger = Ledger::in_memory().unwrap();
    let first = plan(&people, &PersonFilter::default(), &none()).unwrap();
    let victim = first.recipients[0].person.slack_id.clone();

    let mut minter = DryRunMinter::new("acme.test");
    let mut flaky = FlakyMessenger {
        fail_for: vec![victim.clone()],
        sent: vec![],
    };
    execute(
        &first,
        "Acme",
        DEFAULT_TTL_SECS,
        &mut minter,
        &mut flaky,
        &mut ledger,
        100,
    )
    .unwrap();

    let done = ledger.invites_by_state(State::Sent).unwrap();
    let second = plan(&people, &PersonFilter::default(), &done).unwrap();

    let retried: Vec<&str> = second
        .recipients
        .iter()
        .map(|r| r.person.slack_id.as_str())
        .collect();
    assert_eq!(
        retried,
        vec![victim.as_str()],
        "only the failure is retried"
    );
}

#[test]
fn excluded_people_are_recorded_so_they_are_not_reconsidered() {
    let p = fixture_plan();
    let mut ledger = Ledger::in_memory().unwrap();
    let mut minter = DryRunMinter::new("acme.test");
    let mut messenger = DryRunMessenger::default();
    execute(
        &p,
        "Acme",
        DEFAULT_TTL_SECS,
        &mut minter,
        &mut messenger,
        &mut ledger,
        100,
    )
    .unwrap();

    // The bot was excluded; it must be terminal in the ledger.
    assert!(ledger.invite_is_done("U0BUILDBOT").unwrap());
    assert_eq!(
        ledger.invite("U0BUILDBOT").unwrap().unwrap().state,
        State::Skipped
    );
}

#[test]
fn one_code_is_minted_per_recipient() {
    let p = fixture_plan();
    let mut ledger = Ledger::in_memory().unwrap();
    let mut minter = DryRunMinter::new("acme.test");
    let mut messenger = DryRunMessenger::default();
    execute(
        &p,
        "Acme",
        DEFAULT_TTL_SECS,
        &mut minter,
        &mut messenger,
        &mut ledger,
        100,
    )
    .unwrap();
    assert_eq!(minter.minted, p.len());

    // And each person's recorded URL is distinct.
    let urls: BTreeSet<String> = p
        .recipients
        .iter()
        .map(|r| {
            ledger
                .invite(&r.person.slack_id)
                .unwrap()
                .unwrap()
                .invite_url
                .unwrap()
        })
        .collect();
    assert_eq!(urls.len(), p.len());
}

#[test]
fn memberships_and_message_counts_are_listed() {
    let people = people_for(&Filter::everything());
    let pawel = people.iter().find(|p| p.slack_id == "U024BE7LH").unwrap();
    assert_eq!(pawel.channels, vec!["C0GENERAL", "C0ENGPRIV"]);
    assert_eq!(pawel.message_count, 5);
    assert_eq!(pawel.display_name, "Paweł Zieliński");
    let gone = people.iter().find(|p| p.slack_id == "U0GONE").unwrap();
    assert!(gone.channels.is_empty());
    assert_eq!(gone.message_count, 0);
}

#[test]
fn the_last_of_two_user_records_counts() {
    let mut records = fixture_ir(&Filter::public_only());
    let renamed = records
        .iter()
        .find_map(|r| match r {
            Record::User(u) if u.slack_id == "U0ALICE" => Some(u.clone()),
            _ => None,
        })
        .unwrap();
    records.push(Record::User(slack2buzz::ir::User {
        display_name: "Alice the Second".to_string(),
        ..renamed
    }));
    let people = candidates(&records);
    assert_eq!(people.len(), 5);
    let alice = people.iter().find(|p| p.slack_id == "U0ALICE").unwrap();
    assert_eq!(alice.display_name, "Alice the Second");
    assert_eq!(alice.message_count, 4);
}

#[test]
fn the_plan_is_printed_with_the_reasons() {
    assert_eq!(
        print_plan(&fixture_plan()),
        "\
Will invite 3 of 5 people:
  Paweł Zieliński          @pawel
  alice                    @alice
  bob                      @bob

Not inviting:
     1  account is deactivated
     1  is a bot
"
    );
}

#[test]
fn reasons_read_as_words() {
    for (reason, words) in [
        (Exclusion::Bot, "is a bot"),
        (Exclusion::Deactivated, "account is deactivated"),
        (Exclusion::NotInImportedChannels, "not in any imported channel"),
        (Exclusion::NeverPosted, "never posted"),
        (Exclusion::ExcludedByOperator, "excluded by operator"),
        (Exclusion::NotSelected, "not selected"),
        (Exclusion::AlreadyInvited, "already invited (ledger)"),
    ] {
        assert_eq!(reason.describe(), words);
    }
}

#[test]
fn each_way_of_not_being_asked_for_has_its_reason() {
    let people = people_for(&Filter {
        all_dms: true,
        ..Filter::default()
    });
    let reason = |filter: &PersonFilter, id: &str| {
        plan(&people, filter, &none())
            .unwrap()
            .excluded
            .into_iter()
            .find(|(p, _)| p.slack_id == id)
            .map(|(_, r)| r)
    };
    let posters = PersonFilter {
        scope: Scope::PostersOnly,
        ..PersonFilter::default()
    };
    assert_eq!(reason(&posters, "U0BOB"), Some(Exclusion::NeverPosted));
    let named = PersonFilter {
        included: vec!["alice".to_string()],
        ..PersonFilter::default()
    };
    assert_eq!(reason(&named, "U0BOB"), Some(Exclusion::NotSelected));
    assert_eq!(reason(&named, "U0ALICE"), None);
}

#[test]
fn the_invite_picker_leaves_out_who_cannot_be_invited() {
    let people = people_for(&Filter::public_only());
    assert_eq!(invite::presets().len(), 4);
    let shown = invite::offer(&people, 0).unwrap();
    assert_eq!(shown.ids, vec!["U024BE7LH", "U0ALICE", "U0BOB"]);
    assert_eq!(shown.ticked, vec![true, true, true]);
    assert_eq!(
        shown.items[0],
        "Paweł Zieliński          @pawel                  4 msgs  1 channels"
    );
    assert_eq!(invite::offer(&people, 3).unwrap().ticked, vec![false; 3]);
    assert_eq!(invite::offer(&people, 1).unwrap().ticked, vec![true; 3]);
    assert_eq!(invite::offer(&people, 2).unwrap().ticked, vec![true; 3]);

    let filter = invite::picked_filter(&shown, &vec![1]).unwrap();
    let p = plan(&people, &filter, &none()).unwrap();
    assert_eq!(recipients(&p), vec!["U0ALICE"]);
    let err = invite::picked_filter(&shown, &vec![]).unwrap_err();
    assert_eq!(err.to_string(), "nobody selected");

    let bots: Vec<Person> = people.into_iter().filter(|p| p.is_bot).collect();
    let err = invite::offer(&bots, 0).unwrap_err();
    assert_eq!(
        err.to_string(),
        "no invitable people in this import (all bots or deactivated)"
    );
}

#[test]
fn blank_lines_are_counted_but_hold_no_record() {
    assert_eq!(
        numbered_lines("{\"a\":1}\n\n  \n{\"b\":2}\n"),
        vec![
            (1, "{\"a\":1}".to_string()),
            (4, "{\"b\":2}".to_string())
        ]
    );
}

#[test]
fn a_mint_that_fails_sends_nothing_to_that_person() {
    struct BrokenMinter;
    impl Minter for BrokenMinter {
        fn role(&mut self) -> Result<Role, Error> {
            Ok(Role::Admin)
        }
        fn mint(&mut self, _ttl_secs: u64) -> Result<Invite, Error> {
            Err(Error::Relay("503".to_string()))
        }
    }
    let p = fixture_plan();
    let mut ledger = Ledger::in_memory().unwrap();
    let mut messenger = DryRunMessenger::default();
    let outcome = execute(
        &p,
        "Acme",
        DEFAULT_TTL_SECS,
        &mut BrokenMinter,
        &mut messenger,
        &mut ledger,
        100,
    )
    .unwrap();
    assert!(messenger.sent.is_empty());
    assert_eq!(outcome.failed.len(), p.len());
    assert_eq!(outcome.failed[0].1, "minting invite: relay: 503");
    let record = ledger.invite(&outcome.failed[0].0).unwrap().unwrap();
    assert_eq!(record.state, State::Failed);
    assert_eq!(record.error.as_deref(), Some("minting invite: relay: 503"));
    assert_eq!(record.invite_url, None);
}

#[test]
fn a_role_that_cannot_be_read_stops_everything() {
    struct Unreachable;
    impl Minter for Unreachable {
        fn role(&mut self) -> Result<Role, Error> {
            Err(Error::Relay("timeout".to_string()))
        }
        fn mint(&mut self, _ttl_secs: u64) -> Result<Invite, Error> {
            panic!("no code may be asked for")
        }
    }
    let p = fixture_plan();
    let mut ledger = Ledger::in_memory().unwrap();
    let mut messenger = DryRunMessenger::default();
    let err = execute(
        &p,
        "Acme",
        DEFAULT_TTL_SECS,
        &mut Unreachable,
        &mut messenger,
        &mut ledger,
        100,
    )
    .unwrap_err();
    assert_eq!(err.to_string(), "relay: timeout");
    assert!(messenger.sent.is_empty());
    assert_eq!(ledger.invite("U0BUILDBOT").unwrap(), None);
}

#[test]
fn the_dm_goes_out_word_for_word() {
    let p = fixture_plan();
    let mut ledger = Ledger::in_memory().unwrap();
    let mut minter = DryRunMinter::new("acme.test").at(1_709_545_200);
    let mut messenger = DryRunMessenger::default();
    execute(
        &p,
        "Acme",
        DEFAULT_TTL_SECS,
        &mut minter,
        &mut messenger,
        &mut ledger,
        100,
    )
    .unwrap();
    assert_eq!(messenger.sent[1].0, "U0ALICE");
    assert_eq!(
        messenger.sent[1].1,
        "Hi alice — we're moving our Slack history to Acme, a self-hosted Buzz community.\n\nYour invite: https://acme.test/invite/DRY-RUN-NOT-A-REAL-CODE-2\nThis link expires 2024-03-18 09:40.\n\nNote: the imported history is an *archive*. Old messages appear under placeholder \"[archive]\" accounts, not real identities — including yours. Joining gives you your own account going forward; it does not give you ownership of the archived messages.\n\nAnyone with this link can join, so please don't forward it."
    );
}

/// Skipping someone by name is written down like any other exclusion.
#[test]
fn excluding_someone_later_replaces_their_record() {
    let people = people_for(&Filter::public_only());
    let mut ledger = Ledger::in_memory().unwrap();
    let mut minter = DryRunMinter::new("acme.test");
    let mut messenger = DryRunMessenger::default();
    let first = plan(&people, &PersonFilter::default(), &none()).unwrap();
    execute(
        &first,
        "Acme",
        DEFAULT_TTL_SECS,
        &mut minter,
        &mut messenger,
        &mut ledger,
        100,
    )
    .unwrap();
    let done = ledger.invites_by_state(State::Sent).unwrap();
    let without_alice = PersonFilter {
        exclude: vec!["alice".to_string()],
        ..PersonFilter::default()
    };
    let second = plan(&people, &without_alice, &done).unwrap();
    assert!(second.is_empty());
    execute(
        &second,
        "Acme",
        DEFAULT_TTL_SECS,
        &mut minter,
        &mut messenger,
        &mut ledger,
        200,
    )
    .unwrap();
    let alice = ledger.invite("U0ALICE").unwrap().unwrap();
    assert_eq!(alice.state, State::Skipped);
    assert!(alice.invite_url.is_some(), "the link is still on record");
    assert_eq!(ledger.invite("U0BOB").unwrap().unwrap().state, State::Sent);
}

#[test]
fn an_interrupted_run_is_resumed_by_the_same_command() {
    let people = people_for(&Filter::public_only());
    let mut ledger = Ledger::in_memory().unwrap();
    let mut minter = DryRunMinter::new("acme.test");
    let mut messenger = DryRunMessenger::default();
    let whole = plan(&people, &PersonFilter::default(), &none()).unwrap();
    let ids: Vec<String> = whole
        .recipients
        .iter()
        .map(|r| r.person.slack_id.clone())
        .collect();
    assert!(ids.len() > 1);

    let mut begun = plan(&people, &PersonFilter::default(), &none()).unwrap();
    begun.recipients.truncate(1);
    begun.excluded.clear();
    execute(
        &begun,
        "Acme",
        DEFAULT_TTL_SECS,
        &mut minter,
        &mut messenger,
        &mut ledger,
        100,
    )
    .unwrap();

    let done = ledger.invites_by_state(State::Sent).unwrap();
    assert_eq!(done, ids[..1].to_vec());
    let rest = plan(&people, &PersonFilter::default(), &done).unwrap();
    let left: Vec<String> = rest
        .recipients
        .iter()
        .map(|r| r.person.slack_id.clone())
        .collect();
    assert_eq!(left, ids[1..].to_vec());
}

/// A ledger whose database refuses some writes.
fn ledger_with(trigger: &str) -> Ledger {
    let conn = rusqlite::Connection::open_in_memory().unwrap();
    conn.execute_batch(
        "CREATE TABLE invites (
            slack_user_id TEXT PRIMARY KEY,
            invite_code   TEXT,
            invite_url    TEXT,
            expires_at    INTEGER,
            dm_channel    TEXT,
            dm_ts         TEXT,
            state         TEXT NOT NULL,
            error         TEXT,
            updated_at    INTEGER NOT NULL
        );",
    )
    .unwrap();
    conn.execute_batch(trigger).unwrap();
    Ledger::init(conn).unwrap()
}

#[test]
fn a_code_is_on_record_before_its_dm_goes_out() {
    let people = people_for(&Filter::public_only());
    let mut ledger = ledger_with(
        "CREATE TRIGGER refuse BEFORE UPDATE ON invites WHEN NEW.state = 'sent'
         BEGIN SELECT RAISE(ABORT, 'the disk is full'); END;",
    );
    let mut minter = DryRunMinter::new("acme.test");
    let mut messenger = DryRunMessenger::default();
    let plan = plan(&people, &PersonFilter::default(), &none()).unwrap();
    let first = plan.recipients[0].person.slack_id.clone();
    let err = execute(
        &plan,
        "Acme",
        DEFAULT_TTL_SECS,
        &mut minter,
        &mut messenger,
        &mut ledger,
        100,
    )
    .unwrap_err();
    assert_eq!(
        err.to_string(),
        format!("ledger: recording invite for {first}")
    );
    assert_eq!(messenger.sent.len(), 1);
    let row = ledger.invite(&first).unwrap().unwrap();
    assert_eq!(row.state, State::Minted);
    assert!(messenger.sent[0].1.contains(&row.invite_url.unwrap()));
    assert!(ledger.invites_by_state(State::Sent).unwrap().is_empty());
}

#[test]
fn no_dm_goes_out_when_its_code_cannot_be_recorded() {
    let people = people_for(&Filter::public_only());
    let mut ledger = ledger_with(
        "CREATE TRIGGER refuse BEFORE INSERT ON invites WHEN NEW.state = 'minted'
         BEGIN SELECT RAISE(ABORT, 'the disk is full'); END;",
    );
    let mut minter = DryRunMinter::new("acme.test");
    let mut messenger = DryRunMessenger::default();
    let plan = plan(&people, &PersonFilter::default(), &none()).unwrap();
    let first = plan.recipients[0].person.slack_id.clone();
    assert!(execute(
        &plan,
        "Acme",
        DEFAULT_TTL_SECS,
        &mut minter,
        &mut messenger,
        &mut ledger,
        100,
    )
    .is_err());
    assert_eq!(minter.minted, 1);
    assert!(messenger.sent.is_empty());
    assert!(ledger.invite(&first).unwrap().is_none());
}

#[test]
fn a_ledger_that_fails_among_the_excluded_keeps_every_turn() {
    let people = people_for(&Filter::public_only());
    let mut ledger = ledger_with(
        "CREATE TRIGGER refuse BEFORE INSERT ON invites WHEN NEW.state = 'skipped'
         BEGIN SELECT RAISE(ABORT, 'the disk is full'); END;",
    );
    let mut minter = DryRunMinter::new("acme.test");
    let mut messenger = DryRunMessenger::default();
    let first = plan(&people, &PersonFilter::default(), &none()).unwrap();
    assert!(!first.excluded.is_empty());
    assert!(execute(
        &first,
        "Acme",
        DEFAULT_TTL_SECS,
        &mut minter,
        &mut messenger,
        &mut ledger,
        100,
    )
    .is_err());
    let done = ledger.invites_by_state(State::Sent).unwrap();
    assert_eq!(done.len(), first.recipients.len());
    let next = plan(&people, &PersonFilter::default(), &done).unwrap();
    assert!(next.recipients.is_empty());
}
