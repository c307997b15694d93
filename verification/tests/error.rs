//! What an error says and how the process ends with it.

use slack2buzz::error::{exit, Error};

#[test]
fn operator_fixable_errors_are_input_errors() {
    assert_eq!(Error::NoChannelsSelected.exit_code(), exit::INPUT);
    assert_eq!(
        Error::UnknownChannel {
            selector: "genral".into()
        }
        .exit_code(),
        exit::INPUT
    );
    assert_eq!(
        Error::UnknownPerson {
            flag: "--users".into(),
            selector: "alise".into()
        }
        .exit_code(),
        exit::INPUT
    );
}

#[test]
fn remote_failures_are_network_errors() {
    assert_eq!(
        Error::Slack("ratelimited".into()).exit_code(),
        exit::NETWORK
    );
    assert_eq!(Error::Relay("503".into()).exit_code(), exit::NETWORK);
}

#[test]
fn an_underprivileged_key_is_an_auth_error() {
    assert_eq!(
        Error::InsufficientRole {
            role: "member".into(),
            community: "Acme".into()
        }
        .exit_code(),
        exit::AUTH
    );
}

/// The messages are operator-facing, so they must say what to do next.
#[test]
fn selection_errors_name_the_command_that_helps() {
    let e = Error::UnknownChannel {
        selector: "genral".into(),
    };
    assert!(e.to_string().contains("slack2buzz probe"));

    let e = Error::UnknownPerson {
        flag: "--users".into(),
        selector: "alise".into(),
    };
    assert!(e.to_string().contains("--list"));
}

/// The cause must be preserved so a full report shows it rather than
/// swallowing it.
#[test]
fn io_errors_keep_their_cause() {
    let inner = std::io::Error::new(std::io::ErrorKind::NotFound, "no such file");
    let e = Error::io("reading export.zip", inner);
    assert_eq!(e.to_string(), "reading export.zip");
    assert!(e.has_source());
    match e {
        Error::Io { source, .. } => assert_eq!(source.kind(), std::io::ErrorKind::NotFound),
        other => panic!("{other:?}"),
    }
}

#[test]
fn exit_codes_are_those_of_the_buzz_cli() {
    assert_eq!(exit::OK, 0);
    assert_eq!(exit::INPUT, 1);
    assert_eq!(exit::NETWORK, 2);
    assert_eq!(exit::AUTH, 3);
    assert_eq!(exit::OTHER, 4);
    assert_eq!(exit::WRITE_CONFLICT, 5);
}

#[test]
fn every_message_reads_as_written() {
    let bad = || serde_json::from_str::<u8>("x").unwrap_err();
    let cases = vec![
        (
            Error::Zip {
                path: "a.zip".into(),
                source: zip::result::ZipError::FileNotFound,
            },
            "reading a.zip as a zip archive",
            1,
            true,
        ),
        (
            Error::Json {
                what: "users.json".into(),
                source: bad(),
            },
            "parsing users.json from the export",
            1,
            true,
        ),
        (
            Error::MalformedIr {
                path: "import.jsonl".into(),
                line: 12,
                source: bad(),
            },
            "import.jsonl:12: malformed IR record",
            1,
            true,
        ),
        (Error::Serialise(bad()), "serialising an IR record", 4, true),
        (
            Error::Ledger {
                context: "opening".into(),
                source: rusqlite::Error::InvalidQuery,
            },
            "ledger: opening",
            4,
            true,
        ),
        (
            Error::database(rusqlite::Error::InvalidQuery),
            "ledger: database operation failed",
            4,
            true,
        ),
        (
            Error::NoChannelsSelected,
            "no channels selected: pass --all, --all-public, --channels <names>, or run without --no-input to choose interactively",
            1,
            false,
        ),
        (
            Error::UnknownChannel { selector: "x".into() },
            "no channel in this export matches \"x\" — run `slack2buzz probe` to list what is available",
            1,
            false,
        ),
        (
            Error::UnknownExcludedChannel { selector: "x".into() },
            "no channel in this export matches --exclude \"x\"",
            1,
            false,
        ),
        (
            Error::NoConversationsMatched,
            "the selection matched no conversations with messages to import",
            1,
            false,
        ),
        (
            Error::NoConversations,
            "this export contains no conversations with messages",
            1,
            false,
        ),
        (Error::NothingSelected, "nothing selected", 1, false),
        (
            Error::UnknownSelectedConversation { id: "C1".into() },
            "selected conversation C1 is not in the inventory",
            4,
            false,
        ),
        (
            Error::UnknownPerson { flag: "--users".into(), selector: "al".into() },
            "no one in this import matches --users \"al\" — run `slack2buzz invite --list` to see the candidates",
            1,
            false,
        ),
        (
            Error::NoInvitablePeople,
            "no invitable people in this import (all bots or deactivated)",
            1,
            false,
        ),
        (Error::NobodySelected, "nobody selected", 1, false),
        (
            Error::NoUserRecords { path: "i.jsonl".into() },
            "i.jsonl contains no user records",
            1,
            false,
        ),
        (
            Error::InsufficientRole { role: "member".into(), community: "Acme".into() },
            "this key holds role member in Acme; only owners and admins can mint invites",
            3,
            false,
        ),
        (Error::Slack("ratelimited".into()), "slack: ratelimited", 2, false),
        (Error::Relay("503".into()), "relay: 503", 2, false),
        (Error::NotImplemented("not yet".into()), "not yet", 4, false),
        (
            Error::from(dialoguer::Error::IO(std::io::Error::new(
                std::io::ErrorKind::Other,
                "no terminal",
            ))),
            "prompt failed",
            4,
            true,
        ),
    ];
    for (e, message, code, caused) in cases {
        assert_eq!(e.to_string(), message);
        assert_eq!(e.exit_code(), code, "{message}");
        assert_eq!(e.has_source(), caused, "{message}");
    }
}
