//! Library error type.
//!
//! The library surface returns [`Error`]; only the command line wraps it in
//! anything else. Exit codes are derived from the error *variant* via
//! [`Error::exit_code`], rather than by matching substrings of a formatted
//! message, which silently reclassifies an error the moment someone rewords it.

use dialoguer::Error as PromptError;
use rusqlite::Error as SqliteError;
use serde_json::Error as JsonError;
use vstd::prelude::*;
use zip::result::ZipError;

use crate::text;

pub mod exit;
pub mod laws;

verus! {

/// What `std` reports when reading or writing fails. Opaque: carried along.
#[verifier::external_type_specification]
#[verifier::external_body]
pub struct ExIoError(std::io::Error);

/// What `zip` reports when an archive cannot be read. Opaque: carried along.
#[verifier::external_type_specification]
#[verifier::external_body]
pub struct ExZipError(ZipError);

/// What `serde_json` reports when JSON does not parse. Opaque: carried along.
#[verifier::external_type_specification]
#[verifier::external_body]
pub struct ExJsonError(JsonError);

/// What `rusqlite` reports when a statement fails. Opaque: carried along.
#[verifier::external_type_specification]
#[verifier::external_body]
pub struct ExSqliteError(SqliteError);

/// What `dialoguer` reports when a prompt fails. Opaque: carried along.
#[verifier::external_type_specification]
#[verifier::external_body]
pub struct ExPromptError(PromptError);

#[derive(Debug)]
#[allow(inconsistent_fields)]
pub enum Error {
    // ── reading the export ───────────────────────────────────────────────────
    Io { context: String, source: std::io::Error },
    Zip { path: String, source: ZipError },
    Json { what: String, source: JsonError },
    MalformedIr { path: String, line: usize, source: JsonError },
    Serialise(JsonError),
    // ── ledger ───────────────────────────────────────────────────────────────
    Ledger { context: String, source: SqliteError },
    // ── channel selection ────────────────────────────────────────────────────
    NoChannelsSelected,
    UnknownChannel { selector: String },
    UnknownExcludedChannel { selector: String },
    NoConversationsMatched,
    NoConversations,
    NothingSelected,
    UnknownSelectedConversation { id: String },
    // ── invite ───────────────────────────────────────────────────────────────
    UnknownPerson { flag: String, selector: String },
    NoInvitablePeople,
    NobodySelected,
    NoUserRecords { path: String },
    /// The authenticated key cannot mint invites. Distinct from a generic
    /// failure because it maps to the auth exit code, and because it is worth
    /// catching before the first DM rather than after the fortieth.
    InsufficientRole { role: String, community: String },
    // ── interactive ──────────────────────────────────────────────────────────
    Prompt(PromptError),
    // ── remote services ──────────────────────────────────────────────────────
    Slack(String),
    Relay(String),
    /// Something the operator asked for that this build cannot do yet.
    NotImplemented(String),
}

/// The model of an [`Error`]: its variant and its texts, without the outside
/// error underneath.
#[verifier::ext_equal]
#[allow(inconsistent_fields)]
pub enum Failure {
    Io { context: Seq<char> },
    Zip { path: Seq<char> },
    Json { what: Seq<char> },
    MalformedIr { path: Seq<char>, line: nat },
    Serialise,
    Ledger { context: Seq<char> },
    NoChannelsSelected,
    UnknownChannel { selector: Seq<char> },
    UnknownExcludedChannel { selector: Seq<char> },
    NoConversationsMatched,
    NoConversations,
    NothingSelected,
    UnknownSelectedConversation { id: Seq<char> },
    UnknownPerson { flag: Seq<char>, selector: Seq<char> },
    NoInvitablePeople,
    NobodySelected,
    NoUserRecords { path: Seq<char> },
    InsufficientRole { role: Seq<char>, community: Seq<char> },
    Prompt,
    Slack(Seq<char>),
    Relay(Seq<char>),
    NotImplemented(Seq<char>),
}

impl DeepView for Error {
    type V = Failure;

    open spec fn deep_view(&self) -> Failure {
        match self {
            Error::Io { context, .. } => Failure::Io { context: context@ },
            Error::Zip { path, .. } => Failure::Zip { path: path@ },
            Error::Json { what, .. } => Failure::Json { what: what@ },
            Error::MalformedIr { path, line, .. } => Failure::MalformedIr { path: path@, line: *line as nat },
            Error::Serialise(_) => Failure::Serialise,
            Error::Ledger { context, .. } => Failure::Ledger { context: context@ },
            Error::NoChannelsSelected => Failure::NoChannelsSelected,
            Error::UnknownChannel { selector } => Failure::UnknownChannel { selector: selector@ },
            Error::UnknownExcludedChannel { selector } => Failure::UnknownExcludedChannel { selector: selector@ },
            Error::NoConversationsMatched => Failure::NoConversationsMatched,
            Error::NoConversations => Failure::NoConversations,
            Error::NothingSelected => Failure::NothingSelected,
            Error::UnknownSelectedConversation { id } => Failure::UnknownSelectedConversation { id: id@ },
            Error::UnknownPerson { flag, selector } => Failure::UnknownPerson { flag: flag@, selector: selector@ },
            Error::NoInvitablePeople => Failure::NoInvitablePeople,
            Error::NobodySelected => Failure::NobodySelected,
            Error::NoUserRecords { path } => Failure::NoUserRecords { path: path@ },
            Error::InsufficientRole { role, community } => Failure::InsufficientRole { role: role@, community: community@ },
            Error::Prompt(_) => Failure::Prompt,
            Error::Slack(x) => Failure::Slack(x@),
            Error::Relay(x) => Failure::Relay(x@),
            Error::NotImplemented(x) => Failure::NotImplemented(x@),
        }
    }
}

impl Failure {
    /// What the operator reads.
    pub open spec fn message(self) -> Seq<char> {
        match self {
            Failure::Io { context } => context,
            Failure::Zip { path } => "reading "@ + path + " as a zip archive"@,
            Failure::Json { what } => "parsing "@ + what + " from the export"@,
            Failure::MalformedIr { path, line } => path + ":"@ + text::dec(line) + ": malformed IR record"@,
            Failure::Serialise => "serialising an IR record"@,
            Failure::Ledger { context } => "ledger: "@ + context,
            Failure::NoChannelsSelected => "no channels selected: pass --all, --all-public, --channels <names>, or run without --no-input to choose interactively"@,
            Failure::UnknownChannel { selector } => "no channel in this export matches \""@ + selector + "\" — run `slack2buzz probe` to list what is available"@,
            Failure::UnknownExcludedChannel { selector } => "no channel in this export matches --exclude \""@ + selector + "\""@,
            Failure::NoConversationsMatched => "the selection matched no conversations with messages to import"@,
            Failure::NoConversations => "this export contains no conversations with messages"@,
            Failure::NothingSelected => "nothing selected"@,
            Failure::UnknownSelectedConversation { id } => "selected conversation "@ + id + " is not in the inventory"@,
            Failure::UnknownPerson { flag, selector } => "no one in this import matches "@ + flag + " \""@ + selector + "\" — run `slack2buzz invite --list` to see the candidates"@,
            Failure::NoInvitablePeople => "no invitable people in this import (all bots or deactivated)"@,
            Failure::NobodySelected => "nobody selected"@,
            Failure::NoUserRecords { path } => path + " contains no user records"@,
            Failure::InsufficientRole { role, community } => "this key holds role "@ + role + " in "@ + community + "; only owners and admins can mint invites"@,
            Failure::Prompt => "prompt failed"@,
            Failure::Slack(x) => "slack: "@ + x,
            Failure::Relay(x) => "relay: "@ + x,
            Failure::NotImplemented(x) => x,
        }
    }

    /// The process exit code: what the operator can fix by changing flags or
    /// input, what a remote service refused, what the key may not do, the rest.
    pub open spec fn code(self) -> i32 {
        match self {
            Failure::Slack(_)
            | Failure::Relay(_) => exit::NETWORK,
            Failure::InsufficientRole { .. } => exit::AUTH,
            Failure::Serialise
            | Failure::Ledger { .. }
            | Failure::UnknownSelectedConversation { .. }
            | Failure::Prompt
            | Failure::NotImplemented(_) => exit::OTHER,
            _ => exit::INPUT,
        }
    }
}

/// An outside error that the prompt reports is kept as it is.
impl From<PromptError> for Error {
    fn from(source: PromptError) -> (r: Self) {
        Error::Prompt(source)
    }
}

impl vstd::std_specs::convert::FromSpecImpl<PromptError> for Error {
    open spec fn obeys_from_spec() -> bool {
        true
    }

    open spec fn from_spec(source: PromptError) -> Self {
        Error::Prompt(source)
    }
}

impl Error {
    /// Convenience for the many `std::io` call sites that want to name what
    /// they were doing.
    pub fn io(context: &str, source: std::io::Error) -> (r: Self)
        ensures
            r matches Error::Io { context: c, source: s } && c@ == context@ && s == source,
    {
        Error::Io { context: context.to_string(), source }
    }

    /// A failed ledger statement. Most are self-describing from what was being
    /// done, so they get a generic context; the ones where the row identity
    /// matters name it.
    pub fn database(source: SqliteError) -> (r: Self)
        ensures
            r matches Error::Ledger { context: c, source: s } && c@ == "database operation failed"@
                && s == source,
    {
        Error::Ledger { context: "database operation failed".to_string(), source }
    }

    /// Whether an outside error lies underneath.
    pub open spec fn carries_cause(self) -> bool {
        match self {
            Error::Io { .. }
            | Error::Zip { .. }
            | Error::Json { .. }
            | Error::MalformedIr { .. }
            | Error::Serialise(_)
            | Error::Ledger { .. }
            | Error::Prompt(_) => true,
            _ => false,
        }
    }

    /// Whether an outside error lies underneath, for a report that shows the
    /// whole chain rather than swallowing the cause.
    pub fn has_source(&self) -> (r: bool)
        ensures
            r == self.carries_cause(),
    {
        match self {
            Error::Io { .. }
            | Error::Zip { .. }
            | Error::Json { .. }
            | Error::MalformedIr { .. }
            | Error::Serialise(_)
            | Error::Ledger { .. }
            | Error::Prompt(_) => true,
            _ => false,
        }
    }

    /// What the operator reads.
    pub fn to_string(&self) -> (r: String)
        ensures
            r@ == self.deep_view().message(),
    {
        match self {
            Error::Io { context, .. } => context.clone(),
            Error::Zip { path, .. } => text::join3("reading ", path.as_str(), " as a zip archive"),
            Error::Json { what, .. } => text::join3("parsing ", what.as_str(), " from the export"),
            Error::MalformedIr { path, line, .. } => text::join4(path.as_str(), ":", text::decimal(*line as u64).as_str(), ": malformed IR record"),
            Error::Serialise(_) => "serialising an IR record".to_string(),
            Error::Ledger { context, .. } => text::join2("ledger: ", context.as_str()),
            Error::NoChannelsSelected => "no channels selected: pass --all, --all-public, --channels <names>, or run without --no-input to choose interactively".to_string(),
            Error::UnknownChannel { selector } => text::join3("no channel in this export matches \"", selector.as_str(), "\" — run `slack2buzz probe` to list what is available"),
            Error::UnknownExcludedChannel { selector } => text::join3("no channel in this export matches --exclude \"", selector.as_str(), "\""),
            Error::NoConversationsMatched => "the selection matched no conversations with messages to import".to_string(),
            Error::NoConversations => "this export contains no conversations with messages".to_string(),
            Error::NothingSelected => "nothing selected".to_string(),
            Error::UnknownSelectedConversation { id } => text::join3("selected conversation ", id.as_str(), " is not in the inventory"),
            Error::UnknownPerson { flag, selector } => text::join5("no one in this import matches ", flag.as_str(), " \"", selector.as_str(), "\" — run `slack2buzz invite --list` to see the candidates"),
            Error::NoInvitablePeople => "no invitable people in this import (all bots or deactivated)".to_string(),
            Error::NobodySelected => "nobody selected".to_string(),
            Error::NoUserRecords { path } => text::join2(path.as_str(), " contains no user records"),
            Error::InsufficientRole { role, community } => text::join5("this key holds role ", role.as_str(), " in ", community.as_str(), "; only owners and admins can mint invites"),
            Error::Prompt(_) => "prompt failed".to_string(),
            Error::Slack(x) => text::join2("slack: ", x.as_str()),
            Error::Relay(x) => text::join2("relay: ", x.as_str()),
            Error::NotImplemented(x) => x.clone(),
        }
    }

    /// The process exit code this error should produce.
    ///
    /// Derived from the variant, so rewording a message can never silently move
    /// an error into a different class.
    pub fn exit_code(&self) -> (r: i32)
        ensures
            r == self.deep_view().code(),
    {
        match self {
            // Anything the operator can fix by changing flags or input.
            Error::Io { .. }
            | Error::Zip { .. }
            | Error::Json { .. }
            | Error::MalformedIr { .. }
            | Error::NoChannelsSelected
            | Error::UnknownChannel { .. }
            | Error::UnknownExcludedChannel { .. }
            | Error::NoConversationsMatched
            | Error::NoConversations
            | Error::NothingSelected
            | Error::UnknownPerson { .. }
            | Error::NoInvitablePeople
            | Error::NobodySelected
            | Error::NoUserRecords { .. } => exit::INPUT,
            Error::Slack(_)
            | Error::Relay(_) => exit::NETWORK,
            Error::InsufficientRole { .. } => exit::AUTH,
            Error::Serialise(_)
            | Error::Ledger { .. }
            | Error::UnknownSelectedConversation { .. }
            | Error::Prompt(_)
            | Error::NotImplemented(_) => exit::OTHER,
        }
    }
}

} // verus!
