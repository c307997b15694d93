//! The intermediate representation written by `parse` and read by `emit`.
//!
//! `import.jsonl` is one JSON object per line, each tagged with `type`. The
//! first line is always a [`Header`]; the rest may appear in any order, though
//! `parse` emits them grouped by channel and ascending by timestamp so a
//! human can read the file top to bottom.
//!
//! The IR is the contract between the two stages and is versioned
//! independently of the tool. `emit` refuses an IR whose
//! [`Header::ir_version`] it does not recognise rather than guessing.
//!
//! Nothing in here is Buzz-shaped. It describes what Slack said, normalised —
//! kinds, pubkeys, and signatures are `emit`'s concern. That separation is
//! what lets a Discord or Teams parser target the same file.
//!
//! Each record has a model, the same record with its strings as sequences of
//! characters, which is what contracts speak of.

use vstd::prelude::*;

use crate::tally::Tally;
use crate::text;
use crate::text::{index_of, integer, lemma_index_of};

pub mod laws;

verus! {

/// IR format version. Bump on any breaking change to the record shapes.
pub const IR_VERSION: u32 = 1;

/// One line of `import.jsonl`.
#[derive(Debug, Clone, PartialEq)]
pub enum Record {
    Header(Header),
    User(User),
    Channel(Channel),
    Message(Message),
    Reaction(Reaction),
    File(FileRef),
    Emoji(Emoji),
}

/// The model of a [`Record`].
#[verifier::ext_equal]
pub enum RecordModel {
    Header(HeaderModel),
    User(UserModel),
    Channel(ChannelModel),
    Message(MessageModel),
    Reaction(ReactionModel),
    File(FileModel),
    Emoji(EmojiModel),
}

impl DeepView for Record {
    type V = RecordModel;

    open spec fn deep_view(&self) -> RecordModel {
        match self {
            Record::Header(x) => RecordModel::Header(x.deep_view()),
            Record::User(x) => RecordModel::User(x.deep_view()),
            Record::Channel(x) => RecordModel::Channel(x.deep_view()),
            Record::Message(x) => RecordModel::Message(x.deep_view()),
            Record::Reaction(x) => RecordModel::Reaction(x.deep_view()),
            Record::File(x) => RecordModel::File(x.deep_view()),
            Record::Emoji(x) => RecordModel::Emoji(x.deep_view()),
        }
    }
}

/// First line of the IR: what produced this file and what it covers.
#[derive(Debug, Clone, PartialEq)]
pub struct Header {
    pub ir_version: u32,
    /// `slack2buzz 0.1.0` — informational, not a compatibility signal.
    pub generator: String,
    /// Always `slack` today. A future importer sets its own source.
    pub source: String,
    /// Slack team id, when the export reveals it.
    pub team_id: Option<String>,
    /// Channels the operator selected, by Slack id. `emit` treats this as the
    /// authoritative scope of the import, so a re-run with a different
    /// selection is a different import.
    pub selected_channels: Vec<String>,
    /// Channels present in the export but deliberately not parsed.
    pub skipped_channels: Vec<String>,
    /// Counts of each record type that follows, for cheap sanity checks.
    pub counts: Counts,
}

/// The model of a [`Header`].
#[verifier::ext_equal]
pub struct HeaderModel {
    pub ir_version: u32,
    pub generator: Seq<char>,
    pub source: Seq<char>,
    pub team_id: Option<Seq<char>>,
    pub selected_channels: Seq<Seq<char>>,
    pub skipped_channels: Seq<Seq<char>>,
    pub counts: CountsModel,
}

impl DeepView for Header {
    type V = HeaderModel;

    open spec fn deep_view(&self) -> HeaderModel {
        HeaderModel {
            ir_version: self.ir_version,
            generator: self.generator@,
            source: self.source@,
            team_id: self.team_id.deep_view(),
            selected_channels: self.selected_channels.deep_view(),
            skipped_channels: self.skipped_channels.deep_view(),
            counts: self.counts.deep_view(),
        }
    }
}

#[derive(Debug, PartialEq)]
pub struct Counts {
    pub users: usize,
    pub channels: usize,
    pub messages: usize,
    pub thread_replies: usize,
    pub reactions: usize,
    pub files: usize,
    pub emoji: usize,
    /// Messages dropped as join/leave noise (see `--keep-joins`).
    pub dropped_joins: usize,
    /// Messages skipped because we could not make sense of them. Non-zero
    /// here is a fidelity loss and `parse` reports it on stderr.
    pub skipped_unparseable: usize,
    /// Subtypes this build does not recognise, with how often each came up.
    pub unknown_subtypes: Tally,
}

/// The model of [`Counts`].
#[verifier::ext_equal]
pub struct CountsModel {
    pub users: nat,
    pub channels: nat,
    pub messages: nat,
    pub thread_replies: nat,
    pub reactions: nat,
    pub files: nat,
    pub emoji: nat,
    pub dropped_joins: nat,
    pub skipped_unparseable: nat,
    pub unknown_subtypes: Map<Seq<char>, nat>,
}

impl DeepView for Counts {
    type V = CountsModel;

    open spec fn deep_view(&self) -> CountsModel {
        CountsModel {
            users: self.users as nat,
            channels: self.channels as nat,
            messages: self.messages as nat,
            thread_replies: self.thread_replies as nat,
            reactions: self.reactions as nat,
            files: self.files as nat,
            emoji: self.emoji as nat,
            dropped_joins: self.dropped_joins as nat,
            skipped_unparseable: self.skipped_unparseable as nat,
            unknown_subtypes: self.unknown_subtypes@,
        }
    }
}

/// Nothing counted yet.
pub open spec fn no_counts() -> CountsModel {
    CountsModel {
        users: 0,
        channels: 0,
        messages: 0,
        thread_replies: 0,
        reactions: 0,
        files: 0,
        emoji: 0,
        dropped_joins: 0,
        skipped_unparseable: 0,
        unknown_subtypes: Map::empty(),
    }
}

impl Default for Counts {
    fn default() -> (r: Self)
        ensures
            r.deep_view() == no_counts(),
    {
        Counts {
            users: 0,
            channels: 0,
            messages: 0,
            thread_replies: 0,
            reactions: 0,
            files: 0,
            emoji: 0,
            dropped_joins: 0,
            skipped_unparseable: 0,
            unknown_subtypes: Tally::new(),
        }
    }
}

impl Clone for Counts {
    fn clone(&self) -> (r: Self)
        ensures
            r.deep_view() == self.deep_view(),
    {
        Counts {
            users: self.users,
            channels: self.channels,
            messages: self.messages,
            thread_replies: self.thread_replies,
            reactions: self.reactions,
            files: self.files,
            emoji: self.emoji,
            dropped_joins: self.dropped_joins,
            skipped_unparseable: self.skipped_unparseable,
            unknown_subtypes: self.unknown_subtypes.clone(),
        }
    }
}

/// A Slack member. Bots and deleted users are included — their messages are
/// in the history and dropping the user record would orphan them.
#[derive(Debug, Clone, PartialEq)]
pub struct User {
    pub slack_id: String,
    /// Slack's `name` (the handle, e.g. `pawel`).
    pub name: String,
    /// Best available human name, in Slack's own preference order:
    /// `profile.display_name`, then `profile.real_name`, then `name`.
    pub display_name: String,
    pub real_name: Option<String>,
    pub avatar_url: Option<String>,
    pub timezone: Option<String>,
    pub is_bot: bool,
    pub is_deleted: bool,
}

/// The model of a [`User`].
#[verifier::ext_equal]
pub struct UserModel {
    pub slack_id: Seq<char>,
    pub name: Seq<char>,
    pub display_name: Seq<char>,
    pub real_name: Option<Seq<char>>,
    pub avatar_url: Option<Seq<char>>,
    pub timezone: Option<Seq<char>>,
    pub is_bot: bool,
    pub is_deleted: bool,
}

impl DeepView for User {
    type V = UserModel;

    open spec fn deep_view(&self) -> UserModel {
        UserModel {
            slack_id: self.slack_id@,
            name: self.name@,
            display_name: self.display_name@,
            real_name: self.real_name.deep_view(),
            avatar_url: self.avatar_url.deep_view(),
            timezone: self.timezone.deep_view(),
            is_bot: self.is_bot,
            is_deleted: self.is_deleted,
        }
    }
}

/// What kind of conversation a channel is. Drives both the Buzz channel
/// visibility on emit and what `probe` tells the operator they actually have.
#[derive(Debug, Clone, Copy, PartialEq, Eq, Structural)]
pub enum ChannelKind {
    /// `channels.json` — public channel.
    Public,
    /// `groups.json` — private channel.
    Private,
    /// `dms.json` — two-person direct message.
    Dm,
    /// `mpims.json` — multi-person direct message.
    GroupDm,
}

impl ChannelKind {
    /// The kind's name.
    pub open spec fn word(self) -> Seq<char> {
        match self {
            ChannelKind::Public => "public"@,
            ChannelKind::Private => "private"@,
            ChannelKind::Dm => "dm"@,
            ChannelKind::GroupDm => "group_dm"@,
        }
    }

    pub fn as_str(self) -> (r: &'static str)
        ensures
            r@ == self.word(),
    {
        match self {
            ChannelKind::Public => "public",
            ChannelKind::Private => "private",
            ChannelKind::Dm => "dm",
            ChannelKind::GroupDm => "group_dm",
        }
    }

    /// Whether this kind carries an expectation of privacy.
    pub open spec fn private(self) -> bool {
        self !is Public
    }

    /// Whether this kind carries an expectation of privacy. `probe` and
    /// `emit` both warn louder for these.
    pub fn is_private(self) -> (r: bool)
        ensures
            r == self.private(),
    {
        !matches!(self, ChannelKind::Public)
    }
}

#[derive(Debug, Clone, PartialEq)]
pub struct Channel {
    pub slack_id: String,
    /// Slack channel name. Absent for DMs, which Slack does not name.
    pub name: Option<String>,
    pub kind: ChannelKind,
    pub topic: Option<String>,
    pub purpose: Option<String>,
    /// Slack user id of the creator, when the export records one.
    pub creator: Option<String>,
    /// Unix seconds.
    pub created: Option<i64>,
    pub is_archived: bool,
    pub members: Vec<String>,
}

/// The model of a [`Channel`].
#[verifier::ext_equal]
pub struct ChannelModel {
    pub slack_id: Seq<char>,
    pub name: Option<Seq<char>>,
    pub kind: ChannelKind,
    pub topic: Option<Seq<char>>,
    pub purpose: Option<Seq<char>>,
    pub creator: Option<Seq<char>>,
    pub created: Option<i64>,
    pub is_archived: bool,
    pub members: Seq<Seq<char>>,
}

impl DeepView for Channel {
    type V = ChannelModel;

    open spec fn deep_view(&self) -> ChannelModel {
        ChannelModel {
            slack_id: self.slack_id@,
            name: self.name.deep_view(),
            kind: self.kind,
            topic: self.topic.deep_view(),
            purpose: self.purpose.deep_view(),
            creator: self.creator.deep_view(),
            created: self.created,
            is_archived: self.is_archived,
            members: self.members.deep_view(),
        }
    }
}

/// A message. One record per Slack message, thread roots and replies alike —
/// `thread_ts` is what distinguishes them, and `emit` uses it to order its two
/// sub-passes.
#[derive(Debug, Clone, PartialEq)]
pub struct Message {
    /// Slack's `ts`, verbatim (`"1728394855.123456"`). This is the identity of
    /// the message within its channel and the ledger's idempotency key —
    /// never reformat it.
    pub slack_ts: String,
    pub channel_slack_id: String,
    /// Unix seconds derived from `slack_ts`. What `emit` puts in `created_at`.
    pub created_at: i64,
    /// Author. `None` for messages the export attributes to no user (some
    /// subtypes, and bot messages that predate `bot_id` attribution).
    pub user_slack_id: Option<String>,
    /// Set when the message came from a bot/app rather than a member.
    pub bot_id: Option<String>,
    /// Display name to attribute to, when the message carries its own
    /// (`username` on bot messages).
    pub author_override: Option<String>,
    /// Normalised text: mrkdwn converted, entities decoded, refs rewritten.
    pub text: String,
    /// Slack's original `text`, kept verbatim. Costs bytes, buys the ability
    /// to re-normalise without re-exporting from Slack, and makes any
    /// normalisation bug auditable after the fact.
    pub raw_text: String,
    /// Thread root's `ts`. `None` for un-threaded messages. Equal to
    /// `slack_ts` when this message *is* the root of a thread.
    pub thread_ts: Option<String>,
    /// Slack `subtype` (`channel_topic`, `bot_message`, `file_share`, ...).
    pub subtype: Option<String>,
    /// Whether a thread reply was also posted to the channel.
    pub broadcast: bool,
    /// Unix seconds of the last edit, when the message was edited.
    pub edited_at: Option<i64>,
    /// Slack user ids mentioned, in order of first appearance.
    pub mentions: Vec<String>,
    /// Slack file ids attached, resolvable against the [`FileRef`] records.
    pub file_ids: Vec<String>,
}

/// The model of a [`Message`].
#[verifier::ext_equal]
pub struct MessageModel {
    pub slack_ts: Seq<char>,
    pub channel_slack_id: Seq<char>,
    pub created_at: i64,
    pub user_slack_id: Option<Seq<char>>,
    pub bot_id: Option<Seq<char>>,
    pub author_override: Option<Seq<char>>,
    pub text: Seq<char>,
    pub raw_text: Seq<char>,
    pub thread_ts: Option<Seq<char>>,
    pub subtype: Option<Seq<char>>,
    pub broadcast: bool,
    pub edited_at: Option<i64>,
    pub mentions: Seq<Seq<char>>,
    pub file_ids: Seq<Seq<char>>,
}

impl MessageModel {
    /// Whether the message is the root of a thread.
    pub open spec fn thread_root(self) -> bool {
        self.thread_ts == Some(self.slack_ts)
    }

    /// Whether the message is a reply in a thread.
    pub open spec fn thread_reply(self) -> bool {
        self.thread_ts is Some && self.thread_ts != Some(self.slack_ts)
    }
}

impl DeepView for Message {
    type V = MessageModel;

    open spec fn deep_view(&self) -> MessageModel {
        MessageModel {
            slack_ts: self.slack_ts@,
            channel_slack_id: self.channel_slack_id@,
            created_at: self.created_at,
            user_slack_id: self.user_slack_id.deep_view(),
            bot_id: self.bot_id.deep_view(),
            author_override: self.author_override.deep_view(),
            text: self.text@,
            raw_text: self.raw_text@,
            thread_ts: self.thread_ts.deep_view(),
            subtype: self.subtype.deep_view(),
            broadcast: self.broadcast,
            edited_at: self.edited_at,
            mentions: self.mentions.deep_view(),
            file_ids: self.file_ids.deep_view(),
        }
    }
}

impl Message {
    /// A message is a thread root when it has a `thread_ts` equal to its own
    /// `ts`. Slack sets `thread_ts` on both the root and every reply.
    pub fn is_thread_root(&self) -> (r: bool)
        ensures
            r == self.deep_view().thread_root(),
    {
        match &self.thread_ts {
            Some(t) => *t == self.slack_ts,
            None => false,
        }
    }

    /// A reply hangs off a different message's `thread_ts`.
    pub fn is_thread_reply(&self) -> (r: bool)
        ensures
            r == self.deep_view().thread_reply(),
    {
        match &self.thread_ts {
            Some(t) => *t != self.slack_ts,
            None => false,
        }
    }
}

/// A message is the root of a thread, a reply in one, or stands outside every
/// thread: exactly one of the three.
pub proof fn law_root_reply_or_unthreaded(m: MessageModel)
    ensures
        !(m.thread_root() && m.thread_reply()),
        (m.thread_root() || m.thread_reply()) == (m.thread_ts is Some),
{
}

/// One reactor's one emoji on one message. Slack stores reactions grouped by
/// emoji with a user list; we explode them so each becomes its own kind:7
/// event signed by that reactor's derived key.
#[derive(Debug, Clone, PartialEq)]
pub struct Reaction {
    pub channel_slack_id: String,
    /// `slack_ts` of the message reacted to.
    pub target_slack_ts: String,
    /// Emoji short name without colons (`thumbsup`, `custom-parrot`).
    pub name: String,
    pub user_slack_id: String,
}

/// The model of a [`Reaction`].
#[verifier::ext_equal]
pub struct ReactionModel {
    pub channel_slack_id: Seq<char>,
    pub target_slack_ts: Seq<char>,
    pub name: Seq<char>,
    pub user_slack_id: Seq<char>,
}

impl DeepView for Reaction {
    type V = ReactionModel;

    open spec fn deep_view(&self) -> ReactionModel {
        ReactionModel {
            channel_slack_id: self.channel_slack_id@,
            target_slack_ts: self.target_slack_ts@,
            name: self.name@,
            user_slack_id: self.user_slack_id@,
        }
    }
}

/// A file *reference*. Slack exports link to files; they do not contain them.
/// Whether the bytes still exist is unknown until `emit --with-files` tries.
#[derive(Debug, Clone, PartialEq)]
pub struct FileRef {
    pub slack_file_id: String,
    pub channel_slack_id: String,
    /// `slack_ts` of the message the file was shared in.
    pub message_slack_ts: String,
    pub name: Option<String>,
    pub mimetype: Option<String>,
    pub size: Option<u64>,
    /// Requires an authenticated Slack token with file scope to fetch.
    pub url_private: Option<String>,
    pub permalink: Option<String>,
    /// Slack already told us the file is gone. Saves a doomed fetch.
    pub is_deleted: bool,
    /// Hosted elsewhere (Google Drive, a pasted link); there are no bytes to
    /// migrate, only a URL to preserve.
    pub is_external: bool,
}

/// The model of a [`FileRef`].
#[verifier::ext_equal]
pub struct FileModel {
    pub slack_file_id: Seq<char>,
    pub channel_slack_id: Seq<char>,
    pub message_slack_ts: Seq<char>,
    pub name: Option<Seq<char>>,
    pub mimetype: Option<Seq<char>>,
    pub size: Option<u64>,
    pub url_private: Option<Seq<char>>,
    pub permalink: Option<Seq<char>>,
    pub is_deleted: bool,
    pub is_external: bool,
}

impl DeepView for FileRef {
    type V = FileModel;

    open spec fn deep_view(&self) -> FileModel {
        FileModel {
            slack_file_id: self.slack_file_id@,
            channel_slack_id: self.channel_slack_id@,
            message_slack_ts: self.message_slack_ts@,
            name: self.name.deep_view(),
            mimetype: self.mimetype.deep_view(),
            size: self.size,
            url_private: self.url_private.deep_view(),
            permalink: self.permalink.deep_view(),
            is_deleted: self.is_deleted,
            is_external: self.is_external,
        }
    }
}

/// A workspace custom emoji.
#[derive(Debug, Clone, PartialEq)]
pub struct Emoji {
    /// Short name without colons.
    pub name: String,
    /// Either a URL to the image or `alias:othername`.
    pub url: String,
}

/// The model of an [`Emoji`].
#[verifier::ext_equal]
pub struct EmojiModel {
    pub name: Seq<char>,
    pub url: Seq<char>,
}

impl DeepView for Emoji {
    type V = EmojiModel;

    open spec fn deep_view(&self) -> EmojiModel {
        EmojiModel { name: self.name@, url: self.url@ }
    }
}

/// The unix seconds of a Slack `ts`: the integer ahead of its first dot.
pub open spec fn ts_secs(ts: Seq<char>) -> Option<i64> {
    integer(ts.take(index_of(ts, '.')))
}

/// Split a Slack `ts` into unix seconds.
///
/// Slack timestamps are `"<seconds>.<microseconds>"`. The fractional part is a
/// per-channel disambiguator, not real sub-second precision, so it is kept
/// only in `slack_ts` and dropped from `created_at`.
pub fn ts_to_unix_secs(ts: &str) -> (r: Option<i64>)
    ensures
        r == ts_secs(ts@),
{
    let v = text::chars_of(ts);
    let dot = text::find_char(&v, 0, '.');
    assert(v@.skip(0) =~= v@);
    proof {
        lemma_index_of(v@, '.');
    }
    let secs = text::string_of(&v, 0, dot);
    assert(secs@ =~= ts@.take(index_of(ts@, '.')));
    text::parse_integer(secs.as_str())
}

/// Whatever follows the dot of a `ts` does not change its seconds.
pub proof fn law_fraction_is_only_identity(secs: Seq<char>, a: Seq<char>, b: Seq<char>)
    requires
        forall|i: int| 0 <= i < secs.len() ==> secs[i] != '.',
    ensures
        ts_secs(secs + seq!['.'] + a) == ts_secs(secs + seq!['.'] + b),
        ts_secs(secs + seq!['.'] + a) == integer(secs),
{
    let s = secs + seq!['.'] + a;
    let t = secs + seq!['.'] + b;
    text::lemma_index_of_is(s, '.', secs.len() as int);
    text::lemma_index_of_is(t, '.', secs.len() as int);
    assert(s.take(secs.len() as int) =~= secs);
    assert(t.take(secs.len() as int) =~= secs);
}

} // verus!
