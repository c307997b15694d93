//! A Slack export's records, exactly as Slack writes them.
//!
//! These types mirror the on-disk shape and nothing else — no normalisation,
//! no defaulting that invents data. Slack's export format has drifted over the
//! years and varies by workspace plan, so almost every field is optional: an
//! export from 2016 and one from last week both have to fit.
//!
//! The one thing we are strict about is `ts`. It is the identity of a message
//! and the ledger's idempotency key, so a message without one is unusable and
//! is counted as a skip rather than silently given a synthetic timestamp.

use vstd::prelude::*;

use crate::text;
use crate::text::{blank, same, trimmed};

pub mod laws;

verus! {

/// An entry in `users.json`.
#[derive(Debug)]
pub struct SlackUser {
    pub id: String,
    pub name: String,
    pub deleted: bool,
    pub is_bot: bool,
    pub tz: Option<String>,
    pub profile: Option<SlackProfile>,
}

#[derive(Debug)]
pub struct SlackProfile {
    pub real_name: Option<String>,
    pub display_name: Option<String>,
    /// Slack offers several sizes; 192px is the largest reliably present one.
    pub image_192: Option<String>,
    pub image_512: Option<String>,
}

impl Clone for SlackProfile {
    fn clone(&self) -> (r: Self)
        ensures
            r == *self,
    {
        SlackProfile {
            real_name: text::copy_opt(&self.real_name),
            display_name: text::copy_opt(&self.display_name),
            image_192: text::copy_opt(&self.image_192),
            image_512: text::copy_opt(&self.image_512),
        }
    }
}

impl Clone for SlackUser {
    fn clone(&self) -> (r: Self)
        ensures
            r == *self,
    {
        SlackUser {
            id: self.id.clone(),
            name: self.name.clone(),
            deleted: self.deleted,
            is_bot: self.is_bot,
            tz: text::copy_opt(&self.tz),
            profile: match &self.profile {
                Some(p) => Some(p.clone()),
                None => None,
            },
        }
    }
}

impl Default for SlackProfile {
    fn default() -> (r: Self)
        ensures
            r.real_name is None,
            r.display_name is None,
            r.image_192 is None,
            r.image_512 is None,
    {
        SlackProfile { real_name: None, display_name: None, image_192: None, image_512: None }
    }
}

/// Whether an optional text holds something to show.
pub open spec fn says_something(s: Option<String>) -> bool {
    s matches Some(t) && !blank(t@)
}

impl SlackUser {
    /// The name Slack would show: `display_name`, then `real_name`, then the
    /// handle, then the id, the first that is not blank.
    pub open spec fn shown_name(self) -> Seq<char> {
        if self.profile matches Some(p) && says_something(p.display_name) {
            self.profile->0.display_name->0@
        } else if self.profile matches Some(p) && says_something(p.real_name) {
            self.profile->0.real_name->0@
        } else if !blank(self.name@) {
            self.name@
        } else {
            self.id@
        }
    }

    /// Slack's own display preference: `display_name`, then `real_name`, then
    /// the handle. Empty strings count as absent — Slack writes `""` rather
    /// than omitting the key when a user never set a display name.
    pub fn best_display_name(&self) -> (r: String)
        ensures
            r@ == self.shown_name(),
    {
        if let Some(profile) = &self.profile {
            if let Some(name) = &profile.display_name {
                if !text::is_blank(name.as_str()) {
                    return name.clone();
                }
            }
            if let Some(name) = &profile.real_name {
                if !text::is_blank(name.as_str()) {
                    return name.clone();
                }
            }
        }
        if !text::is_blank(self.name.as_str()) {
            return self.name.clone();
        }
        self.id.clone()
    }

    /// The largest avatar the profile offers.
    pub open spec fn avatar(self) -> Option<Seq<char>> {
        match self.profile {
            Some(p) => if p.image_512 is Some {
                p.image_512.deep_view()
            } else {
                p.image_192.deep_view()
            },
            None => None,
        }
    }

    pub fn avatar_url(&self) -> (r: Option<String>)
        ensures
            r.deep_view() == self.avatar(),
    {
        match &self.profile {
            Some(profile) => if profile.image_512.is_some() {
                text::copy_opt(&profile.image_512)
            } else {
                text::copy_opt(&profile.image_192)
            },
            None => None,
        }
    }

    /// The real name, unless it is blank.
    pub open spec fn real_name_text(self) -> Option<Seq<char>> {
        if self.profile matches Some(p) && says_something(p.real_name) {
            self.profile->0.real_name.deep_view()
        } else {
            None
        }
    }

    /// The real name, unless it is blank.
    pub fn real_name(&self) -> (r: Option<String>)
        ensures
            r.deep_view() == self.real_name_text(),
    {
        if let Some(profile) = &self.profile {
            if let Some(name) = &profile.real_name {
                if !text::is_blank(name.as_str()) {
                    return Some(name.clone());
                }
            }
        }
        None
    }
}

/// An entry in `channels.json` / `groups.json` / `mpims.json` / `dms.json`.
///
/// The four files share a shape loosely: DMs have no `name` and use `members`
/// rather than a member list under `value`.
#[derive(Debug, Clone)]
pub struct SlackConversation {
    pub id: String,
    pub name: Option<String>,
    pub created: Option<i64>,
    pub creator: Option<String>,
    pub is_archived: bool,
    pub members: Vec<String>,
    pub topic: Option<SlackPurpose>,
    pub purpose: Option<SlackPurpose>,
}

/// Slack wraps topic/purpose in `{value, creator, last_set}`.
#[derive(Debug, Clone)]
pub struct SlackPurpose {
    pub value: String,
}

impl Default for SlackPurpose {
    fn default() -> (r: Self)
        ensures
            r.value@ == Seq::<char>::empty(),
    {
        SlackPurpose { value: String::new() }
    }
}

/// The text a purpose holds, trimmed; nothing when it is blank or absent.
pub open spec fn purpose_words(p: Option<SlackPurpose>) -> Option<Seq<char>> {
    match p {
        Some(p) => if blank(p.value@) {
            None
        } else {
            Some(trimmed(p.value@))
        },
        None => None,
    }
}

impl SlackPurpose {
    fn non_empty(&self) -> (r: Option<String>)
        ensures
            r.deep_view() == purpose_words(Some(*self)),
    {
        let v = text::trim(self.value.as_str());
        if v.as_str().is_empty() {
            None
        } else {
            Some(v)
        }
    }
}

impl SlackConversation {
    pub fn topic_text(&self) -> (r: Option<String>)
        ensures
            r.deep_view() == purpose_words(self.topic),
    {
        match &self.topic {
            Some(p) => p.non_empty(),
            None => None,
        }
    }

    pub fn purpose_text(&self) -> (r: Option<String>)
        ensures
            r.deep_view() == purpose_words(self.purpose),
    {
        match &self.purpose {
            Some(p) => p.non_empty(),
            None => None,
        }
    }
}

/// One message from a per-channel `YYYY-MM-DD.json` file.
#[derive(Debug, Clone)]
pub struct SlackMessage {
    /// Missing `ts` makes a message unusable; see module docs.
    pub ts: Option<String>,
    pub msg_type: Option<String>,
    pub subtype: Option<String>,
    pub user: Option<String>,
    pub bot_id: Option<String>,
    /// Present on bot/app messages that carry their own display name.
    pub username: Option<String>,
    pub text: Option<String>,
    pub thread_ts: Option<String>,
    pub edited: Option<SlackEdited>,
    pub reactions: Vec<SlackReaction>,
    pub files: Vec<SlackFile>,
}

#[derive(Debug, Clone)]
pub struct SlackEdited {
    pub ts: Option<String>,
}

/// Slack groups reactions by emoji with a list of reactors. `parse` explodes
/// these into one IR record per (emoji, reactor).
#[derive(Debug, Clone)]
pub struct SlackReaction {
    pub name: String,
    pub users: Vec<String>,
}

/// A file *reference*. The export contains no bytes — see `docs/limitations.md`.
#[derive(Debug, Clone)]
pub struct SlackFile {
    pub id: Option<String>,
    pub name: Option<String>,
    pub mimetype: Option<String>,
    pub size: Option<u64>,
    pub url_private: Option<String>,
    pub permalink: Option<String>,
    /// Slack sets `"hidden_by_limit"` or `"file_deleted"` in `mode` once the
    /// bytes are gone, and some exports carry an explicit flag.
    pub mode: Option<String>,
    pub is_external: bool,
}

impl SlackFile {
    /// Whether the file's mode says that its bytes are unavailable.
    pub open spec fn gone(self) -> bool {
        self.mode matches Some(mode) && (mode@ == "hidden_by_limit"@ || mode@ == "file_deleted"@
            || mode@ == "tombstone"@)
    }

    /// Whether Slack has already told us the bytes are unavailable, so
    /// `emit --with-files` can skip a fetch that is guaranteed to fail.
    pub fn is_gone(&self) -> (r: bool)
        ensures
            r == self.gone(),
    {
        match &self.mode {
            Some(mode) => {
                let m = mode.as_str();
                same(m, "hidden_by_limit") || same(m, "file_deleted") || same(m, "tombstone")
            },
            None => false,
        }
    }
}

/// Subtypes that represent membership churn rather than conversation. Dropped
/// unless `--keep-joins` is given.
pub open spec fn join_leave_subtype(s: Seq<char>) -> bool {
    ||| s == "channel_join"@
    ||| s == "channel_leave"@
    ||| s == "group_join"@
    ||| s == "group_leave"@
}

fn is_join_leave_subtype(s: &str) -> (r: bool)
    ensures
        r == join_leave_subtype(s@),
{
    same(s, "channel_join") || same(s, "channel_leave") || same(s, "group_join") || same(
        s,
        "group_leave",
    )
}

pub fn is_join_leave(subtype: Option<&str>) -> (r: bool)
    ensures
        r == (subtype matches Some(s) && join_leave_subtype(s@)),
{
    match subtype {
        Some(s) => is_join_leave_subtype(s),
        None => false,
    }
}

/// What we do with a message, decided by its `subtype`.
///
/// The point of naming this rather than scattering `match` arms is
/// [`Handling::Unknown`]. Slack has added subtypes for years and will add more;
/// without an explicit "we don't recognise this" case, an unfamiliar subtype
/// silently becomes an ordinary message and nobody finds out until someone
/// reads the archive and notices something is off. Counting unknowns turns that
/// into a number in the counts of `parse`.
#[derive(Debug, Clone, Copy, PartialEq, Eq, Structural)]
pub enum Handling {
    /// No subtype: an ordinary message.
    Plain,
    /// Membership churn; dropped unless `--keep-joins`.
    JoinLeave,
    /// A thread reply that was *also* posted to the channel. Carries a flag
    /// through the IR so `emit` can set Buzz's `broadcast` tag.
    Broadcast,
    /// Recognised, and correctly imported as an ordinary message. Listed
    /// explicitly so that "recognised" and "unrecognised" are different states.
    AsPlainText,
    /// Not recognised. Imported as an ordinary message *and counted*, so the
    /// operator learns it happened.
    Unknown,
}

/// Slack marks a broadcast reply with one of two subtypes; `reply_broadcast` is
/// the older spelling and still appears in exports of old history.
pub open spec fn broadcast_subtype(s: Seq<char>) -> bool {
    s == "thread_broadcast"@ || s == "reply_broadcast"@
}

/// Subtypes that carry ordinary human text and need no special treatment.
///
/// Being listed here is a claim that importing the message verbatim is correct,
/// not merely that we have seen the name before.
pub open spec fn plain_text_subtype(s: Seq<char>) -> bool {
    ||| s == "bot_message"@
    ||| s == "me_message"@
    ||| s == "file_share"@
    ||| s == "file_comment"@
    ||| s == "file_mention"@
    ||| s == "channel_topic"@
    ||| s == "channel_purpose"@
    ||| s == "channel_name"@
    ||| s == "channel_archive"@
    ||| s == "channel_unarchive"@
    ||| s == "group_topic"@
    ||| s == "group_purpose"@
    ||| s == "group_name"@
    ||| s == "group_archive"@
    ||| s == "group_unarchive"@
    ||| s == "pinned_item"@
    ||| s == "unpinned_item"@
    ||| s == "reminder_add"@
    ||| s == "bot_add"@
    ||| s == "bot_remove"@
    ||| s == "bot_enable"@
    ||| s == "bot_disable"@
    ||| s == "huddle_thread"@
    ||| s == "sh_room_created"@
    ||| s == "tombstone"@
}

fn is_plain_text_subtype(s: &str) -> (r: bool)
    ensures
        r == plain_text_subtype(s@),
{
    same(s, "bot_message") || same(s, "me_message") || same(s, "file_share") || same(
        s,
        "file_comment",
    ) || same(s, "file_mention") || same(s, "channel_topic") || same(s, "channel_purpose") || same(
        s,
        "channel_name",
    ) || same(s, "channel_archive") || same(s, "channel_unarchive") || same(s, "group_topic")
        || same(s, "group_purpose") || same(s, "group_name") || same(s, "group_archive") || same(
        s,
        "group_unarchive",
    ) || same(s, "pinned_item") || same(s, "unpinned_item") || same(s, "reminder_add") || same(
        s,
        "bot_add",
    ) || same(s, "bot_remove") || same(s, "bot_enable") || same(s, "bot_disable") || same(
        s,
        "huddle_thread",
    ) || same(s, "sh_room_created") || same(s, "tombstone")
}

/// How a message with this subtype is treated.
pub open spec fn handling_of(subtype: Option<Seq<char>>) -> Handling {
    match subtype {
        None => Handling::Plain,
        Some(s) => if join_leave_subtype(s) {
            Handling::JoinLeave
        } else if broadcast_subtype(s) {
            Handling::Broadcast
        } else if plain_text_subtype(s) {
            Handling::AsPlainText
        } else {
            Handling::Unknown
        },
    }
}

/// Classify a message by its subtype.
pub fn handling(subtype: Option<&str>) -> (r: Handling)
    ensures
        r == handling_of(subtype.deep_view()),
{
    match subtype {
        None => Handling::Plain,
        Some(s) => if is_join_leave_subtype(s) {
            Handling::JoinLeave
        } else if same(s, "thread_broadcast") || same(s, "reply_broadcast") {
            Handling::Broadcast
        } else if is_plain_text_subtype(s) {
            Handling::AsPlainText
        } else {
            Handling::Unknown
        },
    }
}

/// Whether this message is a thread reply that was also broadcast to the
/// channel.
pub fn is_broadcast(subtype: Option<&str>) -> (r: bool)
    ensures
        r == (subtype matches Some(s) && broadcast_subtype(s@)),
{
    let r = handling(subtype) == Handling::Broadcast;
    proof {
        if let Some(s) = subtype {
            law_handling_classes_are_disjoint(s@);
        }
    }
    r
}

/// No subtype is both membership churn, a broadcast and ordinary text: the order
/// in which the lists are consulted does not matter.
pub proof fn law_handling_classes_are_disjoint(s: Seq<char>)
    ensures
        !(join_leave_subtype(s) && broadcast_subtype(s)),
        !(join_leave_subtype(s) && plain_text_subtype(s)),
        !(broadcast_subtype(s) && plain_text_subtype(s)),
{
    reveal_strlit("channel_join");
    reveal_strlit("channel_leave");
    reveal_strlit("group_join");
    reveal_strlit("group_leave");
    reveal_strlit("thread_broadcast");
    reveal_strlit("reply_broadcast");
    reveal_strlit("bot_message");
    reveal_strlit("me_message");
    reveal_strlit("file_share");
    reveal_strlit("file_comment");
    reveal_strlit("file_mention");
    reveal_strlit("channel_topic");
    reveal_strlit("channel_purpose");
    reveal_strlit("channel_name");
    reveal_strlit("channel_archive");
    reveal_strlit("channel_unarchive");
    reveal_strlit("group_topic");
    reveal_strlit("group_purpose");
    reveal_strlit("group_name");
    reveal_strlit("group_archive");
    reveal_strlit("group_unarchive");
    reveal_strlit("pinned_item");
    reveal_strlit("unpinned_item");
    reveal_strlit("reminder_add");
    reveal_strlit("bot_add");
    reveal_strlit("bot_remove");
    reveal_strlit("bot_enable");
    reveal_strlit("bot_disable");
    reveal_strlit("huddle_thread");
    reveal_strlit("sh_room_created");
    reveal_strlit("tombstone");
    // Names of one length differ in one of these letters.
    let (first, seventh, ninth) = (s[0], s[6], s[8]);
}

} // verus!
