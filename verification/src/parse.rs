//! `parse` — Slack export → the records of `import.jsonl`.
//!
//! Pure with respect to the network and the clock: what comes out is a function
//! of the export, the inventory, the selection and the options, and of nothing
//! else.
//!
//! Ordering is deliberate and stable so the output is diffable: the header,
//! then users, then custom emoji, then per selected conversation the channel
//! record followed by its messages in ascending timestamp order, with each
//! message's reactions and file references immediately after it. A human
//! scrolling `import.jsonl` reads the conversation in the order it happened.

use vstd::prelude::*;

use crate::error::{Error, Failure};
use crate::export::{emoji_entries, table_ascends, DayFile, Export};
use crate::ir;
use crate::ir::{ts_to_unix_secs, ChannelModel, Counts, CountsModel, EmojiModel, FileModel, HeaderModel, MessageModel, ReactionModel, Record, RecordModel, UserModel};
use crate::mrkdwn;
use crate::mrkdwn::{normal_mentions, normal_text, Resolver};
use crate::names::Names;
use crate::order::{order_of, positions, ranks, sort_pairs, sorted_pairs, sorted_positions, sorts, Key, Rank};
use crate::probe::{is_join, known_file_ids, message_secs, reactors, secs_of, subtype_of, ConversationSummary, Inventory, SummaryModel};
use crate::selection::{complement, outcome, skipped_ids};
use crate::slack;
use crate::slack::{handling_of, Handling, SlackFile, SlackMessage, SlackReaction, SlackUser};
use crate::tally::{bumped, count_in};
use crate::text;
use crate::text::{chars_less, chars_of, lemma_lt_asymmetric, lemma_lt_total, lemma_lt_transitive, lt, same};

pub mod alike;
pub mod laws;
pub mod records;

verus! {

/// Knobs that change what ends up in the IR.
#[derive(Debug, Clone, Copy, PartialEq)]
pub struct Options {
    /// Keep `channel_join` / `channel_leave` style messages.
    pub keep_joins: bool,
}

impl Default for Options {
    fn default() -> (r: Self)
        ensures
            !r.keep_joins,
    {
        Options { keep_joins: false }
    }
}

// ── names ────────────────────────────────────────────────────────────────────

/// What each user is called, by id. Of entries that share an id the last counts.
pub open spec fn user_names(us: Seq<SlackUser>) -> Map<Seq<char>, Seq<char>>
    decreases us.len(),
{
    if us.len() == 0 {
        Map::empty()
    } else {
        user_names(us.drop_last()).insert(us.last().id@, us.last().shown_name())
    }
}

/// What each channel with a name is called, by id.
pub open spec fn channel_names(cs: Seq<SummaryModel>) -> Map<Seq<char>, Seq<char>>
    decreases cs.len(),
{
    if cs.len() == 0 {
        Map::empty()
    } else {
        let ahead = channel_names(cs.drop_last());
        match cs.last().name {
            Some(n) => ahead.insert(cs.last().slack_id, n),
            None => ahead,
        }
    }
}

/// Build the id → name maps that mrkdwn normalisation needs.
fn build_resolver(inventory: &Inventory) -> (r: Resolver)
    ensures
        r.users@ == user_names(inventory.users@),
        r.channels@ == channel_names(inventory.models()),
{
    let ghost us = inventory.users@;
    let ghost cs = inventory.models();
    let mut users = Names::new();
    let mut i: usize = 0;
    while i < inventory.users.len()
        invariant
            i <= inventory.users@.len(),
            us == inventory.users@,
            users@ == user_names(us.take(i as int)),
        decreases inventory.users@.len() - i,
    {
        assert(us.take(i + 1).drop_last() =~= us.take(i as int));
        let user = &inventory.users[i];
        users.insert(user.id.clone(), user.best_display_name());
        i += 1;
    }
    assert(us.take(i as int) =~= us);
    let mut channels = Names::new();
    let mut k: usize = 0;
    while k < inventory.conversations.len()
        invariant
            k <= inventory.conversations@.len(),
            cs == inventory.models(),
            channels@ == channel_names(cs.take(k as int)),
        decreases inventory.conversations@.len() - k,
    {
        assert(cs.take(k + 1).drop_last() =~= cs.take(k as int));
        assert(cs[k as int] == inventory.conversations@[k as int].deep_view());
        let c = &inventory.conversations[k];
        if let Some(name) = &c.name {
            channels.insert(c.slack_id.clone(), name.clone());
        }
        k += 1;
    }
    assert(cs.take(k as int) =~= cs);
    Resolver { users, channels }
}

// ── the order of messages ────────────────────────────────────────────────────

/// What messages are sorted by: the seconds of their `ts`, zero when it has
/// none, and then the `ts` itself, a missing one first.
pub struct Moment {
    pub secs: i64,
    pub ts: Option<Seq<char>>,
}

/// Whether one optional text sorts before another.
pub open spec fn opt_lt(a: Option<Seq<char>>, b: Option<Seq<char>>) -> bool {
    match (a, b) {
        (Some(x), Some(y)) => lt(x, y),
        (None, Some(_)) => true,
        (_, None) => false,
    }
}

impl Rank for Moment {
    open spec fn precedes(self, other: Self) -> bool {
        self.secs < other.secs || (self.secs == other.secs && opt_lt(self.ts, other.ts))
    }

    proof fn lemma_asymmetric(a: Self, b: Self) {
        if let (Some(x), Some(y)) = (a.ts, b.ts) {
            lemma_lt_asymmetric(x, y);
        }
    }

    proof fn lemma_weak(a: Self, b: Self, c: Self) {
        if let (Some(x), Some(y), Some(z)) = (a.ts, b.ts, c.ts) {
            lemma_lt_total(x, y);
            lemma_lt_total(y, z);
            if lt(y, x) && lt(z, y) {
                lemma_lt_transitive(z, y, x);
            }
            lemma_lt_asymmetric(x, z);
        }
    }
}

/// When a message was sent, as far as it says.
pub open spec fn moment_of(m: SlackMessage) -> Moment {
    Moment {
        secs: match secs_of(m) {
            Some(t) => t,
            None => 0,
        },
        ts: m.ts.deep_view(),
    }
}

pub open spec fn moments(ms: Seq<SlackMessage>) -> Seq<Moment> {
    Seq::new(ms.len(), |i: int| moment_of(ms[i]))
}

/// Messages in the order they were sent; of those that tie, the earlier stays
/// first.
pub open spec fn in_order(ms: Seq<SlackMessage>) -> Seq<SlackMessage> {
    let o = order_of(moments(ms));
    Seq::new(o.len(), |i: int| ms[o[i]])
}

struct MomentKey {
    secs: i64,
    ts: Option<Vec<char>>,
}

impl Key for MomentKey {
    type R = Moment;

    closed spec fn rank(self) -> Moment {
        Moment {
            secs: self.secs,
            ts: match self.ts {
                Some(v) => Some(v@),
                None => None,
            },
        }
    }

    fn is_before(&self, other: &Self) -> (r: bool) {
        if self.secs != other.secs {
            return self.secs < other.secs;
        }
        match (&self.ts, &other.ts) {
            (Some(x), Some(y)) => chars_less(x, y),
            (None, Some(_)) => true,
            (_, None) => false,
        }
    }
}

/// The messages that borrowed ones are.
spec fn owned(ms: Seq<&SlackMessage>) -> Seq<SlackMessage> {
    Seq::new(ms.len(), |i: int| *ms[i])
}

fn order_messages(ms: &Vec<&SlackMessage>) -> (r: Vec<usize>)
    ensures
        positions(r@) == order_of(moments(owned(ms@))),
        sorts(moments(owned(ms@)), positions(r@)),
{
    let mut keys: Vec<MomentKey> = Vec::new();
    let mut i: usize = 0;
    while i < ms.len()
        invariant
            i <= ms@.len(),
            keys@.len() == i,
            forall|k: int| 0 <= k < i ==> (#[trigger] keys@[k]).rank() == moment_of(*ms@[k]),
        decreases ms@.len() - i,
    {
        let m: &SlackMessage = ms[i];
        let secs: i64 = match message_secs(m) {
            Some(t) => t,
            None => 0,
        };
        let ts = match &m.ts {
            Some(ts) => Some(chars_of(ts.as_str())),
            None => None,
        };
        let key = MomentKey { secs, ts };
        assert(key.rank() == moment_of(*ms@[i as int]));
        keys.push(key);
        i += 1;
    }
    assert(ranks(keys@) =~= moments(owned(ms@)));
    sorted_positions(&keys)
}

// ── records ──────────────────────────────────────────────────────────────────

/// The record of a user.
pub open spec fn user_record(u: SlackUser) -> RecordModel {
    RecordModel::User(
        UserModel {
            slack_id: u.id@,
            name: u.name@,
            display_name: u.shown_name(),
            real_name: u.real_name_text(),
            avatar_url: u.avatar(),
            timezone: u.tz.deep_view(),
            is_bot: u.is_bot,
            is_deleted: u.deleted,
        },
    )
}

/// The record of a custom emoji.
pub open spec fn emoji_record(entry: (Seq<char>, Seq<char>)) -> RecordModel {
    RecordModel::Emoji(EmojiModel { name: entry.0, url: entry.1 })
}

/// The record of a conversation.
pub open spec fn channel_record(c: SummaryModel) -> RecordModel {
    RecordModel::Channel(
        ChannelModel {
            slack_id: c.slack_id,
            name: c.name,
            kind: c.kind,
            topic: None,
            purpose: None,
            creator: None,
            created: None,
            is_archived: c.is_archived,
            members: c.members,
        },
    )
}

/// What a message says, as Slack wrote it; nothing when it has no text.
pub open spec fn raw_words(m: SlackMessage) -> Seq<char> {
    match m.text {
        Some(t) => t@,
        None => seq![],
    }
}

/// The unix seconds of a message's last edit.
pub open spec fn edited_secs(m: SlackMessage) -> Option<i64> {
    match m.edited {
        Some(e) => match e.ts {
            Some(ts) => ir::ts_secs(ts@),
            None => None,
        },
        None => None,
    }
}

/// The channel a message is in and the names its text is resolved with.
pub struct Setting {
    pub channel: Seq<char>,
    pub users: Map<Seq<char>, Seq<char>>,
    pub channels: Map<Seq<char>, Seq<char>>,
}

/// A message as it is imported.
pub open spec fn message_model(m: SlackMessage, at: Setting) -> MessageModel {
    MessageModel {
        slack_ts: m.ts->0@,
        channel_slack_id: at.channel,
        created_at: secs_of(m)->0,
        user_slack_id: m.user.deep_view(),
        bot_id: m.bot_id.deep_view(),
        author_override: m.username.deep_view(),
        text: normal_text(raw_words(m), at.users, at.channels),
        raw_text: raw_words(m),
        thread_ts: m.thread_ts.deep_view(),
        subtype: m.subtype.deep_view(),
        broadcast: handling_of(m.subtype.deep_view()) is Broadcast,
        edited_at: edited_secs(m),
        mentions: normal_mentions(raw_words(m)),
        file_ids: known_file_ids(m.files@),
    }
}

/// One emoji and one reactor for each reaction.
pub open spec fn exploded(rs: Seq<SlackReaction>) -> Seq<(Seq<char>, Seq<char>)>
    decreases rs.len(),
{
    if rs.len() == 0 {
        seq![]
    } else {
        let r = rs.last();
        exploded(rs.drop_last()) + Seq::new(r.users@.len(), |i: int| (r.name@, r.users@[i]@))
    }
}

/// The reactions to a message, ordered by emoji and reactor.
pub open spec fn reaction_records(m: SlackMessage, at: Setting) -> Seq<RecordModel> {
    let pairs = sorted_pairs(exploded(m.reactions@));
    Seq::new(
        pairs.len(),
        |i: int|
            RecordModel::Reaction(
                ReactionModel {
                    channel_slack_id: at.channel,
                    target_slack_ts: m.ts->0@,
                    name: pairs[i].0,
                    user_slack_id: pairs[i].1,
                },
            ),
    )
}

/// The record of a file that has an id.
pub open spec fn file_record(f: SlackFile, ts: Seq<char>, at: Setting) -> RecordModel {
    RecordModel::File(
        FileModel {
            slack_file_id: f.id->0@,
            channel_slack_id: at.channel,
            message_slack_ts: ts,
            name: f.name.deep_view(),
            mimetype: f.mimetype.deep_view(),
            size: f.size,
            url_private: f.url_private.deep_view(),
            permalink: f.permalink.deep_view(),
            is_deleted: f.gone(),
            is_external: f.is_external,
        },
    )
}

/// The records of the files that have an id.
pub open spec fn file_records(fs: Seq<SlackFile>, ts: Seq<char>, at: Setting) -> Seq<RecordModel>
    decreases fs.len(),
{
    if fs.len() == 0 {
        seq![]
    } else {
        let ahead = file_records(fs.drop_last(), ts, at);
        if fs.last().id is Some {
            ahead.push(file_record(fs.last(), ts, at))
        } else {
            ahead
        }
    }
}

/// Whether a message ends up in the IR: it is not dropped, and its `ts` is
/// usable.
pub open spec fn imported(m: SlackMessage, keep_joins: bool) -> bool {
    (keep_joins || !is_join(m)) && secs_of(m) is Some
}

/// What one message contributes: itself, then its reactions, then its files.
pub open spec fn message_records(m: SlackMessage, at: Setting, keep_joins: bool) -> Seq<
    RecordModel,
> {
    if imported(m, keep_joins) {
        seq![RecordModel::Message(message_model(m, at))] + reaction_records(m, at) + file_records(
            m.files@,
            m.ts->0@,
            at,
        )
    } else {
        seq![]
    }
}

/// What a run of messages contributes.
pub open spec fn messages_records(ms: Seq<SlackMessage>, at: Setting, keep_joins: bool) -> Seq<
    RecordModel,
>
    decreases ms.len(),
{
    if ms.len() == 0 {
        seq![]
    } else {
        messages_records(ms.drop_last(), at, keep_joins) + message_records(
            ms.last(),
            at,
            keep_joins,
        )
    }
}

// ── counts ───────────────────────────────────────────────────────────────────

/// The unknown subtypes with those of one more message.
pub open spec fn with_subtype(unknown: Map<Seq<char>, nat>, m: SlackMessage) -> Map<
    Seq<char>,
    nat,
> {
    if handling_of(m.subtype.deep_view()) is Unknown {
        bumped(unknown, m.subtype->0@)
    } else {
        unknown
    }
}

/// The counts with one more message.
pub open spec fn with_message(c: CountsModel, m: SlackMessage, keep_joins: bool) -> CountsModel {
    if !keep_joins && is_join(m) {
        CountsModel { dropped_joins: c.dropped_joins + 1, ..c }
    } else {
        let unknown_subtypes = with_subtype(c.unknown_subtypes, m);
        if secs_of(m) is None {
            CountsModel { skipped_unparseable: c.skipped_unparseable + 1, unknown_subtypes, ..c }
        } else {
            CountsModel {
                messages: c.messages + 1,
                thread_replies: c.thread_replies + if crate::probe::is_reply(m) {
                    1nat
                } else {
                    0nat
                },
                reactions: c.reactions + reactors(m.reactions@),
                files: c.files + known_file_ids(m.files@).len(),
                unknown_subtypes,
                ..c
            }
        }
    }
}

/// The counts with a run of messages.
pub open spec fn with_messages(c: CountsModel, ms: Seq<SlackMessage>, keep_joins: bool) -> CountsModel
    decreases ms.len(),
{
    if ms.len() == 0 {
        c
    } else {
        with_message(with_messages(c, ms.drop_last(), keep_joins), ms.last(), keep_joins)
    }
}

/// Whether every count is one the machine can hold.
pub open spec fn countable(c: CountsModel) -> bool {
    &&& c.users <= usize::MAX
    &&& c.channels <= usize::MAX
    &&& c.messages <= usize::MAX
    &&& c.thread_replies <= usize::MAX
    &&& c.reactions <= usize::MAX
    &&& c.files <= usize::MAX
    &&& c.emoji <= usize::MAX
    &&& c.dropped_joins <= usize::MAX
    &&& c.skipped_unparseable <= usize::MAX
    &&& forall|name: Seq<char>| #[trigger] count_in(c.unknown_subtypes, name) <= usize::MAX
}

/// Whether no count of `a` exceeds that of `b`.
pub open spec fn within(a: CountsModel, b: CountsModel) -> bool {
    &&& a.users <= b.users
    &&& a.channels <= b.channels
    &&& a.messages <= b.messages
    &&& a.thread_replies <= b.thread_replies
    &&& a.reactions <= b.reactions
    &&& a.files <= b.files
    &&& a.emoji <= b.emoji
    &&& a.dropped_joins <= b.dropped_joins
    &&& a.skipped_unparseable <= b.skipped_unparseable
    &&& forall|name: Seq<char>| #[trigger]
        count_in(a.unknown_subtypes, name) <= count_in(b.unknown_subtypes, name)
}

proof fn lemma_within_countable(a: CountsModel, b: CountsModel)
    requires
        within(a, b),
        countable(b),
    ensures
        countable(a),
{
    assert forall|name: Seq<char>| #[trigger] count_in(a.unknown_subtypes, name) <= usize::MAX by {
        assert(count_in(b.unknown_subtypes, name) <= usize::MAX);
    }
}

proof fn lemma_within_transitive(a: CountsModel, b: CountsModel, c: CountsModel)
    requires
        within(a, b),
        within(b, c),
    ensures
        within(a, c),
{
    assert forall|name: Seq<char>| #[trigger]
        count_in(a.unknown_subtypes, name) <= count_in(c.unknown_subtypes, name) by {
        assert(count_in(b.unknown_subtypes, name) <= count_in(c.unknown_subtypes, name));
    }
}

proof fn lemma_message_grows(c: CountsModel, m: SlackMessage, keep_joins: bool)
    ensures
        within(c, with_message(c, m, keep_joins)),
{
}

proof fn lemma_messages_grow(c: CountsModel, ms: Seq<SlackMessage>, keep_joins: bool, i: int)
    requires
        0 <= i <= ms.len(),
    ensures
        within(c, with_messages(c, ms, keep_joins)),
        within(with_messages(c, ms.take(i), keep_joins), with_messages(c, ms, keep_joins)),
    decreases ms.len(),
{
    if ms.len() > 0 {
        let front = ms.drop_last();
        let k = if i < ms.len() {
            i
        } else {
            ms.len() - 1
        };
        let mid = with_messages(c, front, keep_joins);
        lemma_messages_grow(c, front, keep_joins, k);
        lemma_message_grows(mid, ms.last(), keep_joins);
        lemma_within_transitive(c, mid, with_messages(c, ms, keep_joins));
        lemma_within_transitive(
            with_messages(c, front.take(k), keep_joins),
            mid,
            with_messages(c, ms, keep_joins),
        );
    }
    if i < ms.len() {
        assert(ms.drop_last().take(i) =~= ms.take(i));
    } else {
        assert(ms.take(i) =~= ms);
    }
}

pub proof fn lemma_exploded_len(rs: Seq<SlackReaction>)
    ensures
        exploded(rs).len() == reactors(rs),
        sorted_pairs(exploded(rs)).len() == reactors(rs),
    decreases rs.len(),
{
    if rs.len() > 0 {
        lemma_exploded_len(rs.drop_last());
    }
    crate::order::lemma_order_exists(exploded(rs));
}

pub proof fn lemma_file_records_len(fs: Seq<SlackFile>, ts: Seq<char>, at: Setting)
    ensures
        file_records(fs, ts, at).len() == known_file_ids(fs).len(),
    decreases fs.len(),
{
    if fs.len() > 0 {
        lemma_file_records_len(fs.drop_last(), ts, at);
    }
}

// ── one message ──────────────────────────────────────────────────────────────

fn collect_file_ids(files: &Vec<SlackFile>) -> (r: Vec<String>)
    ensures
        r.deep_view() == known_file_ids(files@),
{
    let mut r: Vec<String> = Vec::new();
    assert(r.deep_view() =~= seq![]);
    let mut i: usize = 0;
    while i < files.len()
        invariant
            i <= files@.len(),
            r.deep_view() == known_file_ids(files@.take(i as int)),
        decreases files@.len() - i,
    {
        let ghost was = r.deep_view();
        assert(files@.take(i + 1).drop_last() =~= files@.take(i as int));
        if let Some(id) = &files[i].id {
            r.push(id.clone());
            assert(r.deep_view() =~= was.push(id@));
        }
        i += 1;
    }
    assert(files@.take(i as int) =~= files@);
    r
}

fn explode(reactions: &Vec<SlackReaction>) -> (r: Vec<(String, String)>)
    ensures
        r.deep_view() == exploded(reactions@),
{
    let mut r: Vec<(String, String)> = Vec::new();
    assert(r.deep_view() =~= seq![]);
    let mut i: usize = 0;
    while i < reactions.len()
        invariant
            i <= reactions@.len(),
            r.deep_view() == exploded(reactions@.take(i as int)),
        decreases reactions@.len() - i,
    {
        let ghost was = r.deep_view();
        let reaction = &reactions[i];
        let ghost new = Seq::new(
            reaction.users@.len(),
            |k: int| (reaction.name@, reaction.users@[k]@),
        );
        assert(reactions@.take(i + 1).drop_last() =~= reactions@.take(i as int));
        let mut k: usize = 0;
        assert(r.deep_view() =~= was + new.take(0));
        while k < reaction.users.len()
            invariant
                k <= reaction.users@.len(),
                new == Seq::new(
                    reaction.users@.len(),
                    |k: int| (reaction.name@, reaction.users@[k]@),
                ),
                r.deep_view() == was + new.take(k as int),
            decreases reaction.users@.len() - k,
        {
            let ghost before = r.deep_view();
            r.push((reaction.name.clone(), reaction.users[k].clone()));
            assert(r.deep_view() =~= before.push(new[k as int]));
            k += 1;
            assert(before.push(new[k - 1]) =~= was + new.take(k as int));
        }
        assert(new.take(k as int) =~= new);
        i += 1;
    }
    assert(reactions@.take(i as int) =~= reactions@);
    r
}

fn is_unknown(message: &SlackMessage) -> (r: bool)
    ensures
        r == handling_of(message.subtype.deep_view()) is Unknown,
{
    slack::handling(subtype_of(message)) == Handling::Unknown
}

/// Turn one message into its record.
fn build_message(
    message: &SlackMessage,
    slack_ts: &String,
    created_at: i64,
    channel: &String,
    resolver: &Resolver,
) -> (r: ir::Message)
    requires
        message.ts matches Some(ts) && ts@ == slack_ts@,
        secs_of(*message) == Some(created_at),
    ensures
        r.deep_view() == message_model(
            *message,
            Setting { channel: channel@, users: resolver.users@, channels: resolver.channels@ },
        ),
{
    let raw_text = match &message.text {
        Some(t) => t.clone(),
        None => String::new(),
    };
    let normalized = mrkdwn::normalize(raw_text.as_str(), resolver);
    let edited_at: Option<i64> = match &message.edited {
        Some(e) => match &e.ts {
            Some(ts) => ts_to_unix_secs(ts.as_str()),
            None => None,
        },
        None => None,
    };
    let broadcast = slack::handling(subtype_of(message)) == Handling::Broadcast;
    let r = ir::Message {
        slack_ts: slack_ts.clone(),
        channel_slack_id: channel.clone(),
        created_at,
        user_slack_id: text::copy_opt(&message.user),
        bot_id: text::copy_opt(&message.bot_id),
        author_override: text::copy_opt(&message.username),
        text: normalized.text,
        raw_text,
        thread_ts: text::copy_opt(&message.thread_ts),
        subtype: text::copy_opt(&message.subtype),
        broadcast,
        edited_at,
        mentions: normalized.mentions,
        file_ids: collect_file_ids(&message.files),
    };
    assert(raw_text@ =~= raw_words(*message));
    assert(r.deep_view() =~= message_model(
        *message,
        Setting { channel: channel@, users: resolver.users@, channels: resolver.channels@ },
    ));
    r
}

/// Append the reactions to a message, exploded per reactor and ordered
/// (emoji, reactor) so the output is stable.
fn push_reactions(
    message: &SlackMessage,
    slack_ts: &String,
    channel: &String,
    body: &mut Vec<Record>,
    Ghost(at): Ghost<Setting>,
) -> (n: usize)
    requires
        message.ts matches Some(ts) && ts@ == slack_ts@,
        at.channel == channel@,
    ensures
        final(body).deep_view() == old(body).deep_view() + reaction_records(*message, at),
        n == reactors(message.reactions@),
{
    let ghost start = body.deep_view();
    let ghost all = reaction_records(*message, at);
    let pairs = sort_pairs(&explode(&message.reactions));
    let ghost ps = pairs.deep_view();
    proof {
        lemma_exploded_len(message.reactions@);
    }
    let mut i: usize = 0;
    assert(body.deep_view() =~= start + all.take(0));
    while i < pairs.len()
        invariant
            i <= pairs@.len(),
            ps == pairs.deep_view(),
            ps == sorted_pairs(exploded(message.reactions@)),
            message.ts matches Some(ts) && ts@ == slack_ts@,
            at.channel == channel@,
            all == reaction_records(*message, at),
            body.deep_view() == start + all.take(i as int),
        decreases pairs@.len() - i,
    {
        let ghost was = body.deep_view();
        let record = Record::Reaction(
            ir::Reaction {
                channel_slack_id: channel.clone(),
                target_slack_ts: slack_ts.clone(),
                name: pairs[i].0.clone(),
                user_slack_id: pairs[i].1.clone(),
            },
        );
        assert(ps[i as int] == (pairs@[i as int].0@, pairs@[i as int].1@));
        assert(record.deep_view() == all[i as int]);
        body.push(record);
        assert(body.deep_view() =~= was.push(all[i as int]));
        i += 1;
        assert(was.push(all[i - 1]) =~= start + all.take(i as int));
    }
    assert(all.take(i as int) =~= all);
    pairs.len()
}

/// Append the files of a message.
fn push_files(
    message: &SlackMessage,
    slack_ts: &String,
    channel: &String,
    body: &mut Vec<Record>,
    Ghost(at): Ghost<Setting>,
) -> (n: usize)
    requires
        at.channel == channel@,
    ensures
        final(body).deep_view() == old(body).deep_view() + file_records(
            message.files@,
            slack_ts@,
            at,
        ),
        n == known_file_ids(message.files@).len(),
{
    let ghost start = body.deep_view();
    let ghost fs = message.files@;
    let files = &message.files;
    let mut n: usize = 0;
    let mut i: usize = 0;
    assert(body.deep_view() =~= start + file_records(fs.take(0), slack_ts@, at));
    while i < files.len()
        invariant
            n <= i <= files@.len(),
            fs == files@,
            *files == message.files,
            at.channel == channel@,
            n == known_file_ids(fs.take(i as int)).len(),
            body.deep_view() == start + file_records(fs.take(i as int), slack_ts@, at),
        decreases files@.len() - i,
    {
        let ghost was = body.deep_view();
        assert(fs.take(i + 1).drop_last() =~= fs.take(i as int));
        let file = &files[i];
        if let Some(id) = &file.id {
            let record = Record::File(
                ir::FileRef {
                    slack_file_id: id.clone(),
                    channel_slack_id: channel.clone(),
                    message_slack_ts: slack_ts.clone(),
                    name: text::copy_opt(&file.name),
                    mimetype: text::copy_opt(&file.mimetype),
                    size: file.size,
                    url_private: text::copy_opt(&file.url_private),
                    permalink: text::copy_opt(&file.permalink),
                    is_deleted: file.is_gone(),
                    is_external: file.is_external,
                },
            );
            assert(record.deep_view() == file_record(*file, slack_ts@, at));
            body.push(record);
            n += 1;
            assert(body.deep_view() =~= was.push(file_record(*file, slack_ts@, at)));
            assert(body.deep_view() =~= start + file_records(fs.take(i + 1), slack_ts@, at));
        }
        i += 1;
    }
    assert(fs.take(i as int) =~= fs);
    n
}

/// Append what one message contributes, and count it.
fn push_message(
    message: &SlackMessage,
    channel: &String,
    resolver: &Resolver,
    options: &Options,
    body: &mut Vec<Record>,
    counts: &mut Counts,
)
    requires
        countable(with_message(old(counts).deep_view(), *message, options.keep_joins)),
    ensures
        final(body).deep_view() == old(body).deep_view() + message_records(
            *message,
            Setting { channel: channel@, users: resolver.users@, channels: resolver.channels@ },
            options.keep_joins,
        ),
        final(counts).deep_view() == with_message(
            old(counts).deep_view(),
            *message,
            options.keep_joins,
        ),
{
    let ghost at = Setting {
        channel: channel@,
        users: resolver.users@,
        channels: resolver.channels@,
    };
    let ghost start = body.deep_view();
    let ghost before = counts.deep_view();
    let ghost after = with_message(before, *message, options.keep_joins);
    let subtype = subtype_of(message);
    if !options.keep_joins && slack::is_join_leave(subtype) {
        counts.dropped_joins += 1;
        assert(start + seq![] =~= start);
        return ;
    }
    // Imported anyway, but counted so the operator learns this build did not
    // recognise the subtype.
    if is_unknown(message) {
        if let Some(subtype) = &message.subtype {
            proof {
                assert(count_in(after.unknown_subtypes, subtype@) == count_in(
                    before.unknown_subtypes,
                    subtype@,
                ) + 1);
            }
            counts.unknown_subtypes.bump(subtype.as_str());
        }
    }
    let slack_ts = match &message.ts {
        Some(ts) => ts,
        None => {
            counts.skipped_unparseable += 1;
            assert(start + seq![] =~= start);
            return ;
        },
    };
    let created_at: i64 = match ts_to_unix_secs(slack_ts.as_str()) {
        Some(t) => t,
        None => {
            counts.skipped_unparseable += 1;
            assert(start + seq![] =~= start);
            return ;
        },
    };
    let ir_message = build_message(message, slack_ts, created_at, channel, resolver);
    if ir_message.is_thread_reply() {
        counts.thread_replies += 1;
    }
    counts.messages += 1;
    let record = Record::Message(ir_message);
    let ghost first = seq![RecordModel::Message(message_model(*message, at))];
    body.push(record);
    assert(body.deep_view() =~= start + first);
    // Reactions and files immediately after their message.
    let reactions = push_reactions(message, slack_ts, channel, body, Ghost(at));
    counts.reactions += reactions;
    let files = push_files(message, slack_ts, channel, body, Ghost(at));
    counts.files += files;
    assert(body.deep_view() =~= start + (first + reaction_records(*message, at) + file_records(
        message.files@,
        slack_ts@,
        at,
    )));
    assert(counts.deep_view() =~= after);
}

// ── one conversation ─────────────────────────────────────────────────────────

/// The messages of one directory's day files, as they stand there.
pub open spec fn gathered(days: Seq<DayFile>, dir: Seq<char>) -> Seq<SlackMessage>
    decreases days.len(),
{
    if days.len() == 0 {
        seq![]
    } else {
        let ahead = gathered(days.drop_last(), dir);
        if days.last().dir@ == dir && days.last().messages is Some {
            ahead + days.last().messages->0@
        } else {
            ahead
        }
    }
}

/// How many of one directory's day files do not parse.
pub open spec fn unparsed(days: Seq<DayFile>, dir: Seq<char>) -> nat
    decreases days.len(),
{
    if days.len() == 0 {
        0
    } else {
        unparsed(days.drop_last(), dir) + if days.last().dir@ == dir && days.last().messages is None {
            1nat
        } else {
            0nat
        }
    }
}

/// What a conversation's messages contribute.
pub open spec fn conversation_records(
    days: Seq<DayFile>,
    dir: Seq<char>,
    at: Setting,
    keep_joins: bool,
) -> Seq<RecordModel> {
    messages_records(in_order(gathered(days, dir)), at, keep_joins)
}

/// The counts with a conversation's messages.
pub open spec fn with_conversation(
    c: CountsModel,
    days: Seq<DayFile>,
    dir: Seq<char>,
    keep_joins: bool,
) -> CountsModel {
    with_messages(
        CountsModel { skipped_unparseable: c.skipped_unparseable + unparsed(days, dir), ..c },
        in_order(gathered(days, dir)),
        keep_joins,
    )
}

proof fn lemma_unparsed_grows(days: Seq<DayFile>, dir: Seq<char>, i: int)
    requires
        0 <= i <= days.len(),
    ensures
        unparsed(days.take(i), dir) <= unparsed(days, dir),
    decreases days.len(),
{
    if i < days.len() {
        lemma_unparsed_grows(days.drop_last(), dir, i);
        assert(days.drop_last().take(i) =~= days.take(i));
    } else {
        assert(days.take(i) =~= days);
    }
}

/// Append what a conversation's messages contribute, and count it.
///
/// The whole conversation is collected before anything is appended so it can be
/// sorted by timestamp. Slack's day files are chronological individually, but a
/// thread reply can live in a later file than its root, and we want one stable
/// order regardless.
fn parse_conversation(
    days: &Vec<DayFile>,
    dir: &str,
    channel: &String,
    resolver: &Resolver,
    options: &Options,
    body: &mut Vec<Record>,
    counts: &mut Counts,
)
    requires
        countable(with_conversation(old(counts).deep_view(), days@, dir@, options.keep_joins)),
    ensures
        final(body).deep_view() == old(body).deep_view() + conversation_records(
            days@,
            dir@,
            Setting { channel: channel@, users: resolver.users@, channels: resolver.channels@ },
            options.keep_joins,
        ),
        final(counts).deep_view() == with_conversation(
            old(counts).deep_view(),
            days@,
            dir@,
            options.keep_joins,
        ),
{
    let ghost at = Setting {
        channel: channel@,
        users: resolver.users@,
        channels: resolver.channels@,
    };
    let ghost start = body.deep_view();
    let ghost before = counts.deep_view();
    let ghost mid = CountsModel {
        skipped_unparseable: before.skipped_unparseable + unparsed(days@, dir@),
        ..before
    };
    let ghost all = gathered(days@, dir@);
    let ghost sorted = in_order(all);
    let ghost total = with_messages(mid, sorted, options.keep_joins);
    proof {
        lemma_messages_grow(mid, sorted, options.keep_joins, 0);
    }
    let mut messages: Vec<&SlackMessage> = Vec::new();
    assert(owned(messages@) =~= seq![]);
    let mut d: usize = 0;
    assert(counts.deep_view() =~= before);
    while d < days.len()
        invariant
            d <= days@.len(),
            before.skipped_unparseable + unparsed(days@, dir@) <= usize::MAX,
            owned(messages@) == gathered(days@.take(d as int), dir@),
            counts.deep_view() == (CountsModel {
                skipped_unparseable: before.skipped_unparseable + unparsed(
                    days@.take(d as int),
                    dir@,
                ),
                ..before
            }),
        decreases days@.len() - d,
    {
        proof {
            assert(days@.take(d + 1).drop_last() =~= days@.take(d as int));
            lemma_unparsed_grows(days@, dir@, d + 1);
        }
        if same(days[d].dir.as_str(), dir) {
            match &days[d].messages {
                Some(ms) => {
                    let ghost was = owned(messages@);
                    let mut k: usize = 0;
                    assert(was + ms@.take(0) =~= was);
                    while k < ms.len()
                        invariant
                            k <= ms@.len(),
                            owned(messages@) == was + ms@.take(k as int),
                        decreases ms@.len() - k,
                    {
                        let ghost prior = owned(messages@);
                        messages.push(&ms[k]);
                        assert(owned(messages@) =~= prior.push(ms@[k as int]));
                        k += 1;
                        assert(prior.push(ms@[k - 1]) =~= was + ms@.take(k as int));
                    }
                    assert(ms@.take(k as int) =~= ms@);
                },
                None => {
                    counts.skipped_unparseable += 1;
                },
            }
        }
        d += 1;
    }
    assert(days@.take(d as int) =~= days@);
    assert(counts.deep_view() =~= mid);

    let order = order_messages(&messages);
    let ghost o = positions(order@);
    let mut i: usize = 0;
    assert(sorted.take(0) =~= seq![]);
    assert(start + messages_records(sorted.take(0), at, options.keep_joins) =~= start);
    while i < order.len()
        invariant
            i <= order@.len(),
            o == positions(order@),
            o == order_of(moments(all)),
            sorts(moments(all), o),
            owned(messages@) == all,
            sorted == in_order(all),
            countable(total),
            total == with_messages(mid, sorted, options.keep_joins),
            at == (Setting {
                channel: channel@,
                users: resolver.users@,
                channels: resolver.channels@,
            }),
            body.deep_view() == start + messages_records(
                sorted.take(i as int),
                at,
                options.keep_joins,
            ),
            counts.deep_view() == with_messages(mid, sorted.take(i as int), options.keep_joins),
        decreases order@.len() - i,
    {
        assert(0 <= o[i as int] < all.len());
        let message: &SlackMessage = messages[order[i]];
        proof {
            assert(sorted[i as int] == all[o[i as int]]);
            assert(*message == sorted[i as int]);
            assert(sorted.take(i + 1).drop_last() =~= sorted.take(i as int));
            lemma_messages_grow(mid, sorted, options.keep_joins, i + 1);
            lemma_within_countable(
                with_messages(mid, sorted.take(i + 1), options.keep_joins),
                total,
            );
        }
        let ghost was = body.deep_view();
        push_message(message, channel, resolver, options, body, counts);
        assert(body.deep_view() =~= start + messages_records(
            sorted.take(i + 1),
            at,
            options.keep_joins,
        ));
        i += 1;
    }
    assert(sorted.take(i as int) =~= sorted);
}

// ── the whole import ─────────────────────────────────────────────────────────

/// The first conversation with this id.
pub open spec fn lookup(cs: Seq<SummaryModel>, id: Seq<char>) -> Option<SummaryModel>
    decreases cs.len(),
{
    if cs.len() == 0 {
        None
    } else if cs[0].slack_id == id {
        Some(cs[0])
    } else {
        lookup(cs.drop_first(), id)
    }
}

/// What `parse` is told: the inventory, the day files and the options.
pub struct Scene {
    pub users: Seq<SlackUser>,
    pub conversations: Seq<SummaryModel>,
    pub days: Seq<DayFile>,
    pub keep_joins: bool,
}

impl Scene {
    pub open spec fn setting(self, channel: Seq<char>) -> Setting {
        Setting {
            channel,
            users: user_names(self.users),
            channels: channel_names(self.conversations),
        }
    }

    /// What one conversation contributes: the channel, then its messages.
    pub open spec fn channel_part(self, c: SummaryModel) -> Seq<RecordModel> {
        seq![channel_record(c)] + match c.dir {
            Some(dir) => conversation_records(
                self.days,
                dir,
                self.setting(c.slack_id),
                self.keep_joins,
            ),
            None => seq![],
        }
    }

    /// What the selected conversations contribute.
    pub open spec fn channel_parts(self, selected: Seq<Seq<char>>) -> Seq<RecordModel>
        decreases selected.len(),
    {
        if selected.len() == 0 {
            seq![]
        } else {
            self.channel_parts(selected.drop_last()) + match lookup(
                self.conversations,
                selected.last(),
            ) {
                Some(c) => self.channel_part(c),
                None => seq![],
            }
        }
    }

    /// The counts with one conversation.
    pub open spec fn with_channel(self, counts: CountsModel, c: SummaryModel) -> CountsModel {
        let listed = CountsModel { channels: counts.channels + 1, ..counts };
        match c.dir {
            Some(dir) => with_conversation(listed, self.days, dir, self.keep_joins),
            None => listed,
        }
    }

    /// The counts with the selected conversations.
    pub open spec fn with_channels(
        self,
        counts: CountsModel,
        selected: Seq<Seq<char>>,
    ) -> CountsModel
        decreases selected.len(),
    {
        if selected.len() == 0 {
            counts
        } else {
            let ahead = self.with_channels(counts, selected.drop_last());
            match lookup(self.conversations, selected.last()) {
                Some(c) => self.with_channel(ahead, c),
                None => ahead,
            }
        }
    }

    /// The first selected id at or after `from` that no conversation has.
    pub open spec fn first_missing(self, selected: Seq<Seq<char>>, from: int) -> Option<Seq<char>>
        decreases selected.len() - from,
    {
        if !(0 <= from < selected.len()) {
            None
        } else if lookup(self.conversations, selected[from]) is None {
            Some(selected[from])
        } else {
            self.first_missing(selected, from + 1)
        }
    }

    /// The counts of the whole import, custom emoji aside.
    pub open spec fn figures(self, selected: Seq<Seq<char>>) -> CountsModel {
        self.with_channels(CountsModel { users: self.users.len(), ..ir::no_counts() }, selected)
    }

    /// The counts of the whole import.
    pub open spec fn counts(
        self,
        selected: Seq<Seq<char>>,
        emoji: Seq<(Seq<char>, Seq<char>)>,
    ) -> CountsModel {
        CountsModel { emoji: emoji.len(), ..self.figures(selected) }
    }

    /// The records of the whole import, after the header.
    pub open spec fn body(
        self,
        selected: Seq<Seq<char>>,
        emoji: Seq<(Seq<char>, Seq<char>)>,
    ) -> Seq<RecordModel> {
        Seq::new(self.users.len(), |i: int| user_record(self.users[i])) + Seq::new(
            emoji.len(),
            |i: int| emoji_record(emoji[i]),
        ) + self.channel_parts(selected)
    }

    /// The header of the whole import.
    pub open spec fn header(
        self,
        selected: Seq<Seq<char>>,
        emoji: Seq<(Seq<char>, Seq<char>)>,
    ) -> HeaderModel {
        HeaderModel {
            ir_version: ir::IR_VERSION,
            generator: "slack2buzz 0.1.0"@,
            source: "slack"@,
            team_id: None,
            selected_channels: selected,
            skipped_channels: skipped_ids(selected, self.conversations),
            counts: self.counts(selected, emoji),
        }
    }
}

/// What `parse` is told, in one value.
pub open spec fn scene(export: Export, inventory: Inventory, options: Options) -> Scene {
    Scene {
        users: inventory.users@,
        conversations: inventory.models(),
        days: export.days@,
        keep_joins: options.keep_joins,
    }
}

/// An import: its counts, and its records with the header first.
#[derive(Debug, PartialEq)]
pub struct Import {
    pub counts: Counts,
    pub records: Vec<Record>,
}

/// The model of an [`Import`].
#[verifier::ext_equal]
pub struct ImportModel {
    pub counts: CountsModel,
    pub records: Seq<RecordModel>,
}

impl DeepView for Import {
    type V = ImportModel;

    open spec fn deep_view(&self) -> ImportModel {
        ImportModel { counts: self.counts.deep_view(), records: self.records.deep_view() }
    }
}

/// What parsing comes to.
pub open spec fn parsed(
    s: Scene,
    selected: Seq<Seq<char>>,
    emoji: Seq<(Seq<char>, Seq<char>)>,
) -> Result<ImportModel, Failure> {
    match s.first_missing(selected, 0) {
        Some(id) => Err(Failure::UnknownSelectedConversation { id }),
        None => Ok(
            ImportModel {
                counts: s.counts(selected, emoji),
                records: seq![RecordModel::Header(s.header(selected, emoji))] + s.body(
                    selected,
                    emoji,
                ),
            },
        ),
    }
}

proof fn lemma_channels_grow(s: Scene, c: CountsModel, selected: Seq<Seq<char>>, i: int)
    requires
        0 <= i <= selected.len(),
    ensures
        within(c, s.with_channels(c, selected)),
        within(s.with_channels(c, selected.take(i)), s.with_channels(c, selected)),
    decreases selected.len(),
{
    if selected.len() > 0 {
        let front = selected.drop_last();
        let k = if i < selected.len() {
            i
        } else {
            selected.len() - 1
        };
        let mid = s.with_channels(c, front);
        lemma_channels_grow(s, c, front, k);
        match lookup(s.conversations, selected.last()) {
            Some(x) => lemma_channel_grows(s, mid, x),
            None => {},
        }
        lemma_within_transitive(c, mid, s.with_channels(c, selected));
        lemma_within_transitive(
            s.with_channels(c, front.take(k)),
            mid,
            s.with_channels(c, selected),
        );
    }
    if i < selected.len() {
        assert(selected.drop_last().take(i) =~= selected.take(i));
    } else {
        assert(selected.take(i) =~= selected);
    }
}

proof fn lemma_channel_grows(s: Scene, c: CountsModel, x: SummaryModel)
    ensures
        within(c, s.with_channel(c, x)),
{
    let listed = CountsModel { channels: c.channels + 1, ..c };
    match x.dir {
        Some(dir) => {
            let mid = CountsModel {
                skipped_unparseable: listed.skipped_unparseable + unparsed(s.days, dir),
                ..listed
            };
            lemma_messages_grow(mid, in_order(gathered(s.days, dir)), s.keep_joins, 0);
            lemma_within_transitive(c, mid, s.with_channel(c, x));
        },
        None => {},
    }
}

fn find_conversation<'a>(conversations: &'a Vec<ConversationSummary>, id: &String) -> (r: Option<
    &'a ConversationSummary,
>)
    ensures
        r.deep_view() == lookup(conversations.deep_view(), id@),
{
    let ghost cs = conversations.deep_view();
    let mut i: usize = 0;
    assert(cs.skip(0) =~= cs);
    while i < conversations.len()
        invariant
            i <= conversations@.len(),
            cs == conversations.deep_view(),
            lookup(cs, id@) == lookup(cs.skip(i as int), id@),
        decreases conversations@.len() - i,
    {
        assert(cs.skip(i as int)[0] == conversations@[i as int].deep_view());
        assert(cs.skip(i as int).drop_first() =~= cs.skip(i + 1));
        if conversations[i].slack_id == *id {
            return Some(&conversations[i]);
        }
        i += 1;
    }
    None
}

fn copy_channel(c: &ConversationSummary) -> (r: Record)
    ensures
        r.deep_view() == channel_record(c.deep_view()),
{
    Record::Channel(
        ir::Channel {
            slack_id: c.slack_id.clone(),
            name: text::copy_opt(&c.name),
            kind: c.kind,
            topic: None,
            purpose: None,
            creator: None,
            created: None,
            is_archived: c.is_archived,
            members: text::copy_all(&c.members),
        },
    )
}

fn push_users(inventory: &Inventory, body: &mut Vec<Record>)
    ensures
        final(body).deep_view() == old(body).deep_view() + Seq::new(
            inventory.users@.len(),
            |i: int| user_record(inventory.users@[i]),
        ),
{
    let ghost start = body.deep_view();
    let ghost all = Seq::new(
        inventory.users@.len(),
        |i: int| user_record(inventory.users@[i]),
    );
    let mut i: usize = 0;
    assert(body.deep_view() =~= start + all.take(0));
    while i < inventory.users.len()
        invariant
            i <= inventory.users@.len(),
            all == Seq::new(
                inventory.users@.len(),
                |i: int| user_record(inventory.users@[i]),
            ),
            body.deep_view() == start + all.take(i as int),
        decreases inventory.users@.len() - i,
    {
        let ghost was = body.deep_view();
        let user = &inventory.users[i];
        let record = Record::User(
            ir::User {
                slack_id: user.id.clone(),
                name: user.name.clone(),
                display_name: user.best_display_name(),
                real_name: user.real_name(),
                avatar_url: user.avatar_url(),
                timezone: text::copy_opt(&user.tz),
                is_bot: user.is_bot,
                is_deleted: user.deleted,
            },
        );
        assert(record.deep_view() == all[i as int]);
        body.push(record);
        assert(body.deep_view() =~= was.push(all[i as int]));
        i += 1;
        assert(was.push(all[i - 1]) =~= start + all.take(i as int));
    }
    assert(all.take(i as int) =~= all);
}

fn push_emoji(emoji: &Vec<(String, String)>, body: &mut Vec<Record>)
    ensures
        final(body).deep_view() == old(body).deep_view() + Seq::new(
            emoji.deep_view().len(),
            |i: int| emoji_record(emoji.deep_view()[i]),
        ),
{
    let ghost start = body.deep_view();
    let ghost es = emoji.deep_view();
    let ghost all = Seq::new(es.len(), |i: int| emoji_record(es[i]));
    let mut i: usize = 0;
    assert(body.deep_view() =~= start + all.take(0));
    while i < emoji.len()
        invariant
            i <= emoji@.len(),
            es == emoji.deep_view(),
            all == Seq::new(es.len(), |i: int| emoji_record(es[i])),
            body.deep_view() == start + all.take(i as int),
        decreases emoji@.len() - i,
    {
        let ghost was = body.deep_view();
        let record = Record::Emoji(
            ir::Emoji { name: emoji[i].0.clone(), url: emoji[i].1.clone() },
        );
        assert(es[i as int] == (emoji@[i as int].0@, emoji@[i as int].1@));
        assert(record.deep_view() == all[i as int]);
        body.push(record);
        assert(body.deep_view() =~= was.push(all[i as int]));
        i += 1;
        assert(was.push(all[i - 1]) =~= start + all.take(i as int));
    }
    assert(all.take(i as int) =~= all);
}

/// Parse the selected conversations, given the custom emoji.
///
/// The header carries the counts, so it can only be made once the body is known.
pub fn parse_with(
    export: &Export,
    inventory: &Inventory,
    selected: &Vec<String>,
    options: &Options,
    emoji: &Vec<(String, String)>,
) -> (r: Result<Import, Error>)
    requires
        countable(scene(*export, *inventory, *options).figures(selected.deep_view())),
    ensures
        outcome(r) == parsed(
            scene(*export, *inventory, *options),
            selected.deep_view(),
            emoji.deep_view(),
        ),
{
    let ghost s = scene(*export, *inventory, *options);
    let ghost es = emoji.deep_view();
    let ghost ids = selected.deep_view();
    let ghost users_part = Seq::new(s.users.len(), |i: int| user_record(s.users[i]));
    let ghost emoji_part = Seq::new(es.len(), |i: int| emoji_record(es[i]));
    let resolver = build_resolver(inventory);
    let mut body: Vec<Record> = Vec::new();
    assert(body.deep_view() =~= seq![]);
    // Users first: every later record refers to them.
    push_users(inventory, &mut body);
    assert(body.deep_view() =~= users_part);
    push_emoji(emoji, &mut body);
    let ghost lead = users_part + emoji_part;
    assert(body.deep_view() =~= lead);
    let mut counts = Counts::default();
    counts.users = inventory.users.len();
    let ghost base = CountsModel { users: s.users.len(), ..ir::no_counts() };
    assert(counts.deep_view() =~= base);

    let mut i: usize = 0;
    assert(ids.take(0) =~= seq![]);
    assert(lead + s.channel_parts(ids.take(0)) =~= lead);
    while i < selected.len()
        invariant
            i <= selected@.len(),
            s == scene(*export, *inventory, *options),
            ids == selected.deep_view(),
            countable(s.with_channels(base, ids)),
            resolver.users@ == user_names(s.users),
            resolver.channels@ == channel_names(s.conversations),
            s.first_missing(ids, 0) == s.first_missing(ids, i as int),
            body.deep_view() == lead + s.channel_parts(ids.take(i as int)),
            counts.deep_view() == s.with_channels(base, ids.take(i as int)),
        decreases selected@.len() - i,
    {
        assert(ids[i as int] == selected@[i as int]@);
        let ghost so_far = s.channel_parts(ids.take(i as int));
        let ghost counted = counts.deep_view();
        proof {
            assert(ids.take(i + 1).drop_last() =~= ids.take(i as int));
            lemma_channels_grow(s, base, ids, i + 1);
            lemma_within_countable(
                s.with_channels(base, ids.take(i + 1)),
                s.with_channels(base, ids),
            );
        }
        let summary = match find_conversation(&inventory.conversations, &selected[i]) {
            Some(c) => c,
            None => {
                return Err(Error::UnknownSelectedConversation { id: selected[i].clone() });
            },
        };
        let ghost c = summary.deep_view();
        assert(lookup(s.conversations, ids[i as int]) == Some(c));
        assert(s.with_channels(base, ids.take(i + 1)) == s.with_channel(counted, c));
        proof {
            let listed = CountsModel { channels: counted.channels + 1, ..counted };
            if c.dir is Some {
                let mid = CountsModel {
                    skipped_unparseable: listed.skipped_unparseable + unparsed(s.days, c.dir->0),
                    ..listed
                };
                lemma_messages_grow(
                    mid,
                    in_order(gathered(s.days, c.dir->0)),
                    s.keep_joins,
                    0,
                );
            }
        }
        let channel = copy_channel(summary);
        let ghost prior = body.deep_view();
        body.push(channel);
        counts.channels += 1;
        let ghost with_head = body.deep_view();
        assert(with_head =~= prior.push(channel_record(c)));
        assert(with_head =~= lead + (so_far + seq![channel_record(c)]));
        if let Some(dir) = &summary.dir {
            parse_conversation(
                &export.days,
                dir.as_str(),
                &summary.slack_id,
                &resolver,
                options,
                &mut body,
                &mut counts,
            );
        }
        assert(body.deep_view() =~= lead + (so_far + s.channel_part(c)));
        i += 1;
    }
    assert(ids.take(i as int) =~= ids);
    counts.emoji = emoji.len();
    assert(es.len() == emoji@.len());
    assert(counts.deep_view() =~= s.counts(ids, es));
    let header = ir::Header {
        ir_version: ir::IR_VERSION,
        generator: "slack2buzz 0.1.0".to_string(),
        source: "slack".to_string(),
        team_id: None,
        selected_channels: text::copy_all(selected),
        skipped_channels: complement(&inventory.conversations, selected),
        counts: counts.clone(),
    };
    assert(header.deep_view() =~= s.header(ids, es));
    let ghost rest = body.deep_view();
    let mut records: Vec<Record> = Vec::new();
    records.push(Record::Header(header));
    records.append(&mut body);
    assert(records.deep_view() =~= seq![RecordModel::Header(s.header(ids, es))] + rest);
    Ok(Import { counts, records })
}

/// Parse the selected conversations.
///
/// `selected` is a list of Slack conversation ids, normally straight from
/// [`crate::selection::resolve`]. `inventory` supplies the conversation
/// metadata and the user table, so `parse` never re-reads the manifests. Custom
/// emoji come in order of their names.
pub fn parse(
    export: &Export,
    inventory: &Inventory,
    selected: &Vec<String>,
    options: &Options,
) -> (r: Result<Import, Error>)
    requires
        countable(scene(*export, *inventory, *options).figures(selected.deep_view())),
    ensures
        match export.emoji {
            Some(json) => match emoji_entries(json@) {
                Some(table) => table_ascends(table) && outcome(r) == parsed(
                    scene(*export, *inventory, *options),
                    selected.deep_view(),
                    table,
                ),
                None => outcome(r) == Err::<ImportModel, Failure>(
                    Failure::Json { what: "emoji.json"@ },
                ),
            },
            None => outcome(r) == parsed(
                scene(*export, *inventory, *options),
                selected.deep_view(),
                seq![],
            ),
        },
{
    match export.emoji_table() {
        Ok(emoji) => parse_with(export, inventory, selected, options, &emoji),
        Err(e) => Err(e),
    }
}

} // verus!
