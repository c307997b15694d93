//! `probe` — report what an export actually contains, before anything is sent.
//!
//! This is the Slack-tier detection. A workspace on the free plan exports only
//! public channels; paid plans can include private channels and DMs, and an
//! operator often does not know which they asked for until they look. We derive
//! it from the export and never ask, because the export is the ground truth and
//! the operator's belief frequently is not.
//!
//! Probing reads message files to count them but keeps nothing but tallies:
//! [`survey`] lists the conversations, and [`tally_day`] counts one day file at
//! a time.

use vstd::prelude::*;

use crate::export::{emoji_entries, DayFile, Export};
use crate::error::{Error, Failure};
use crate::ir::{ts_secs, ts_to_unix_secs, ChannelKind};
use crate::order::{lemma_kept, sort_set, sorted_set};
use crate::slack::{is_join_leave, join_leave_subtype, SlackConversation, SlackFile, SlackMessage, SlackReaction, SlackUser};
use crate::text;
use crate::text::{holds, same};

pub mod laws;

verus! {

/// What tiers of conversation the export turned out to contain.
#[derive(Debug, Clone, Copy, PartialEq, Eq, Structural)]
pub enum ExportScope {
    /// Public channels only — the free-plan shape.
    PublicOnly,
    /// Public plus private channels.
    WithPrivate,
    /// Includes direct messages.
    WithDms,
}

impl ExportScope {
    /// The scope in words.
    pub open spec fn words(self) -> Seq<char> {
        match self {
            ExportScope::PublicOnly => "public channels only"@,
            ExportScope::WithPrivate => "public and private channels"@,
            ExportScope::WithDms => "public channels, private channels and direct messages"@,
        }
    }

    pub fn describe(self) -> (r: &'static str)
        ensures
            r@ == self.words(),
    {
        match self {
            ExportScope::PublicOnly => "public channels only",
            ExportScope::WithPrivate => "public and private channels",
            ExportScope::WithDms => "public channels, private channels and direct messages",
        }
    }
}

/// Per-conversation tallies.
#[derive(Debug, Clone)]
pub struct ConversationSummary {
    pub slack_id: String,
    pub name: Option<String>,
    pub kind: ChannelKind,
    /// Directory inside the export holding this conversation's day files.
    /// `None` when the manifest lists a conversation the export has no
    /// messages for — common for channels the exporter had no access to.
    pub dir: Option<String>,
    pub is_archived: bool,
    pub members: Vec<String>,
    /// Messages that would be imported, after join/leave filtering.
    pub message_count: usize,
    pub thread_reply_count: usize,
    pub reaction_count: usize,
    pub file_count: usize,
    pub dropped_joins: usize,
    pub skipped_unparseable: usize,
    pub first_ts: Option<i64>,
    pub last_ts: Option<i64>,
}

/// What there is to count in a conversation.
#[verifier::ext_equal]
pub struct Figures {
    pub messages: nat,
    pub replies: nat,
    pub reactions: nat,
    pub files: nat,
    pub dropped: nat,
    pub skipped: nat,
    pub first: Option<i64>,
    pub last: Option<i64>,
}

/// The model of a [`ConversationSummary`].
#[verifier::ext_equal]
pub struct SummaryModel {
    pub slack_id: Seq<char>,
    pub name: Option<Seq<char>>,
    pub kind: ChannelKind,
    pub dir: Option<Seq<char>>,
    pub is_archived: bool,
    pub members: Seq<Seq<char>>,
    pub figures: Figures,
}

impl ConversationSummary {
    pub open spec fn figures(self) -> Figures {
        Figures {
            messages: self.message_count as nat,
            replies: self.thread_reply_count as nat,
            reactions: self.reaction_count as nat,
            files: self.file_count as nat,
            dropped: self.dropped_joins as nat,
            skipped: self.skipped_unparseable as nat,
            first: self.first_ts,
            last: self.last_ts,
        }
    }
}

impl DeepView for ConversationSummary {
    type V = SummaryModel;

    open spec fn deep_view(&self) -> SummaryModel {
        SummaryModel {
            slack_id: self.slack_id@,
            name: self.name.deep_view(),
            kind: self.kind,
            dir: self.dir.deep_view(),
            is_archived: self.is_archived,
            members: self.members.deep_view(),
            figures: self.figures(),
        }
    }
}

impl SummaryModel {
    /// Channel name, or the Slack id for DMs which have none.
    pub open spec fn label(self) -> Seq<char> {
        match self.name {
            Some(n) => n,
            None => self.slack_id,
        }
    }
}

impl ConversationSummary {
    /// Human label: channel name, or the Slack id for DMs which have none.
    pub fn label(&self) -> (r: String)
        ensures
            r@ == self.deep_view().label(),
    {
        match &self.name {
            Some(n) => n.clone(),
            None => self.slack_id.clone(),
        }
    }
}

/// The full result of a probe.
#[derive(Debug)]
pub struct Inventory {
    pub scope: ExportScope,
    pub users: Vec<SlackUser>,
    pub conversations: Vec<ConversationSummary>,
    pub emoji_count: usize,
    /// Things the operator should know that are not errors: manifests present
    /// but empty, message directories with no manifest entry, and so on.
    pub warnings: Vec<String>,
}

// ── totals ───────────────────────────────────────────────────────────────────

/// What the figures of several conversations add up to.
pub open spec fn sum_of(cs: Seq<SummaryModel>, f: spec_fn(Figures) -> nat) -> nat
    decreases cs.len(),
{
    if cs.len() == 0 {
        0
    } else {
        sum_of(cs.drop_last(), f) + f(cs.last().figures)
    }
}

pub proof fn lemma_sum_grows(cs: Seq<SummaryModel>, f: spec_fn(Figures) -> nat, i: int)
    requires
        0 <= i <= cs.len(),
    ensures
        sum_of(cs.take(i), f) <= sum_of(cs, f),
    decreases cs.len(),
{
    if i < cs.len() {
        lemma_sum_grows(cs.drop_last(), f, i);
        assert(cs.drop_last().take(i) =~= cs.take(i));
    } else {
        assert(cs.take(i) =~= cs);
    }
}

impl Inventory {
    pub open spec fn models(self) -> Seq<SummaryModel> {
        self.conversations.deep_view()
    }

    pub fn total_messages(&self) -> (r: usize)
        requires
            sum_of(self.models(), |f: Figures| f.messages) <= usize::MAX,
        ensures
            r == sum_of(self.models(), |f: Figures| f.messages),
    {
        let ghost cs = self.models();
        let ghost f = |f: Figures| f.messages;
        let mut total: usize = 0;
        let mut i: usize = 0;
        while i < self.conversations.len()
            invariant
                i <= self.conversations@.len(),
                cs == self.models(),
                f == (|f: Figures| f.messages),
                total == sum_of(cs.take(i as int), f),
                sum_of(cs, f) <= usize::MAX,
            decreases self.conversations@.len() - i,
        {
            proof {
                assert(cs.take(i + 1).drop_last() =~= cs.take(i as int));
                lemma_sum_grows(cs, f, i + 1);
            }
            total += self.conversations[i].message_count;
            i += 1;
        }
        assert(cs.take(i as int) =~= cs);
        total
    }

    pub fn total_reactions(&self) -> (r: usize)
        requires
            sum_of(self.models(), |f: Figures| f.reactions) <= usize::MAX,
        ensures
            r == sum_of(self.models(), |f: Figures| f.reactions),
    {
        let ghost cs = self.models();
        let ghost f = |f: Figures| f.reactions;
        let mut total: usize = 0;
        let mut i: usize = 0;
        while i < self.conversations.len()
            invariant
                i <= self.conversations@.len(),
                cs == self.models(),
                f == (|f: Figures| f.reactions),
                total == sum_of(cs.take(i as int), f),
                sum_of(cs, f) <= usize::MAX,
            decreases self.conversations@.len() - i,
        {
            proof {
                assert(cs.take(i + 1).drop_last() =~= cs.take(i as int));
                lemma_sum_grows(cs, f, i + 1);
            }
            total += self.conversations[i].reaction_count;
            i += 1;
        }
        assert(cs.take(i as int) =~= cs);
        total
    }

    pub fn total_files(&self) -> (r: usize)
        requires
            sum_of(self.models(), |f: Figures| f.files) <= usize::MAX,
        ensures
            r == sum_of(self.models(), |f: Figures| f.files),
    {
        let ghost cs = self.models();
        let ghost f = |f: Figures| f.files;
        let mut total: usize = 0;
        let mut i: usize = 0;
        while i < self.conversations.len()
            invariant
                i <= self.conversations@.len(),
                cs == self.models(),
                f == (|f: Figures| f.files),
                total == sum_of(cs.take(i as int), f),
                sum_of(cs, f) <= usize::MAX,
            decreases self.conversations@.len() - i,
        {
            proof {
                assert(cs.take(i + 1).drop_last() =~= cs.take(i as int));
                lemma_sum_grows(cs, f, i + 1);
            }
            total += self.conversations[i].file_count;
            i += 1;
        }
        assert(cs.take(i as int) =~= cs);
        total
    }

    pub fn total_thread_replies(&self) -> (r: usize)
        requires
            sum_of(self.models(), |f: Figures| f.replies) <= usize::MAX,
        ensures
            r == sum_of(self.models(), |f: Figures| f.replies),
    {
        let ghost cs = self.models();
        let ghost f = |f: Figures| f.replies;
        let mut total: usize = 0;
        let mut i: usize = 0;
        while i < self.conversations.len()
            invariant
                i <= self.conversations@.len(),
                cs == self.models(),
                f == (|f: Figures| f.replies),
                total == sum_of(cs.take(i as int), f),
                sum_of(cs, f) <= usize::MAX,
            decreases self.conversations@.len() - i,
        {
            proof {
                assert(cs.take(i + 1).drop_last() =~= cs.take(i as int));
                lemma_sum_grows(cs, f, i + 1);
            }
            total += self.conversations[i].thread_reply_count;
            i += 1;
        }
        assert(cs.take(i as int) =~= cs);
        total
    }

    /// Conversations of a given kind, in inventory order.
    pub fn of_kind(&self, kind: ChannelKind) -> (r: Vec<&ConversationSummary>)
        ensures
            r.deep_view() == self.models().filter(|c: SummaryModel| c.kind == kind),
    {
        let ghost cs = self.models();
        let ghost pred = |c: SummaryModel| c.kind == kind;
        let mut r: Vec<&ConversationSummary> = Vec::new();
        assert(r.deep_view() =~= cs.take(0).filter(pred)) by {
            reveal(Seq::filter);
        }
        let mut i: usize = 0;
        while i < self.conversations.len()
            invariant
                i <= self.conversations@.len(),
                cs == self.models(),
                pred == (|c: SummaryModel| c.kind == kind),
                r.deep_view() == cs.take(i as int).filter(pred),
            decreases self.conversations@.len() - i,
        {
            let ghost upto = cs.take(i + 1);
            let ghost was = r.deep_view();
            assert(upto.drop_last() =~= cs.take(i as int));
            assert(upto.last() == self.conversations@[i as int].deep_view());
            assert(upto.filter(pred) == if pred(upto.last()) {
                was.push(upto.last())
            } else {
                was
            }) by {
                reveal(Seq::filter);
            }
            if self.conversations[i].kind == kind {
                r.push(&self.conversations[i]);
                assert(r.deep_view() =~= was.push(upto.last()));
            }
            i += 1;
        }
        assert(cs.take(i as int) =~= cs);
        r
    }
}

// ── counting messages ────────────────────────────────────────────────────────

/// The unix seconds of a message, when its `ts` is usable.
pub open spec fn secs_of(m: SlackMessage) -> Option<i64> {
    match m.ts {
        Some(ts) => ts_secs(ts@),
        None => None,
    }
}

/// Whether a message is membership churn.
pub open spec fn is_join(m: SlackMessage) -> bool {
    m.subtype matches Some(s) && join_leave_subtype(s@)
}

/// Whether a message hangs off another one.
pub open spec fn is_reply(m: SlackMessage) -> bool {
    m.thread_ts is Some && m.thread_ts.deep_view() != m.ts.deep_view()
}

/// How many people reacted, counted once per emoji.
pub open spec fn reactors(rs: Seq<SlackReaction>) -> nat
    decreases rs.len(),
{
    if rs.len() == 0 {
        0
    } else {
        reactors(rs.drop_last()) + rs.last().users@.len()
    }
}

/// The ids of the files that have one.
pub open spec fn known_file_ids(fs: Seq<SlackFile>) -> Seq<Seq<char>>
    decreases fs.len(),
{
    if fs.len() == 0 {
        seq![]
    } else {
        let ahead = known_file_ids(fs.drop_last());
        match fs.last().id {
            Some(id) => ahead.push(id@),
            None => ahead,
        }
    }
}

pub proof fn lemma_known_files(fs: Seq<SlackFile>)
    ensures
        known_file_ids(fs).len() <= fs.len(),
    decreases fs.len(),
{
    if fs.len() > 0 {
        lemma_known_files(fs.drop_last());
    }
}

pub open spec fn earlier(a: Option<i64>, t: i64) -> Option<i64> {
    match a {
        Some(x) if x <= t => Some(x),
        _ => Some(t),
    }
}

pub open spec fn later(a: Option<i64>, t: i64) -> Option<i64> {
    match a {
        Some(x) if x >= t => Some(x),
        _ => Some(t),
    }
}

/// The figures with one more message.
pub open spec fn with_message(f: Figures, m: SlackMessage, keep_joins: bool) -> Figures {
    if !keep_joins && is_join(m) {
        Figures { dropped: f.dropped + 1, ..f }
    } else {
        match secs_of(m) {
            None => Figures { skipped: f.skipped + 1, ..f },
            Some(t) => Figures {
                messages: f.messages + 1,
                replies: f.replies + if is_reply(m) {
                    1nat
                } else {
                    0nat
                },
                reactions: f.reactions + reactors(m.reactions@),
                files: f.files + known_file_ids(m.files@).len(),
                dropped: f.dropped,
                skipped: f.skipped,
                first: earlier(f.first, t),
                last: later(f.last, t),
            },
        }
    }
}

/// The figures with more messages.
pub open spec fn with_messages(f: Figures, ms: Seq<SlackMessage>, keep_joins: bool) -> Figures
    decreases ms.len(),
{
    if ms.len() == 0 {
        f
    } else {
        with_message(with_messages(f, ms.drop_last(), keep_joins), ms.last(), keep_joins)
    }
}

/// The figures with one more day file. One that does not parse counts as one
/// skip.
pub open spec fn with_day(
    f: Figures,
    messages: Option<Vec<SlackMessage>>,
    keep_joins: bool,
) -> Figures {
    match messages {
        Some(ms) => with_messages(f, ms@, keep_joins),
        None => Figures { skipped: f.skipped + 1, ..f },
    }
}

/// The figures with the day files of one directory.
pub open spec fn with_days(
    f: Figures,
    days: Seq<DayFile>,
    dir: Seq<char>,
    keep_joins: bool,
) -> Figures
    decreases days.len(),
{
    if days.len() == 0 {
        f
    } else {
        let ahead = with_days(f, days.drop_last(), dir, keep_joins);
        if days.last().dir@ == dir {
            with_day(ahead, days.last().messages, keep_joins)
        } else {
            ahead
        }
    }
}

/// Nothing counted yet.
pub open spec fn no_figures() -> Figures {
    Figures {
        messages: 0,
        replies: 0,
        reactions: 0,
        files: 0,
        dropped: 0,
        skipped: 0,
        first: None,
        last: None,
    }
}

/// Whether every figure is one the machine can hold.
pub open spec fn countable(f: Figures) -> bool {
    &&& f.messages <= usize::MAX
    &&& f.replies <= usize::MAX
    &&& f.reactions <= usize::MAX
    &&& f.files <= usize::MAX
    &&& f.dropped <= usize::MAX
    &&& f.skipped <= usize::MAX
}

/// Whether no figure of `f` exceeds that of `g`.
pub open spec fn within(f: Figures, g: Figures) -> bool {
    &&& f.messages <= g.messages
    &&& f.replies <= g.replies
    &&& f.reactions <= g.reactions
    &&& f.files <= g.files
    &&& f.dropped <= g.dropped
    &&& f.skipped <= g.skipped
}

proof fn lemma_messages_grow(f: Figures, ms: Seq<SlackMessage>, keep_joins: bool, i: int)
    requires
        0 <= i <= ms.len(),
    ensures
        within(f, with_messages(f, ms, keep_joins)),
        within(with_messages(f, ms.take(i), keep_joins), with_messages(f, ms, keep_joins)),
    decreases ms.len(),
{
    if ms.len() > 0 {
        lemma_messages_grow(f, ms.drop_last(), keep_joins, if i < ms.len() {
            i
        } else {
            ms.len() - 1
        });
    }
    if i < ms.len() {
        assert(ms.drop_last().take(i) =~= ms.take(i));
    } else {
        assert(ms.take(i) =~= ms);
    }
}

proof fn lemma_days_grow(
    f: Figures,
    days: Seq<DayFile>,
    dir: Seq<char>,
    keep_joins: bool,
    i: int,
)
    requires
        0 <= i <= days.len(),
    ensures
        within(with_days(f, days.take(i), dir, keep_joins), with_days(f, days, dir, keep_joins)),
    decreases days.len(),
{
    if i < days.len() {
        let ahead = with_days(f, days.drop_last(), dir, keep_joins);
        lemma_days_grow(f, days.drop_last(), dir, keep_joins, i);
        assert(days.drop_last().take(i) =~= days.take(i));
        match days.last().messages {
            Some(ms) => lemma_messages_grow(ahead, ms@, keep_joins, 0),
            None => {},
        }
    } else {
        assert(days.take(i) =~= days);
    }
}

pub(crate) proof fn lemma_reactors_grow(rs: Seq<SlackReaction>, i: int)
    requires
        0 <= i <= rs.len(),
    ensures
        reactors(rs.take(i)) <= reactors(rs),
    decreases rs.len(),
{
    if i < rs.len() {
        lemma_reactors_grow(rs.drop_last(), i);
        assert(rs.drop_last().take(i) =~= rs.take(i));
    } else {
        assert(rs.take(i) =~= rs);
    }
}

/// How many people reacted, counted once per emoji.
fn count_reactors(rs: &Vec<SlackReaction>) -> (r: usize)
    requires
        reactors(rs@) <= usize::MAX,
    ensures
        r == reactors(rs@),
{
    let mut n: usize = 0;
    let mut i: usize = 0;
    while i < rs.len()
        invariant
            i <= rs@.len(),
            n == reactors(rs@.take(i as int)),
            reactors(rs@) <= usize::MAX,
        decreases rs@.len() - i,
    {
        proof {
            assert(rs@.take(i + 1).drop_last() =~= rs@.take(i as int));
            lemma_reactors_grow(rs@, i + 1);
        }
        n += rs[i].users.len();
        i += 1;
    }
    assert(rs@.take(i as int) =~= rs@);
    n
}

/// Count the files that have an id. One without is not imported.
fn count_known_files(fs: &Vec<SlackFile>) -> (r: usize)
    ensures
        r == known_file_ids(fs@).len(),
{
    let mut n: usize = 0;
    let mut i: usize = 0;
    while i < fs.len()
        invariant
            n <= i <= fs@.len(),
            n == known_file_ids(fs@.take(i as int)).len(),
        decreases fs@.len() - i,
    {
        assert(fs@.take(i + 1).drop_last() =~= fs@.take(i as int));
        if fs[i].id.is_some() {
            n += 1;
        }
        i += 1;
    }
    assert(fs@.take(i as int) =~= fs@);
    n
}

/// The unix seconds of a message, when its `ts` is usable.
pub fn message_secs(m: &SlackMessage) -> (r: Option<i64>)
    ensures
        r == secs_of(*m),
{
    match &m.ts {
        Some(ts) => ts_to_unix_secs(ts.as_str()),
        None => None,
    }
}

/// A subtype, borrowed.
pub fn subtype_of(m: &SlackMessage) -> (r: Option<&str>)
    ensures
        r.deep_view() == m.subtype.deep_view(),
{
    match &m.subtype {
        Some(s) => Some(s.as_str()),
        None => None,
    }
}

/// Count one message into a summary.
fn tally_message(summary: &mut ConversationSummary, message: &SlackMessage, keep_joins: bool)
    requires
        countable(with_message(old(summary).figures(), *message, keep_joins)),
    ensures
        final(summary).deep_view() == (SummaryModel {
            figures: with_message(old(summary).figures(), *message, keep_joins),
            ..old(summary).deep_view()
        }),
{
    let subtype = subtype_of(message);
    if !keep_joins && is_join_leave(subtype) {
        summary.dropped_joins += 1;
        return ;
    }
    let ts: i64 = match message_secs(message) {
        Some(ts) => ts,
        None => {
            summary.skipped_unparseable += 1;
            return ;
        },
    };
    summary.message_count += 1;
    summary.first_ts = match summary.first_ts {
        Some(first) if first <= ts => Some(first),
        _ => Some(ts),
    };
    summary.last_ts = match summary.last_ts {
        Some(last) if last >= ts => Some(last),
        _ => Some(ts),
    };
    let reply = match (&message.thread_ts, &message.ts) {
        (Some(thread), Some(own)) => *thread != *own,
        (Some(_), None) => true,
        (None, _) => false,
    };
    if reply {
        summary.thread_reply_count += 1;
    }
    summary.reaction_count += count_reactors(&message.reactions);
    summary.file_count += count_known_files(&message.files);
}

/// Count one day file into a summary: its messages, or `None` when it does not
/// parse. A single unreadable day file does not abort the whole probe; it is a
/// fidelity problem to report.
pub fn tally_day(
    summary: &mut ConversationSummary,
    messages: &Option<Vec<SlackMessage>>,
    keep_joins: bool,
)
    requires
        countable(with_day(old(summary).figures(), *messages, keep_joins)),
    ensures
        final(summary).deep_view() == (SummaryModel {
            figures: with_day(old(summary).figures(), *messages, keep_joins),
            ..old(summary).deep_view()
        }),
{
    let ghost start = summary.deep_view();
    match messages {
        None => {
            summary.skipped_unparseable += 1;
        },
        Some(ms) => {
            let mut i: usize = 0;
            assert(ms@.take(0) =~= seq![]);
            while i < ms.len()
                invariant
                    i <= ms@.len(),
                    countable(with_messages(start.figures, ms@, keep_joins)),
                    summary.deep_view() == (SummaryModel {
                        figures: with_messages(start.figures, ms@.take(i as int), keep_joins),
                        ..start
                    }),
                decreases ms@.len() - i,
            {
                proof {
                    assert(ms@.take(i + 1).drop_last() =~= ms@.take(i as int));
                    lemma_messages_grow(start.figures, ms@, keep_joins, i + 1);
                }
                tally_message(summary, &ms[i], keep_joins);
                i += 1;
            }
            assert(ms@.take(i as int) =~= ms@);
        },
    }
}

/// Count the day files of one directory into a summary.
fn tally_conversation(
    summary: &mut ConversationSummary,
    days: &Vec<DayFile>,
    dir: &str,
    keep_joins: bool,
)
    requires
        countable(with_days(old(summary).figures(), days@, dir@, keep_joins)),
    ensures
        final(summary).deep_view() == (SummaryModel {
            figures: with_days(old(summary).figures(), days@, dir@, keep_joins),
            ..old(summary).deep_view()
        }),
{
    let ghost start = summary.deep_view();
    let mut i: usize = 0;
    assert(days@.take(0) =~= seq![]);
    while i < days.len()
        invariant
            i <= days@.len(),
            countable(with_days(start.figures, days@, dir@, keep_joins)),
            summary.deep_view() == (SummaryModel {
                figures: with_days(start.figures, days@.take(i as int), dir@, keep_joins),
                ..start
            }),
        decreases days@.len() - i,
    {
        proof {
            assert(days@.take(i + 1).drop_last() =~= days@.take(i as int));
            lemma_days_grow(start.figures, days@, dir@, keep_joins, i + 1);
        }
        if same(days[i].dir.as_str(), dir) {
            tally_day(summary, &days[i].messages, keep_joins);
        }
        i += 1;
    }
    assert(days@.take(i as int) =~= days@);
}

// ── listing conversations ────────────────────────────────────────────────────

/// Directories at the export root that are not conversations.
pub open spec fn metadata_dir(name: Seq<char>) -> bool {
    name == "canvases"@ || name == "lists"@ || name == "huddle_transcripts"@ || name == "files"@
}

fn is_metadata_dir(name: &str) -> (r: bool)
    ensures
        r == metadata_dir(name@),
{
    same(name, "canvases") || same(name, "lists") || same(name, "huddle_transcripts") || same(
        name,
        "files",
    )
}

/// The directory that holds a conversation's messages: Slack names it after the
/// channel, or after the conversation id where there is no name.
pub open spec fn entry_dir(e: SlackConversation, dirs: Seq<Seq<char>>) -> Option<Seq<char>> {
    let candidate = match e.name {
        Some(n) => n@,
        None => e.id@,
    };
    if dirs.contains(candidate) {
        Some(candidate)
    } else if dirs.contains(e.id@) {
        Some(e.id@)
    } else {
        None
    }
}

/// A conversation as its manifest lists it, with nothing counted yet.
pub open spec fn entry_summary(
    e: SlackConversation,
    kind: ChannelKind,
    dirs: Seq<Seq<char>>,
) -> SummaryModel {
    SummaryModel {
        slack_id: e.id@,
        name: e.name.deep_view(),
        kind,
        dir: entry_dir(e, dirs),
        is_archived: e.is_archived,
        members: e.members.deep_view(),
        figures: no_figures(),
    }
}

/// The conversations a manifest lists.
pub open spec fn manifest_summaries(
    entries: Option<Vec<SlackConversation>>,
    kind: ChannelKind,
    dirs: Seq<Seq<char>>,
) -> Seq<SummaryModel> {
    match entries {
        Some(es) => Seq::new(es@.len(), |i: int| entry_summary(es@[i], kind, dirs)),
        None => seq![],
    }
}

/// The note about a listed conversation that the export has no messages for.
pub open spec fn no_messages_note(c: SummaryModel, file: Seq<char>) -> Seq<char> {
    c.kind.word() + " \""@ + c.label() + "\" is listed in "@ + file
        + " but has no messages in the export"@
}

/// The notes about those of some listed conversations that have no directory.
pub open spec fn no_messages_notes(cs: Seq<SummaryModel>, file: Seq<char>) -> Seq<Seq<char>>
    decreases cs.len(),
{
    if cs.len() == 0 {
        seq![]
    } else {
        let ahead = no_messages_notes(cs.drop_last(), file);
        if cs.last().dir is None {
            ahead.push(no_messages_note(cs.last(), file))
        } else {
            ahead
        }
    }
}

/// The notes about one manifest.
pub open spec fn manifest_notes(
    file: Seq<char>,
    entries: Option<Vec<SlackConversation>>,
    kind: ChannelKind,
    dirs: Seq<Seq<char>>,
) -> Seq<Seq<char>> {
    match entries {
        Some(es) => if es@.len() == 0 {
            seq![file + " is present but empty"@]
        } else {
            no_messages_notes(manifest_summaries(entries, kind, dirs), file)
        },
        None => seq![],
    }
}

/// Whether a manifest is there and lists something.
pub open spec fn lists_any(entries: Option<Vec<SlackConversation>>) -> bool {
    entries matches Some(es) && es@.len() > 0
}

impl Export {
    /// The conversations that the manifests list, in the order public, private,
    /// group DMs, DMs.
    pub open spec fn listed(self) -> Seq<SummaryModel> {
        let dirs = self.dirs.deep_view();
        manifest_summaries(self.channels, ChannelKind::Public, dirs) + manifest_summaries(
            self.groups,
            ChannelKind::Private,
            dirs,
        ) + manifest_summaries(self.mpims, ChannelKind::GroupDm, dirs) + manifest_summaries(
            self.dms,
            ChannelKind::Dm,
            dirs,
        )
    }

    /// What tiers of conversation the manifests list.
    pub open spec fn scope(self) -> ExportScope {
        if lists_any(self.dms) || lists_any(self.mpims) {
            ExportScope::WithDms
        } else if lists_any(self.groups) {
            ExportScope::WithPrivate
        } else {
            ExportScope::PublicOnly
        }
    }

    /// The users that the export lists.
    pub open spec fn user_list(self) -> Seq<SlackUser> {
        match self.users {
            Some(us) => us@,
            None => seq![],
        }
    }

    /// The notes about the user table and the manifests.
    pub open spec fn manifest_remarks(self) -> Seq<Seq<char>> {
        let dirs = self.dirs.deep_view();
        (if self.users is None {
            seq!["users.json is missing — messages will be attributed to raw Slack ids"@]
        } else {
            seq![]
        }) + manifest_notes("channels.json"@, self.channels, ChannelKind::Public, dirs)
            + manifest_notes("groups.json"@, self.groups, ChannelKind::Private, dirs)
            + manifest_notes("mpims.json"@, self.mpims, ChannelKind::GroupDm, dirs)
            + manifest_notes("dms.json"@, self.dms, ChannelKind::Dm, dirs)
    }

    /// Whether a directory belongs to a listed conversation.
    pub open spec fn claimed(self, dir: Seq<char>) -> bool {
        exists|i: int| 0 <= i < self.listed().len() && #[trigger] self.listed()[i].dir == Some(dir)
    }

    /// The conversation directories that no manifest accounts for.
    pub open spec fn unclaimed(self) -> Seq<Seq<char>> {
        sorted_set(
            self.dirs.deep_view().filter(|d: Seq<char>| !metadata_dir(d) && !self.claimed(d)),
        )
    }
}

/// The note about a directory that no manifest accounts for.
pub open spec fn unlisted_note(dir: Seq<char>) -> Seq<char> {
    "directory \""@ + dir
        + "\" holds messages but is not listed in any manifest — it will not be imported"@
}

pub open spec fn unlisted_notes(dirs: Seq<Seq<char>>) -> Seq<Seq<char>> {
    Seq::new(dirs.len(), |i: int| unlisted_note(dirs[i]))
}

fn find_dir(e: &SlackConversation, dirs: &Vec<String>) -> (r: Option<String>)
    ensures
        r.deep_view() == entry_dir(*e, dirs.deep_view()),
{
    let candidate = match &e.name {
        Some(n) => n.clone(),
        None => e.id.clone(),
    };
    if holds(dirs, &candidate) {
        Some(candidate)
    } else if holds(dirs, &e.id) {
        Some(e.id.clone())
    } else {
        None
    }
}

/// Adds what one manifest lists, and the notes about it.
fn add_manifest(
    file: &str,
    entries: &Option<Vec<SlackConversation>>,
    kind: ChannelKind,
    dirs: &Vec<String>,
    conversations: &mut Vec<ConversationSummary>,
    warnings: &mut Vec<String>,
) -> (present: bool)
    ensures
        present == lists_any(*entries),
        final(conversations).deep_view() == old(conversations).deep_view() + manifest_summaries(
            *entries,
            kind,
            dirs.deep_view(),
        ),
        final(warnings).deep_view() == old(warnings).deep_view() + manifest_notes(
            file@,
            *entries,
            kind,
            dirs.deep_view(),
        ),
{
    let ghost ds = dirs.deep_view();
    let ghost cs0 = conversations.deep_view();
    let ghost ws0 = warnings.deep_view();
    let ghost added = manifest_summaries(*entries, kind, ds);
    let es = match entries {
        Some(es) => es,
        None => {
            assert(cs0 + added =~= cs0);
            assert(ws0 + manifest_notes(file@, *entries, kind, ds) =~= ws0);
            return false;
        },
    };
    if es.len() == 0 {
        let note = text::join2(file, " is present but empty");
        warnings.push(note);
        assert(warnings.deep_view() =~= ws0 + manifest_notes(file@, *entries, kind, ds));
        assert(cs0 + added =~= cs0);
        return false;
    }
    let mut i: usize = 0;
    assert(cs0 + added.take(0) =~= cs0);
    assert(ws0 + no_messages_notes(added.take(0), file@) =~= ws0);
    while i < es.len()
        invariant
            i <= es@.len(),
            *entries == Some(*es),
            ds == dirs.deep_view(),
            added == manifest_summaries(*entries, kind, ds),
            conversations.deep_view() == cs0 + added.take(i as int),
            warnings.deep_view() == ws0 + no_messages_notes(added.take(i as int), file@),
        decreases es@.len() - i,
    {
        let ghost cs = conversations.deep_view();
        let ghost ws = warnings.deep_view();
        let ghost upto = added.take(i + 1);
        assert(upto.drop_last() =~= added.take(i as int));
        let entry = &es[i];
        let summary = ConversationSummary {
            slack_id: entry.id.clone(),
            name: text::copy_opt(&entry.name),
            kind,
            dir: find_dir(entry, dirs),
            is_archived: entry.is_archived,
            members: text::copy_all(&entry.members),
            message_count: 0,
            thread_reply_count: 0,
            reaction_count: 0,
            file_count: 0,
            dropped_joins: 0,
            skipped_unparseable: 0,
            first_ts: None,
            last_ts: None,
        };
        assert(summary.deep_view() == upto.last());
        if summary.dir.is_none() {
            let label = summary.label();
            let note = text::join5(
                kind.as_str(),
                " \"",
                label.as_str(),
                "\" is listed in ",
                text::join2(file, " but has no messages in the export").as_str(),
            );
            assert(note@ =~= no_messages_note(upto.last(), file@));
            warnings.push(note);
            assert(warnings.deep_view() =~= ws.push(note@));
            assert(warnings.deep_view() =~= ws0 + no_messages_notes(upto, file@));
        }
        conversations.push(summary);
        assert(conversations.deep_view() =~= cs.push(upto.last()));
        assert(cs.push(upto.last()) =~= cs0 + upto);
        i += 1;
    }
    assert(added.take(i as int) =~= added);
    true
}

fn is_claimed(conversations: &Vec<ConversationSummary>, dir: &String) -> (r: bool)
    ensures
        r == exists|i: int|
            0 <= i < conversations.deep_view().len() && #[trigger] conversations.deep_view()[i].dir
                == Some(dir@),
{
    let ghost cs = conversations.deep_view();
    let mut i: usize = 0;
    while i < conversations.len()
        invariant
            i <= conversations@.len(),
            cs == conversations.deep_view(),
            forall|k: int| 0 <= k < i ==> #[trigger] cs[k].dir != Some(dir@),
        decreases conversations@.len() - i,
    {
        assert(cs[i as int] == conversations@[i as int].deep_view());
        if let Some(d) = &conversations[i].dir {
            if *d == *dir {
                return true;
            }
        }
        i += 1;
    }
    false
}

fn find_unclaimed(export: &Export, conversations: &Vec<ConversationSummary>) -> (r: Vec<String>)
    requires
        conversations.deep_view() == export.listed(),
    ensures
        r.deep_view() == export.unclaimed(),
{
    let ghost all = export.dirs.deep_view();
    let ghost pred = |d: Seq<char>| !metadata_dir(d) && !export.claimed(d);
    let mut open: Vec<String> = Vec::new();
    assert(open.deep_view() =~= all.take(0).filter(pred)) by {
        reveal(Seq::filter);
    }
    let mut i: usize = 0;
    while i < export.dirs.len()
        invariant
            i <= export.dirs@.len(),
            all == export.dirs.deep_view(),
            conversations.deep_view() == export.listed(),
            pred == (|d: Seq<char>| !metadata_dir(d) && !export.claimed(d)),
            open.deep_view() == all.take(i as int).filter(pred),
        decreases export.dirs@.len() - i,
    {
        let ghost upto = all.take(i + 1);
        let ghost was = open.deep_view();
        assert(upto.drop_last() =~= all.take(i as int));
        assert(upto.last() == export.dirs@[i as int]@);
        assert(upto.filter(pred) == if pred(upto.last()) {
            was.push(upto.last())
        } else {
            was
        }) by {
            reveal(Seq::filter);
        }
        if !is_metadata_dir(export.dirs[i].as_str()) && !is_claimed(conversations, &export.dirs[i]) {
            open.push(export.dirs[i].clone());
            assert(open.deep_view() =~= was.push(upto.last()));
        }
        i += 1;
    }
    assert(all.take(i as int) =~= all);
    sort_set(&open)
}

fn copy_users(users: &Option<Vec<SlackUser>>) -> (r: Vec<SlackUser>)
    ensures
        users matches Some(us) ==> r@ == us@,
        users is None ==> r@.len() == 0,
{
    let mut r: Vec<SlackUser> = Vec::new();
    if let Some(us) = users {
        let mut i: usize = 0;
        while i < us.len()
            invariant
                i <= us@.len(),
                r@ == us@.take(i as int),
            decreases us@.len() - i,
        {
            r.push(us[i].clone());
            i += 1;
            assert(r@ =~= us@.take(i as int));
        }
        assert(us@.take(i as int) =~= us@);
    }
    r
}

/// List what the manifests hold, with nothing counted yet, and what the operator
/// should know about them.
pub fn survey(export: &Export) -> (r: Inventory)
    ensures
        r.scope == export.scope(),
        r.users@ == export.user_list(),
        r.models() == export.listed(),
        r.emoji_count == 0,
        r.warnings.deep_view() == export.manifest_remarks() + unlisted_notes(export.unclaimed()),
{
    let users = copy_users(&export.users);
    assert(users@ =~= export.user_list());
    let mut warnings: Vec<String> = Vec::new();
    if export.users.is_none() {
        warnings.push(
            "users.json is missing — messages will be attributed to raw Slack ids".to_string(),
        );
    }
    let ghost w0: Seq<Seq<char>> = if export.users is None {
        seq!["users.json is missing — messages will be attributed to raw Slack ids"@]
    } else {
        seq![]
    };
    assert(warnings.deep_view() =~= w0);
    let mut conversations: Vec<ConversationSummary> = Vec::new();
    assert(conversations.deep_view() =~= Seq::<SummaryModel>::empty());
    let dirs = &export.dirs;
    let ghost ds = dirs.deep_view();
    let public = add_manifest(
        "channels.json",
        &export.channels,
        ChannelKind::Public,
        dirs,
        &mut conversations,
        &mut warnings,
    );
    let private = add_manifest(
        "groups.json",
        &export.groups,
        ChannelKind::Private,
        dirs,
        &mut conversations,
        &mut warnings,
    );
    let group_dms = add_manifest(
        "mpims.json",
        &export.mpims,
        ChannelKind::GroupDm,
        dirs,
        &mut conversations,
        &mut warnings,
    );
    let dms = add_manifest(
        "dms.json",
        &export.dms,
        ChannelKind::Dm,
        dirs,
        &mut conversations,
        &mut warnings,
    );
    assert(conversations.deep_view() =~= export.listed());
    assert(warnings.deep_view() =~= export.manifest_remarks());

    let unclaimed = find_unclaimed(export, &conversations);
    let ghost us = unclaimed.deep_view();
    let mut i: usize = 0;
    assert(warnings.deep_view() + unlisted_notes(us).take(0) =~= warnings.deep_view());
    while i < unclaimed.len()
        invariant
            i <= unclaimed@.len(),
            us == unclaimed.deep_view(),
            warnings.deep_view() == export.manifest_remarks() + unlisted_notes(us).take(i as int),
        decreases unclaimed@.len() - i,
    {
        let ghost was = warnings.deep_view();
        let note = text::join3(
            "directory \"",
            unclaimed[i].as_str(),
            "\" holds messages but is not listed in any manifest — it will not be imported",
        );
        warnings.push(note);
        assert(us[i as int] == unclaimed@[i as int]@);
        assert(warnings.deep_view() =~= was.push(note@));
        i += 1;
        assert(warnings.deep_view() =~= export.manifest_remarks() + unlisted_notes(us).take(
            i as int,
        ));
    }
    assert(unlisted_notes(us).take(i as int) =~= unlisted_notes(us));

    let scope = if dms || group_dms {
        ExportScope::WithDms
    } else if private {
        ExportScope::WithPrivate
    } else {
        ExportScope::PublicOnly
    };
    Inventory { scope, users, conversations, emoji_count: 0, warnings }
}

/// A listed conversation with the messages of its day files counted.
pub open spec fn counted(c: SummaryModel, days: Seq<DayFile>, keep_joins: bool) -> SummaryModel {
    match c.dir {
        Some(dir) => SummaryModel {
            figures: with_days(c.figures, days, dir, keep_joins),
            ..c
        },
        None => c,
    }
}

impl Export {
    /// The conversations of the export, each with its messages counted.
    pub open spec fn inventory(self, keep_joins: bool) -> Seq<SummaryModel> {
        Seq::new(
            self.listed().len(),
            |i: int| counted(self.listed()[i], self.days@, keep_joins),
        )
    }

    /// Whether every conversation's figures are ones the machine can hold.
    pub open spec fn countable(self, keep_joins: bool) -> bool {
        forall|i: int|
            0 <= i < self.listed().len() ==> countable(
                (#[trigger] counted(self.listed()[i], self.days@, keep_joins)).figures,
            )
    }
}

/// Walk the export and tally everything, given its custom emoji.
pub fn probe_with(export: &Export, keep_joins: bool, emoji: &Vec<(String, String)>) -> (r:
    Inventory)
    requires
        export.countable(keep_joins),
    ensures
        r.scope == export.scope(),
        r.users@ == export.user_list(),
        r.models() == export.inventory(keep_joins),
        r.emoji_count == emoji@.len(),
        r.warnings.deep_view() == export.manifest_remarks() + unlisted_notes(export.unclaimed()),
{
    let surveyed = survey(export);
    let conversations = surveyed.conversations;
    let ghost listed = export.listed();
    let mut done: Vec<ConversationSummary> = Vec::new();
    assert(done.deep_view() =~= export.inventory(keep_joins).take(0));
    let mut i: usize = 0;
    let n: usize = conversations.len();
    while i < n
        invariant
            i <= n,
            n == conversations@.len(),
            listed == export.listed(),
            conversations.deep_view() == listed,
            export.countable(keep_joins),
            done.deep_view() == export.inventory(keep_joins).take(i as int),
        decreases n - i,
    {
        let ghost was = done.deep_view();
        assert(conversations@[i as int].deep_view() == listed[i as int]);
        let ghost target = counted(listed[i as int], export.days@, keep_joins);
        assert(countable(target.figures));
        let mut summary = copy_summary(&conversations[i]);
        let dir = text::copy_opt(&summary.dir);
        if let Some(dir) = &dir {
            tally_conversation(&mut summary, &export.days, dir.as_str(), keep_joins);
        }
        assert(summary.deep_view() == target);
        done.push(summary);
        i += 1;
        assert(done.deep_view() =~= was.push(target));
        assert(was.push(target) =~= export.inventory(keep_joins).take(i as int));
    }
    assert(export.inventory(keep_joins).take(i as int) =~= export.inventory(keep_joins));
    Inventory {
        scope: surveyed.scope,
        users: surveyed.users,
        conversations: done,
        emoji_count: emoji.len(),
        warnings: surveyed.warnings,
    }
}

fn copy_summary(c: &ConversationSummary) -> (r: ConversationSummary)
    ensures
        r.deep_view() == c.deep_view(),
{
    ConversationSummary {
        slack_id: c.slack_id.clone(),
        name: text::copy_opt(&c.name),
        kind: c.kind,
        dir: text::copy_opt(&c.dir),
        is_archived: c.is_archived,
        members: text::copy_all(&c.members),
        message_count: c.message_count,
        thread_reply_count: c.thread_reply_count,
        reaction_count: c.reaction_count,
        file_count: c.file_count,
        dropped_joins: c.dropped_joins,
        skipped_unparseable: c.skipped_unparseable,
        first_ts: c.first_ts,
        last_ts: c.last_ts,
    }
}

/// Walk the export and tally everything.
///
/// `keep_joins` must match what `parse` will be told, or the counts shown to
/// the operator will not be the counts they get.
pub fn probe(export: &Export, keep_joins: bool) -> (r: Result<Inventory, Error>)
    requires
        export.countable(keep_joins),
    ensures
        match r {
            Ok(inv) => {
                &&& inv.scope == export.scope()
                &&& inv.users@ == export.user_list()
                &&& inv.models() == export.inventory(keep_joins)
                &&& inv.warnings.deep_view() == export.manifest_remarks() + unlisted_notes(
                    export.unclaimed(),
                )
                &&& match export.emoji {
                    Some(json) => emoji_entries(json@) matches Some(table) && inv.emoji_count
                        == table.len(),
                    None => inv.emoji_count == 0,
                }
            },
            Err(e) => {
                &&& export.emoji matches Some(json) && emoji_entries(json@) is None
                &&& e.deep_view() == (Failure::Json { what: "emoji.json"@ })
            },
        },
{
    match export.emoji_table() {
        Ok(emoji) => {
            assert(emoji.deep_view().len() == emoji@.len());
            Ok(probe_with(export, keep_joins, &emoji))
        },
        Err(e) => Err(e),
    }
}

// ── laws ─────────────────────────────────────────────────────────────────────

/// The day files of one directory.
pub open spec fn of_dir(days: Seq<DayFile>, dir: Seq<char>) -> Seq<DayFile>
    decreases days.len(),
{
    if days.len() == 0 {
        seq![]
    } else {
        let ahead = of_dir(days.drop_last(), dir);
        if days.last().dir@ == dir {
            ahead.push(days.last())
        } else {
            ahead
        }
    }
}

/// The figures with day files counted one after the other, wherever they stand.
pub open spec fn day_by_day(f: Figures, files: Seq<DayFile>, keep_joins: bool) -> Figures
    decreases files.len(),
{
    if files.len() == 0 {
        f
    } else {
        with_day(
            day_by_day(f, files.drop_last(), keep_joins),
            files.last().messages,
            keep_joins,
        )
    }
}

proof fn lemma_day_by_day(f: Figures, days: Seq<DayFile>, dir: Seq<char>, keep_joins: bool)
    ensures
        with_days(f, days, dir, keep_joins) == day_by_day(f, of_dir(days, dir), keep_joins),
    decreases days.len(),
{
    if days.len() > 0 {
        lemma_day_by_day(f, days.drop_last(), dir, keep_joins);
        if days.last().dir@ == dir {
            assert(of_dir(days, dir).drop_last() =~= of_dir(days.drop_last(), dir));
        }
    }
}

/// Walking an export one day file at a time is probing it: [`tally_day`] on the
/// day files of a conversation's directory, in order, counts what [`probe`] shows
/// of the conversation.
pub proof fn law_tallying_day_by_day_is_probing(
    c: SummaryModel,
    days: Seq<DayFile>,
    keep_joins: bool,
)
    ensures
        counted(c, days, keep_joins).figures == match c.dir {
            Some(dir) => day_by_day(c.figures, of_dir(days, dir), keep_joins),
            None => c.figures,
        },
{
    if let Some(dir) = c.dir {
        lemma_day_by_day(c.figures, days, dir, keep_joins);
    }
}

/// Every message is counted once: as imported, as dropped churn, or as skipped.
pub proof fn law_every_message_is_accounted_for(
    f: Figures,
    ms: Seq<SlackMessage>,
    keep_joins: bool,
)
    ensures
        ({
            let g = with_messages(f, ms, keep_joins);
            g.messages + g.dropped + g.skipped == f.messages + f.dropped + f.skipped + ms.len()
        }),
    decreases ms.len(),
{
    if ms.len() > 0 {
        law_every_message_is_accounted_for(f, ms.drop_last(), keep_joins);
    }
}

/// Whether every membership message of some day files has a usable `ts`.
pub open spec fn joins_are_dated(days: Seq<DayFile>) -> bool {
    forall|d: int, i: int|
        0 <= d < days.len() && days[d].messages is Some && 0 <= i < days[d].messages->0@.len()
            && is_join(#[trigger] days[d].messages->0@[i]) ==> secs_of(days[d].messages->0@[i]) is Some
}

proof fn lemma_keeping_joins_messages(
    f: Figures,
    g: Figures,
    ms: Seq<SlackMessage>,
)
    requires
        g.messages == f.messages + f.dropped,
        g.dropped == 0,
        g.skipped == f.skipped,
        forall|i: int| 0 <= i < ms.len() && is_join(#[trigger] ms[i]) ==> secs_of(ms[i]) is Some,
    ensures
        ({
            let a = with_messages(f, ms, false);
            let b = with_messages(g, ms, true);
            b.messages == a.messages + a.dropped && b.dropped == 0 && b.skipped == a.skipped
        }),
    decreases ms.len(),
{
    if ms.len() > 0 {
        assert forall|i: int| 0 <= i < ms.drop_last().len() && is_join(
            #[trigger] ms.drop_last()[i],
        ) implies secs_of(ms.drop_last()[i]) is Some by {
            assert(ms.drop_last()[i] == ms[i]);
        }
        lemma_keeping_joins_messages(f, g, ms.drop_last());
        assert(ms.last() == ms[ms.len() - 1]);
    }
}

/// Keeping joins adds exactly the dropped ones back: nothing else changes class.
/// (A membership message without a usable `ts` cannot be imported either way.)
pub proof fn law_keeping_joins_adds_exactly_the_dropped(days: Seq<DayFile>, dir: Seq<char>)
    requires
        joins_are_dated(days),
    ensures
        ({
            let dropping = with_days(no_figures(), days, dir, false);
            let keeping = with_days(no_figures(), days, dir, true);
            &&& keeping.messages == dropping.messages + dropping.dropped
            &&& keeping.dropped == 0
            &&& keeping.skipped == dropping.skipped
        }),
    decreases days.len(),
{
    if days.len() > 0 {
        let front = days.drop_last();
        assert(joins_are_dated(front)) by {
            assert forall|d: int, i: int|
                0 <= d < front.len() && front[d].messages is Some && 0 <= i
                    < front[d].messages->0@.len() && is_join(
                    #[trigger] front[d].messages->0@[i],
                ) implies secs_of(front[d].messages->0@[i]) is Some by {
                assert(front[d] == days[d]);
                assert(is_join(days[d].messages->0@[i]));
            }
        }
        law_keeping_joins_adds_exactly_the_dropped(front, dir);
        let last = days.len() - 1;
        match days.last().messages {
            Some(ms) => {
                assert forall|i: int| 0 <= i < ms@.len() && is_join(#[trigger] ms@[i]) implies secs_of(
                    ms@[i],
                ) is Some by {
                    assert(is_join(days[last].messages->0@[i]));
                }
                lemma_keeping_joins_messages(
                    with_days(no_figures(), front, dir, false),
                    with_days(no_figures(), front, dir, true),
                    ms@,
                );
            },
            None => {},
        }
    }
}

/// Whether the date range is that of at least one message, or there is none.
pub open spec fn proper_range(f: Figures) -> bool {
    &&& f.first is Some <==> f.messages > 0
    &&& f.last is Some <==> f.messages > 0
    &&& f.messages > 0 ==> f.first->0 <= f.last->0
}

proof fn lemma_range_of_messages(f: Figures, ms: Seq<SlackMessage>, keep_joins: bool)
    requires
        proper_range(f),
    ensures
        proper_range(with_messages(f, ms, keep_joins)),
    decreases ms.len(),
{
    if ms.len() > 0 {
        lemma_range_of_messages(f, ms.drop_last(), keep_joins);
    }
}

/// A conversation has a date range exactly when it has messages to import, and
/// the range does not end before it starts.
pub proof fn law_date_range(days: Seq<DayFile>, dir: Seq<char>, keep_joins: bool)
    ensures
        proper_range(with_days(no_figures(), days, dir, keep_joins)),
    decreases days.len(),
{
    if days.len() > 0 {
        law_date_range(days.drop_last(), dir, keep_joins);
        match days.last().messages {
            Some(ms) => lemma_range_of_messages(
                with_days(no_figures(), days.drop_last(), dir, keep_joins),
                ms@,
                keep_joins,
            ),
            None => {},
        }
    }
}

/// The date range covers every message that is imported.
pub proof fn law_date_range_covers(f: Figures, ms: Seq<SlackMessage>, keep_joins: bool, i: int)
    requires
        0 <= i < ms.len(),
        keep_joins || !is_join(ms[i]),
        secs_of(ms[i]) is Some,
    ensures
        ({
            let g = with_messages(f, ms, keep_joins);
            g.first is Some && g.last is Some && g.first->0 <= secs_of(ms[i])->0 <= g.last->0
        }),
    decreases ms.len(),
{
    if i < ms.len() - 1 {
        assert(ms.drop_last()[i] == ms[i]);
        law_date_range_covers(f, ms.drop_last(), keep_joins, i);
    }
}

/// Every directory of the export is one Slack keeps metadata in, belongs to a
/// listed conversation, or is reported as not going to be imported.
pub proof fn law_no_directory_is_passed_over(export: Export, dir: Seq<char>)
    requires
        export.dirs.deep_view().contains(dir),
    ensures
        metadata_dir(dir) || export.claimed(dir) || (export.manifest_remarks() + unlisted_notes(
            export.unclaimed(),
        )).contains(unlisted_note(dir)),
{
    if !metadata_dir(dir) && !export.claimed(dir) {
        let pred = |d: Seq<char>| !metadata_dir(d) && !export.claimed(d);
        let all = export.dirs.deep_view();
        let open = all.filter(pred);
        let i = all.index_of(dir);
        lemma_kept(all, pred);
        assert(pred(all[i]));
        assert(open.contains(dir));
        crate::order::law_sorted_set(open);
        let u = export.unclaimed();
        assert(u.contains(dir));
        let k = u.index_of(dir);
        let notes = unlisted_notes(u);
        assert(notes[k] == unlisted_note(dir));
        let remarks = export.manifest_remarks();
        assert((remarks + notes)[remarks.len() + k] == unlisted_note(dir));
    }
}

} // verus!
