//! What holds of every import.

use vstd::prelude::*;

use crate::export::DayFile;
use crate::ir;
use crate::ir::{CountsModel, RecordModel};
use crate::order::{ahead, lemma_order_exists, lemma_order_inserts, order_of};
use crate::parse::{conversation_records, file_records, gathered, imported, in_order, lemma_exploded_len, lemma_file_records_len, lookup, message_model, message_records, messages_records, moments, raw_words, reaction_records, unparsed, with_conversation, with_message, with_messages, Scene, Setting};
use crate::probe;
use crate::probe::{is_join, is_reply, known_file_ids, reactors, secs_of, Figures, SummaryModel};
use crate::slack::{handling_of, SlackFile, SlackMessage};
use crate::tally::count_in;
use crate::text::{lemma_lt_total, lt};

verus! {

// ── the header counts what follows ───────────────────────────────────────────

/// How many of some records satisfy a predicate.
pub open spec fn many(rs: Seq<RecordModel>, pred: spec_fn(RecordModel) -> bool) -> nat
    decreases rs.len(),
{
    if rs.len() == 0 {
        0
    } else {
        many(rs.drop_last(), pred) + if pred(rs.last()) {
            1nat
        } else {
            0nat
        }
    }
}

proof fn lemma_many_add(a: Seq<RecordModel>, b: Seq<RecordModel>, pred: spec_fn(RecordModel) -> bool)
    ensures
        many(a + b, pred) == many(a, pred) + many(b, pred),
    decreases b.len(),
{
    if b.len() == 0 {
        assert(a + b =~= a);
    } else {
        assert((a + b).drop_last() =~= a + b.drop_last());
        lemma_many_add(a, b.drop_last(), pred);
    }
}

proof fn lemma_many_none(rs: Seq<RecordModel>, pred: spec_fn(RecordModel) -> bool)
    requires
        forall|i: int| 0 <= i < rs.len() ==> !pred(#[trigger] rs[i]),
    ensures
        many(rs, pred) == 0,
    decreases rs.len(),
{
    if rs.len() > 0 {
        assert forall|i: int| 0 <= i < rs.drop_last().len() implies !pred(
            #[trigger] rs.drop_last()[i],
        ) by {
            assert(rs.drop_last()[i] == rs[i]);
        }
        lemma_many_none(rs.drop_last(), pred);
        assert(!pred(rs[rs.len() - 1]));
    }
}

/// The records of each type among some records, and the replies among the
/// messages.
pub open spec fn census(rs: Seq<RecordModel>) -> CountsModel {
    CountsModel {
        users: many(rs, |r: RecordModel| r is User),
        channels: many(rs, |r: RecordModel| r is Channel),
        messages: many(rs, |r: RecordModel| r is Message),
        thread_replies: many(
            rs,
            |r: RecordModel| r matches RecordModel::Message(m) && m.thread_reply(),
        ),
        reactions: many(rs, |r: RecordModel| r is Reaction),
        files: many(rs, |r: RecordModel| r is File),
        emoji: many(rs, |r: RecordModel| r is Emoji),
        ..ir::no_counts()
    }
}

/// Whether two counts agree on what records there are.
pub open spec fn agree(a: CountsModel, b: CountsModel) -> bool {
    &&& a.users == b.users
    &&& a.channels == b.channels
    &&& a.messages == b.messages
    &&& a.thread_replies == b.thread_replies
    &&& a.reactions == b.reactions
    &&& a.files == b.files
    &&& a.emoji == b.emoji
}

/// The counts of two groups of records together.
pub open spec fn plus(a: CountsModel, b: CountsModel) -> CountsModel {
    CountsModel {
        users: a.users + b.users,
        channels: a.channels + b.channels,
        messages: a.messages + b.messages,
        thread_replies: a.thread_replies + b.thread_replies,
        reactions: a.reactions + b.reactions,
        files: a.files + b.files,
        emoji: a.emoji + b.emoji,
        ..a
    }
}

proof fn lemma_census_add(a: Seq<RecordModel>, b: Seq<RecordModel>)
    ensures
        agree(census(a + b), plus(census(a), census(b))),
{
    lemma_many_add(a, b, |r: RecordModel| r is User);
    lemma_many_add(a, b, |r: RecordModel| r is Channel);
    lemma_many_add(a, b, |r: RecordModel| r is Message);
    lemma_many_add(
        a,
        b,
        |r: RecordModel| r matches RecordModel::Message(m) && m.thread_reply(),
    );
    lemma_many_add(a, b, |r: RecordModel| r is Reaction);
    lemma_many_add(a, b, |r: RecordModel| r is File);
    lemma_many_add(a, b, |r: RecordModel| r is Emoji);
}

proof fn lemma_census_empty()
    ensures
        agree(census(seq![]), ir::no_counts()),
{
}

/// The census of one record.
proof fn lemma_census_one(r: RecordModel)
    ensures
        agree(
            census(seq![r]),
            match r {
                RecordModel::User(_) => CountsModel { users: 1, ..ir::no_counts() },
                RecordModel::Channel(_) => CountsModel { channels: 1, ..ir::no_counts() },
                RecordModel::Message(m) => CountsModel {
                    messages: 1,
                    thread_replies: if m.thread_reply() {
                        1
                    } else {
                        0
                    },
                    ..ir::no_counts()
                },
                RecordModel::Reaction(_) => CountsModel { reactions: 1, ..ir::no_counts() },
                RecordModel::File(_) => CountsModel { files: 1, ..ir::no_counts() },
                RecordModel::Emoji(_) => CountsModel { emoji: 1, ..ir::no_counts() },
                RecordModel::Header(_) => ir::no_counts(),
            },
        ),
{
    reveal_with_fuel(many, 2);
    assert(seq![r].drop_last() =~= seq![]);
}

/// The census of records that are all of one type.
proof fn lemma_census_uniform(rs: Seq<RecordModel>)
    ensures
        (forall|i: int| 0 <= i < rs.len() ==> (#[trigger] rs[i]) is Reaction) ==> agree(
            census(rs),
            CountsModel { reactions: rs.len(), ..ir::no_counts() },
        ),
        (forall|i: int| 0 <= i < rs.len() ==> (#[trigger] rs[i]) is File) ==> agree(
            census(rs),
            CountsModel { files: rs.len(), ..ir::no_counts() },
        ),
        (forall|i: int| 0 <= i < rs.len() ==> (#[trigger] rs[i]) is User) ==> agree(
            census(rs),
            CountsModel { users: rs.len(), ..ir::no_counts() },
        ),
        (forall|i: int| 0 <= i < rs.len() ==> (#[trigger] rs[i]) is Emoji) ==> agree(
            census(rs),
            CountsModel { emoji: rs.len(), ..ir::no_counts() },
        ),
    decreases rs.len(),
{
    if rs.len() > 0 {
        let front = rs.drop_last();
        lemma_census_uniform(front);
        lemma_census_one(rs.last());
        lemma_census_add(front, seq![rs.last()]);
        assert(front + seq![rs.last()] =~= rs);
        assert(forall|i: int| 0 <= i < front.len() ==> #[trigger] front[i] == rs[i]);
        assert(rs.last() == rs[rs.len() - 1]);
    } else {
        assert(rs =~= seq![]);
        lemma_census_empty();
    }
}

proof fn lemma_file_records_are_files(fs: Seq<SlackFile>, ts: Seq<char>, at: Setting)
    ensures
        forall|i: int|
            0 <= i < file_records(fs, ts, at).len() ==> (#[trigger] file_records(fs, ts, at)[i]) is File,
    decreases fs.len(),
{
    if fs.len() > 0 {
        lemma_file_records_are_files(fs.drop_last(), ts, at);
    }
}

/// What one message adds to the counts is what it adds to the records.
proof fn lemma_message_census(c: CountsModel, m: SlackMessage, at: Setting, keep_joins: bool)
    ensures
        agree(
            with_message(c, m, keep_joins),
            plus(c, census(message_records(m, at, keep_joins))),
        ),
{
    if imported(m, keep_joins) {
        let first = seq![RecordModel::Message(message_model(m, at))];
        let reactions = reaction_records(m, at);
        let files = file_records(m.files@, m.ts->0@, at);
        lemma_census_one(first[0]);
        lemma_census_uniform(reactions);
        lemma_file_records_are_files(m.files@, m.ts->0@, at);
        lemma_census_uniform(files);
        lemma_census_add(first, reactions);
        lemma_census_add(first + reactions, files);
        lemma_exploded_len(m.reactions@);
        lemma_file_records_len(m.files@, m.ts->0@, at);
        assert(message_model(m, at).thread_reply() == is_reply(m));
    } else {
        lemma_census_empty();
    }
}

proof fn lemma_messages_census(c: CountsModel, ms: Seq<SlackMessage>, at: Setting, keep_joins: bool)
    ensures
        agree(
            with_messages(c, ms, keep_joins),
            plus(c, census(messages_records(ms, at, keep_joins))),
        ),
    decreases ms.len(),
{
    if ms.len() == 0 {
        lemma_census_empty();
    } else {
        let front = ms.drop_last();
        lemma_messages_census(c, front, at, keep_joins);
        lemma_message_census(with_messages(c, front, keep_joins), ms.last(), at, keep_joins);
        lemma_census_add(
            messages_records(front, at, keep_joins),
            message_records(ms.last(), at, keep_joins),
        );
    }
}

proof fn lemma_channel_census(s: Scene, c: CountsModel, x: SummaryModel)
    ensures
        agree(s.with_channel(c, x), plus(c, census(s.channel_part(x)))),
{
    let head = seq![crate::parse::channel_record(x)];
    let listed = CountsModel { channels: c.channels + 1, ..c };
    lemma_census_one(head[0]);
    match x.dir {
        Some(dir) => {
            let at = s.setting(x.slack_id);
            let ms = in_order(gathered(s.days, dir));
            let mid = CountsModel {
                skipped_unparseable: listed.skipped_unparseable + unparsed(s.days, dir),
                ..listed
            };
            lemma_messages_census(mid, ms, at, s.keep_joins);
            lemma_census_add(head, messages_records(ms, at, s.keep_joins));
        },
        None => {
            assert(s.channel_part(x) =~= head);
        },
    }
}

proof fn lemma_channels_census(s: Scene, c: CountsModel, selected: Seq<Seq<char>>)
    ensures
        agree(s.with_channels(c, selected), plus(c, census(s.channel_parts(selected)))),
    decreases selected.len(),
{
    if selected.len() == 0 {
        lemma_census_empty();
    } else {
        let front = selected.drop_last();
        lemma_channels_census(s, c, front);
        match lookup(s.conversations, selected.last()) {
            Some(x) => {
                lemma_channel_census(s, s.with_channels(c, front), x);
                lemma_census_add(s.channel_parts(front), s.channel_part(x));
            },
            None => {
                assert(s.channel_parts(selected) =~= s.channel_parts(front));
            },
        }
    }
}

/// The header's counts are the counts of the records that follow it.
pub proof fn law_header_counts_what_follows(
    s: Scene,
    selected: Seq<Seq<char>>,
    emoji: Seq<(Seq<char>, Seq<char>)>,
)
    ensures
        agree(s.header(selected, emoji).counts, census(s.body(selected, emoji))),
{
    let users = Seq::new(s.users.len(), |i: int| crate::parse::user_record(s.users[i]));
    let table = Seq::new(emoji.len(), |i: int| crate::parse::emoji_record(emoji[i]));
    lemma_census_uniform(users);
    lemma_census_uniform(table);
    lemma_census_add(users, table);
    lemma_census_add(users + table, s.channel_parts(selected));
    lemma_channels_census(
        s,
        CountsModel { users: s.users.len(), ..ir::no_counts() },
        selected,
    );
    let parts = s.channel_parts(selected);
    let is_emoji = |r: RecordModel| r is Emoji;
    assert forall|i: int| 0 <= i < parts.len() implies !is_emoji(#[trigger] parts[i]) by {
        lemma_parts_are_selected(s, selected, i);
    }
    lemma_many_none(parts, is_emoji);
}

// ── where records come from ──────────────────────────────────────────────────

/// The channel that a record belongs to, if it belongs to one.
pub open spec fn channel_of(r: RecordModel) -> Option<Seq<char>> {
    match r {
        RecordModel::Channel(c) => Some(c.slack_id),
        RecordModel::Message(m) => Some(m.channel_slack_id),
        RecordModel::Reaction(x) => Some(x.channel_slack_id),
        RecordModel::File(f) => Some(f.channel_slack_id),
        _ => None,
    }
}

pub open spec fn all_in(rs: Seq<RecordModel>, channel: Seq<char>) -> bool {
    forall|i: int| 0 <= i < rs.len() ==> channel_of(#[trigger] rs[i]) == Some(channel)
}

proof fn lemma_files_in_channel(fs: Seq<SlackFile>, ts: Seq<char>, at: Setting)
    ensures
        all_in(file_records(fs, ts, at), at.channel),
    decreases fs.len(),
{
    if fs.len() > 0 {
        lemma_files_in_channel(fs.drop_last(), ts, at);
    }
}

proof fn lemma_messages_in_channel(ms: Seq<SlackMessage>, at: Setting, keep_joins: bool)
    ensures
        all_in(messages_records(ms, at, keep_joins), at.channel),
    decreases ms.len(),
{
    if ms.len() > 0 {
        let m = ms.last();
        lemma_messages_in_channel(ms.drop_last(), at, keep_joins);
        lemma_files_in_channel(m.files@, m.ts->0@, at);
    }
}

proof fn lemma_lookup(cs: Seq<SummaryModel>, id: Seq<char>)
    ensures
        lookup(cs, id) matches Some(c) ==> c.slack_id == id && cs.contains(c),
    decreases cs.len(),
{
    if cs.len() > 0 {
        if cs[0].slack_id == id {
            assert(cs.contains(cs[0]));
        } else {
            let rest = cs.drop_first();
            lemma_lookup(rest, id);
            match lookup(cs, id) {
                Some(c) => {
                    let i = rest.index_of(c);
                    assert(cs[i + 1] == c);
                },
                None => {},
            }
        }
    }
}

/// Everything a conversation contributes belongs to it.
pub proof fn law_a_conversation_contributes_to_itself(s: Scene, c: SummaryModel)
    ensures
        all_in(s.channel_part(c), c.slack_id),
{
    match c.dir {
        Some(dir) => lemma_messages_in_channel(
            in_order(gathered(s.days, dir)),
            s.setting(c.slack_id),
            s.keep_joins,
        ),
        None => {},
    }
}

proof fn lemma_parts_are_selected(s: Scene, selected: Seq<Seq<char>>, i: int)
    requires
        0 <= i < s.channel_parts(selected).len(),
    ensures
        channel_of(s.channel_parts(selected)[i]) matches Some(ch) && selected.contains(ch),
    decreases selected.len(),
{
    let front = selected.drop_last();
    let lead = s.channel_parts(front);
    lemma_lookup(s.conversations, selected.last());
    if i < lead.len() {
        lemma_parts_are_selected(s, front, i);
        let ch = channel_of(lead[i])->0;
        let k = front.index_of(ch);
        assert(selected[k] == ch);
    } else {
        let c = lookup(s.conversations, selected.last())->0;
        law_a_conversation_contributes_to_itself(s, c);
        assert(s.channel_parts(selected)[i] == s.channel_part(c)[i - lead.len()]);
        assert(selected[selected.len() - 1] == c.slack_id);
    }
}

/// A conversation that was not selected contributes no record.
pub proof fn law_unselected_channels_contribute_nothing(
    s: Scene,
    selected: Seq<Seq<char>>,
    emoji: Seq<(Seq<char>, Seq<char>)>,
    i: int,
)
    requires
        0 <= i < s.body(selected, emoji).len(),
    ensures
        channel_of(s.body(selected, emoji)[i]) matches Some(ch) ==> selected.contains(ch),
{
    let lead = s.users.len() + emoji.len();
    if i >= lead {
        assert(s.body(selected, emoji)[i] == s.channel_parts(selected)[i - lead]);
        lemma_parts_are_selected(s, selected, i - lead);
    }
}

/// Selecting a conversation along with others does not change how it is parsed:
/// what it contributes stands in the import as one block that depends on the
/// conversation alone.
pub proof fn law_selection_does_not_change_a_conversation(
    s: Scene,
    selected: Seq<Seq<char>>,
    emoji: Seq<(Seq<char>, Seq<char>)>,
    i: int,
) -> (at: int)
    requires
        0 <= i < selected.len(),
        lookup(s.conversations, selected[i]) is Some,
    ensures
        ({
            let part = s.channel_part(lookup(s.conversations, selected[i])->0);
            let body = s.body(selected, emoji);
            0 <= at && at + part.len() <= body.len() && body.subrange(at, at + part.len()) == part
        }),
{
    let k = lemma_part_stands(s, selected, i);
    let part = s.channel_part(lookup(s.conversations, selected[i])->0);
    let lead = s.users.len() + emoji.len();
    let body = s.body(selected, emoji);
    assert(body.subrange(lead + k, lead + k + part.len()) =~= s.channel_parts(selected).subrange(
        k,
        k + part.len(),
    ));
    lead + k
}

proof fn lemma_part_stands(s: Scene, selected: Seq<Seq<char>>, i: int) -> (at: int)
    requires
        0 <= i < selected.len(),
        lookup(s.conversations, selected[i]) is Some,
    ensures
        ({
            let part = s.channel_part(lookup(s.conversations, selected[i])->0);
            let all = s.channel_parts(selected);
            0 <= at && at + part.len() <= all.len() && all.subrange(at, at + part.len()) == part
        }),
    decreases selected.len(),
{
    let front = selected.drop_last();
    let part = s.channel_part(lookup(s.conversations, selected[i])->0);
    let all = s.channel_parts(selected);
    if i < front.len() {
        assert(front[i] == selected[i]);
        let at = lemma_part_stands(s, front, i);
        assert(all.subrange(at, at + part.len()) =~= s.channel_parts(front).subrange(
            at,
            at + part.len(),
        ));
        at
    } else {
        let at = s.channel_parts(front).len() as int;
        assert(all.subrange(at, at + part.len()) =~= part);
        at
    }
}

/// Whether a message record repeats a message of the export: its `ts` and its
/// text, verbatim.
pub open spec fn repeats(r: RecordModel, m: SlackMessage) -> bool {
    r matches RecordModel::Message(x) && m.ts is Some && x.slack_ts == m.ts->0@ && x.raw_text
        == raw_words(m)
}

proof fn lemma_in_order_members(ms: Seq<SlackMessage>, i: int)
    requires
        0 <= i < in_order(ms).len(),
    ensures
        ms.contains(in_order(ms)[i]),
{
    lemma_order_exists(moments(ms));
    let o = order_of(moments(ms));
    assert(0 <= o[i] < ms.len());
    assert(ms[o[i]] == in_order(ms)[i]);
}

proof fn lemma_message_source(
    ms: Seq<SlackMessage>,
    at: Setting,
    keep_joins: bool,
    i: int,
) -> (k: int)
    requires
        0 <= i < messages_records(ms, at, keep_joins).len(),
        messages_records(ms, at, keep_joins)[i] is Message,
    ensures
        0 <= k < ms.len(),
        repeats(messages_records(ms, at, keep_joins)[i], ms[k]),
    decreases ms.len(),
{
    let front = ms.drop_last();
    let lead = messages_records(front, at, keep_joins);
    if i < lead.len() {
        lemma_message_source(front, at, keep_joins, i)
    } else {
        let m = ms.last();
        let part = message_records(m, at, keep_joins);
        let r = part[i - lead.len()];
        assert(messages_records(ms, at, keep_joins)[i] == r);
        if i > lead.len() {
            lemma_file_records_are_files(m.files@, m.ts->0@, at);
            let n = reaction_records(m, at).len();
            if i - lead.len() - 1 < n {
                assert(r == reaction_records(m, at)[i - lead.len() - 1]);
            } else {
                assert(r == file_records(m.files@, m.ts->0@, at)[i - lead.len() - 1 - n]);
            }
        }
        ms.len() - 1
    }
}

/// Every message record repeats a message of the conversation's day files, its
/// `ts` and its text verbatim: no identity is made up, and no text is lost.
pub proof fn law_messages_are_repeated_verbatim(
    days: Seq<DayFile>,
    dir: Seq<char>,
    at: Setting,
    keep_joins: bool,
    i: int,
) -> (k: int)
    requires
        0 <= i < conversation_records(days, dir, at, keep_joins).len(),
        conversation_records(days, dir, at, keep_joins)[i] is Message,
    ensures
        0 <= k < gathered(days, dir).len(),
        repeats(conversation_records(days, dir, at, keep_joins)[i], gathered(days, dir)[k]),
{
    let all = gathered(days, dir);
    let j = lemma_message_source(in_order(all), at, keep_joins, i);
    lemma_in_order_members(all, j);
    all.index_of(in_order(all)[j])
}

// ── the order of messages ────────────────────────────────────────────────────

/// The times of the message records, each with the `ts` as Slack wrote it, in
/// order.
pub open spec fn times(rs: Seq<RecordModel>) -> Seq<(i64, Seq<char>)>
    decreases rs.len(),
{
    if rs.len() == 0 {
        seq![]
    } else {
        match rs.last() {
            RecordModel::Message(m) => times(rs.drop_last()).push(
                (m.created_at, m.slack_ts),
            ),
            _ => times(rs.drop_last()),
        }
    }
}

proof fn lemma_times_add(a: Seq<RecordModel>, b: Seq<RecordModel>)
    ensures
        times(a + b) == times(a) + times(b),
    decreases b.len(),
{
    if b.len() == 0 {
        assert(a + b =~= a);
        assert(times(a) + times(b) =~= times(a));
    } else {
        assert((a + b).drop_last() =~= a + b.drop_last());
        lemma_times_add(a, b.drop_last());
        assert(times(a + b) =~= times(a) + times(b));
    }
}

proof fn lemma_times_none(rs: Seq<RecordModel>)
    requires
        forall|i: int| 0 <= i < rs.len() ==> !((#[trigger] rs[i]) is Message),
    ensures
        times(rs) == Seq::<(i64, Seq<char>)>::empty(),
    decreases rs.len(),
{
    if rs.len() > 0 {
        let front = rs.drop_last();
        assert forall|i: int| 0 <= i < front.len() implies !((#[trigger] front[i]) is Message) by {
            assert(front[i] == rs[i]);
        }
        lemma_times_none(front);
        assert(!(rs[rs.len() - 1] is Message));
    }
}

/// The time of a message that is imported.
pub open spec fn time_of(m: SlackMessage) -> (i64, Seq<char>) {
    (secs_of(m)->0, m.ts->0@)
}

/// Whether one time may stand ahead of another: it is earlier by the second, or
/// of the same second with a `ts` that does not sort behind.
pub open spec fn in_turn(a: (i64, Seq<char>), b: (i64, Seq<char>)) -> bool {
    a.0 < b.0 || (a.0 == b.0 && (a.1 == b.1 || lt(a.1, b.1)))
}

proof fn lemma_times_of_message(m: SlackMessage, at: Setting, keep_joins: bool)
    ensures
        times(message_records(m, at, keep_joins)) == if imported(m, keep_joins) {
            seq![time_of(m)]
        } else {
            Seq::<(i64, Seq<char>)>::empty()
        },
{
    if imported(m, keep_joins) {
        let first = seq![RecordModel::Message(message_model(m, at))];
        let reactions = reaction_records(m, at);
        let files = file_records(m.files@, m.ts->0@, at);
        lemma_file_records_are_files(m.files@, m.ts->0@, at);
        lemma_times_none(reactions);
        lemma_times_none(files);
        lemma_times_add(first, reactions);
        lemma_times_add(first + reactions, files);
        reveal_with_fuel(times, 2);
        assert(first.drop_last() =~= seq![]);
        assert(times(first) =~= seq![time_of(m)]);
        assert(times(message_records(m, at, keep_joins)) =~= seq![time_of(m)]);
    }
}

pub open spec fn ascending(ts: Seq<(i64, Seq<char>)>) -> bool {
    forall|i: int, j: int| 0 <= i < j < ts.len() ==> in_turn(#[trigger] ts[i], #[trigger] ts[j])
}

proof fn lemma_times_ascend(ms: Seq<SlackMessage>, at: Setting, keep_joins: bool, n: int)
    requires
        0 <= n <= in_order(ms).len(),
    ensures
        ({
            let ts = times(messages_records(in_order(ms).take(n), at, keep_joins));
            &&& ascending(ts)
            &&& forall|i: int, j: int|
                0 <= i < ts.len() && n <= j < in_order(ms).len() && imported(
                    #[trigger] in_order(ms)[j],
                    keep_joins,
                ) ==> in_turn(#[trigger] ts[i], time_of(in_order(ms)[j]))
        }),
    decreases n,
{
    let all = in_order(ms);
    let upto = all.take(n);
    let ts = times(messages_records(upto, at, keep_joins));
    if n == 0 {
        assert(upto =~= seq![]);
    } else {
        let front = all.take(n - 1);
        let m = all[n - 1];
        let lead = times(messages_records(front, at, keep_joins));
        assert(upto.drop_last() =~= front);
        lemma_times_ascend(ms, at, keep_joins, n - 1);
        lemma_times_of_message(m, at, keep_joins);
        lemma_times_add(
            messages_records(front, at, keep_joins),
            message_records(m, at, keep_joins),
        );
        assert(ts == lead + times(message_records(m, at, keep_joins)));
        if imported(m, keep_joins) {
            assert(ts =~= lead.push(time_of(m)));
        } else {
            assert(ts =~= lead);
        }
        assert forall|i: int, j: int|
            0 <= i < ts.len() && n <= j < all.len() && imported(
                #[trigger] all[j],
                keep_joins,
            ) implies in_turn(#[trigger] ts[i], time_of(all[j])) by {
            if i == lead.len() {
                lemma_order_exists(moments(ms));
                let o = order_of(moments(ms));
                assert(ahead(moments(ms), o[n - 1], o[j]));
                assert(0 <= o[n - 1] < ms.len() && 0 <= o[j] < ms.len());
                lemma_lt_total(m.ts->0@, all[j].ts->0@);
            } else {
                assert(ts[i] == lead[i]);
            }
        }
        assert forall|i: int, j: int| 0 <= i < j < ts.len() implies in_turn(
            #[trigger] ts[i],
            #[trigger] ts[j],
        ) by {
            assert(ts[i] == lead[i]);
            if j < lead.len() {
                assert(ts[j] == lead[j]);
            } else {
                assert(imported(all[n - 1], keep_joins));
            }
        }
    }
}

/// Within a conversation, messages come in the order of their timestamps: by the
/// second, and within one by the `ts` as Slack wrote it.
pub proof fn law_messages_are_ordered(
    days: Seq<DayFile>,
    dir: Seq<char>,
    at: Setting,
    keep_joins: bool,
)
    ensures
        ascending(times(conversation_records(days, dir, at, keep_joins))),
{
    let ms = gathered(days, dir);
    let all = in_order(ms);
    lemma_times_ascend(ms, at, keep_joins, all.len() as int);
    assert(all.take(all.len() as int) =~= all);
}

// ── what probe promised ──────────────────────────────────────────────────────

/// What one message adds to a figure.
pub enum Figure {
    Messages,
    Replies,
    Reactions,
    Dropped,
    Skipped,
    Files,
}

pub open spec fn share(m: SlackMessage, keep_joins: bool, f: Figure) -> nat {
    let dropped = !keep_joins && is_join(m);
    match f {
        Figure::Dropped => if dropped {
            1
        } else {
            0
        },
        Figure::Skipped => if !dropped && secs_of(m) is None {
            1
        } else {
            0
        },
        _ => if !imported(m, keep_joins) {
            0
        } else {
            match f {
                Figure::Messages => 1,
                Figure::Replies => if is_reply(m) {
                    1
                } else {
                    0
                },
                Figure::Reactions => reactors(m.reactions@),
                _ => known_file_ids(m.files@).len(),
            }
        },
    }
}

pub open spec fn total(ms: Seq<SlackMessage>, keep_joins: bool, f: Figure) -> nat
    decreases ms.len(),
{
    if ms.len() == 0 {
        0
    } else {
        total(ms.drop_last(), keep_joins, f) + share(ms.last(), keep_joins, f)
    }
}

proof fn lemma_total_add(a: Seq<SlackMessage>, b: Seq<SlackMessage>, keep_joins: bool, f: Figure)
    ensures
        total(a + b, keep_joins, f) == total(a, keep_joins, f) + total(b, keep_joins, f),
    decreases b.len(),
{
    if b.len() == 0 {
        assert(a + b =~= a);
    } else {
        assert((a + b).drop_last() =~= a + b.drop_last());
        lemma_total_add(a, b.drop_last(), keep_joins, f);
    }
}

proof fn lemma_total_insert(ms: Seq<SlackMessage>, i: int, m: SlackMessage, keep_joins: bool, f: Figure)
    requires
        0 <= i <= ms.len(),
    ensures
        total(ms.insert(i, m), keep_joins, f) == total(ms, keep_joins, f) + share(
            m,
            keep_joins,
            f,
        ),
{
    reveal_with_fuel(total, 2);
    assert(ms.insert(i, m) =~= ms.take(i) + seq![m] + ms.skip(i));
    assert(ms =~= ms.take(i) + ms.skip(i));
    lemma_total_add(ms.take(i) + seq![m], ms.skip(i), keep_joins, f);
    lemma_total_add(ms.take(i), seq![m], keep_joins, f);
    lemma_total_add(ms.take(i), ms.skip(i), keep_joins, f);
    assert(seq![m].drop_last() =~= seq![]);
}

/// Putting one more message in order puts it somewhere among the others.
pub proof fn lemma_in_order_inserts(ms: Seq<SlackMessage>) -> (at: int)
    requires
        ms.len() > 0,
    ensures
        0 <= at <= in_order(ms.drop_last()).len(),
        in_order(ms) == in_order(ms.drop_last()).insert(at, ms.last()),
{
    let front = ms.drop_last();
    assert(moments(ms).drop_last() =~= moments(front));
    let at = lemma_order_inserts(moments(ms));
    lemma_order_exists(moments(front));
    let o = order_of(moments(front));
    let n = order_of(moments(ms));
    assert(n == o.insert(at, ms.len() - 1));
    assert forall|i: int| 0 <= i < n.len() implies ms[n[i]] == in_order(front).insert(
        at,
        ms.last(),
    )[i] by {
        if i < at {
            assert(n[i] == o[i]);
            assert(0 <= o[i] < front.len());
        } else if i > at {
            assert(n[i] == o[i - 1]);
            assert(0 <= o[i - 1] < front.len());
        }
    }
    assert(in_order(ms) =~= in_order(front).insert(at, ms.last()));
    at
}

/// Sorting does not change what there is to count.
proof fn lemma_total_in_order(ms: Seq<SlackMessage>, keep_joins: bool, f: Figure)
    ensures
        total(in_order(ms), keep_joins, f) == total(ms, keep_joins, f),
    decreases ms.len(),
{
    if ms.len() == 0 {
        lemma_order_exists(moments(ms));
        assert(in_order(ms) =~= ms);
    } else {
        let front = ms.drop_last();
        lemma_total_in_order(front, keep_joins, f);
        let at = lemma_in_order_inserts(ms);
        lemma_total_insert(in_order(front), at, ms.last(), keep_joins, f);
    }
}

proof fn lemma_counts_total(c: CountsModel, ms: Seq<SlackMessage>, keep_joins: bool)
    ensures
        ({
            let d = with_messages(c, ms, keep_joins);
            &&& d.messages == c.messages + total(ms, keep_joins, Figure::Messages)
            &&& d.thread_replies == c.thread_replies + total(ms, keep_joins, Figure::Replies)
            &&& d.reactions == c.reactions + total(ms, keep_joins, Figure::Reactions)
            &&& d.files == c.files + total(ms, keep_joins, Figure::Files)
            &&& d.dropped_joins == c.dropped_joins + total(ms, keep_joins, Figure::Dropped)
            &&& d.skipped_unparseable == c.skipped_unparseable + total(
                ms,
                keep_joins,
                Figure::Skipped,
            )
        }),
    decreases ms.len(),
{
    if ms.len() > 0 {
        lemma_counts_total(c, ms.drop_last(), keep_joins);
    }
}

proof fn lemma_figures_total(f: Figures, ms: Seq<SlackMessage>, keep_joins: bool)
    ensures
        ({
            let g = probe::with_messages(f, ms, keep_joins);
            &&& g.messages == f.messages + total(ms, keep_joins, Figure::Messages)
            &&& g.replies == f.replies + total(ms, keep_joins, Figure::Replies)
            &&& g.reactions == f.reactions + total(ms, keep_joins, Figure::Reactions)
            &&& g.files == f.files + total(ms, keep_joins, Figure::Files)
            &&& g.dropped == f.dropped + total(ms, keep_joins, Figure::Dropped)
            &&& g.skipped == f.skipped + total(ms, keep_joins, Figure::Skipped)
        }),
    decreases ms.len(),
{
    if ms.len() > 0 {
        lemma_figures_total(f, ms.drop_last(), keep_joins);
    }
}

proof fn lemma_days_total(days: Seq<DayFile>, dir: Seq<char>, keep_joins: bool)
    ensures
        ({
            let g = probe::with_days(probe::no_figures(), days, dir, keep_joins);
            let ms = gathered(days, dir);
            &&& g.messages == total(ms, keep_joins, Figure::Messages)
            &&& g.replies == total(ms, keep_joins, Figure::Replies)
            &&& g.reactions == total(ms, keep_joins, Figure::Reactions)
            &&& g.files == total(ms, keep_joins, Figure::Files)
            &&& g.dropped == total(ms, keep_joins, Figure::Dropped)
            &&& g.skipped == total(ms, keep_joins, Figure::Skipped) + unparsed(days, dir)
        }),
    decreases days.len(),
{
    if days.len() > 0 {
        let front = days.drop_last();
        lemma_days_total(front, dir, keep_joins);
        if days.last().dir@ == dir {
            match days.last().messages {
                Some(ms) => {
                    let lead = gathered(front, dir);
                    lemma_figures_total(
                        probe::with_days(probe::no_figures(), front, dir, keep_joins),
                        ms@,
                        keep_joins,
                    );
                    lemma_total_add(lead, ms@, keep_joins, Figure::Messages);
                    lemma_total_add(lead, ms@, keep_joins, Figure::Replies);
                    lemma_total_add(lead, ms@, keep_joins, Figure::Reactions);
                    lemma_total_add(lead, ms@, keep_joins, Figure::Files);
                    lemma_total_add(lead, ms@, keep_joins, Figure::Dropped);
                    lemma_total_add(lead, ms@, keep_joins, Figure::Skipped);
                },
                None => {},
            }
        }
    }
}

/// The counts that `probe` shows for a conversation are the counts that `parse`
/// gives it, under the same `keep_joins`.
pub proof fn law_probe_shows_what_parse_gives(
    c: CountsModel,
    days: Seq<DayFile>,
    dir: Seq<char>,
    keep_joins: bool,
)
    ensures
        ({
            let shown = probe::with_days(probe::no_figures(), days, dir, keep_joins);
            let given = with_conversation(c, days, dir, keep_joins);
            &&& given.messages == c.messages + shown.messages
            &&& given.thread_replies == c.thread_replies + shown.replies
            &&& given.reactions == c.reactions + shown.reactions
            &&& given.files == c.files + shown.files
            &&& given.dropped_joins == c.dropped_joins + shown.dropped
            &&& given.skipped_unparseable == c.skipped_unparseable + shown.skipped
        }),
{
    let ms = gathered(days, dir);
    let mid = CountsModel {
        skipped_unparseable: c.skipped_unparseable + unparsed(days, dir),
        ..c
    };
    lemma_counts_total(mid, in_order(ms), keep_joins);
    lemma_days_total(days, dir, keep_joins);
    lemma_total_in_order(ms, keep_joins, Figure::Messages);
    lemma_total_in_order(ms, keep_joins, Figure::Replies);
    lemma_total_in_order(ms, keep_joins, Figure::Reactions);
    lemma_total_in_order(ms, keep_joins, Figure::Files);
    lemma_total_in_order(ms, keep_joins, Figure::Dropped);
    lemma_total_in_order(ms, keep_joins, Figure::Skipped);
}

/// Keeping joins imports exactly the dropped ones besides. (A membership message
/// without a usable `ts` cannot be imported either way.)
pub proof fn law_keeping_joins_imports_exactly_the_dropped(
    c: CountsModel,
    days: Seq<DayFile>,
    dir: Seq<char>,
)
    requires
        probe::joins_are_dated(days),
    ensures
        ({
            let dropping = with_conversation(c, days, dir, false);
            let keeping = with_conversation(c, days, dir, true);
            &&& keeping.messages == dropping.messages + (dropping.dropped_joins - c.dropped_joins)
            &&& keeping.dropped_joins == c.dropped_joins
            &&& keeping.skipped_unparseable == dropping.skipped_unparseable
        }),
{
    law_probe_shows_what_parse_gives(c, days, dir, false);
    law_probe_shows_what_parse_gives(c, days, dir, true);
    probe::law_keeping_joins_adds_exactly_the_dropped(days, dir);
}

// ── unrecognised subtypes ────────────────────────────────────────────────────

/// How many messages that are not dropped have this subtype.
pub open spec fn with_this_subtype(ms: Seq<SlackMessage>, name: Seq<char>, keep_joins: bool) -> nat
    decreases ms.len(),
{
    if ms.len() == 0 {
        0
    } else {
        with_this_subtype(ms.drop_last(), name, keep_joins) + if (keep_joins || !is_join(ms.last()))
            && ms.last().subtype.deep_view() == Some(name) {
            1nat
        } else {
            0nat
        }
    }
}

/// Every message with a subtype this build does not recognise is counted under
/// it, and no recognised subtype is counted at all.
pub proof fn law_unknown_subtypes_are_counted(
    c: CountsModel,
    ms: Seq<SlackMessage>,
    keep_joins: bool,
    name: Seq<char>,
)
    ensures
        ({
            let d = with_messages(c, ms, keep_joins);
            if handling_of(Some(name)) is Unknown {
                count_in(d.unknown_subtypes, name) == count_in(c.unknown_subtypes, name)
                    + with_this_subtype(ms, name, keep_joins)
            } else {
                d.unknown_subtypes.contains_key(name) == c.unknown_subtypes.contains_key(name)
            }
        }),
    decreases ms.len(),
{
    if ms.len() > 0 {
        law_unknown_subtypes_are_counted(c, ms.drop_last(), keep_joins, name);
    }
}

} // verus!
