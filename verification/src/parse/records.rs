//! What an import says of each thing in the export.

use vstd::prelude::*;

use crate::error::Failure;
use crate::export::{DayFile, Export};
use crate::ir::{ts_secs, ChannelKind, ChannelModel, MessageModel, RecordModel};
use crate::mrkdwn::{normal_mentions, normal_text};
use crate::order::laws::each_once;
use crate::order::{
    ahead, lemma_not_ahead_self, lemma_order_exists, lemma_sort_is_onto, order_of, sorted_pairs,
};
use crate::parse::alike::{emoji_of, import_of};
use crate::parse::laws::law_selection_does_not_change_a_conversation;
use crate::parse::{
    channel_names, conversation_records, exploded, file_records, gathered, in_order, lookup,
    message_records, messages_records, moments, parsed, reaction_records, scene, user_names,
    ImportModel, Options, Scene, Setting,
};
use crate::probe::{known_file_ids, manifest_summaries, Inventory, SummaryModel};
use crate::selection::{ids, resolution, FilterModel};
use crate::slack::laws::{law_broadcasts_have_two_spellings, law_churn_is_joining_and_leaving};
use crate::slack::{SlackConversation, SlackFile, SlackMessage, SlackReaction, SlackUser};
use crate::text::{lemma_lt_total, lt};

verus! {

// ── conversations ────────────────────────────────────────────────────────────

/// Whether a channel record says what an inventory entry says.
pub open spec fn channel_says(x: ChannelModel, c: SummaryModel) -> bool {
    &&& x.slack_id == c.slack_id
    &&& x.name == c.name
    &&& x.kind == c.kind
    &&& x.is_archived == c.is_archived
    &&& x.members == c.members
    &&& x.topic is None && x.purpose is None && x.creator is None && x.created is None
}

proof fn lemma_lookup_at(cs: Seq<SummaryModel>, k: int)
    requires
        ids(cs).no_duplicates(),
        0 <= k < cs.len(),
    ensures
        lookup(cs, cs[k].slack_id) == Some(cs[k]),
    decreases cs.len(),
{
    if k > 0 {
        assert(ids(cs)[0] != ids(cs)[k]);
        let rest = cs.drop_first();
        assert forall|i: int, j: int| 0 <= i < rest.len() && 0 <= j < rest.len() && i
            != j implies ids(rest)[i] != ids(rest)[j] by {
            assert(ids(cs)[i + 1] != ids(cs)[j + 1]);
        }
        lemma_lookup_at(rest, k - 1);
    }
}

/// Each selected conversation has a channel record, which says what the inventory
/// says of it: the id, the name, the kind, whether it is archived, and who is in
/// it.
pub proof fn law_selected_conversations_are_recorded(
    s: Scene,
    selected: Seq<Seq<char>>,
    emoji: Seq<(Seq<char>, Seq<char>)>,
    i: int,
    k: int,
) -> (at: int)
    requires
        parsed(s, selected, emoji) is Ok,
        ids(s.conversations).no_duplicates(),
        0 <= i < selected.len(),
        0 <= k < s.conversations.len(),
        s.conversations[k].slack_id == selected[i],
    ensures
        0 <= at < parsed(s, selected, emoji)->Ok_0.records.len(),
        parsed(s, selected, emoji)->Ok_0.records[at] matches RecordModel::Channel(x)
            && channel_says(x, s.conversations[k]),
{
    lemma_lookup_at(s.conversations, k);
    let n = law_selection_does_not_change_a_conversation(s, selected, emoji, i);
    let part = s.channel_part(s.conversations[k]);
    let body = s.body(selected, emoji);
    assert(body.subrange(n, n + part.len())[0] == body[n]);
    assert(parsed(s, selected, emoji)->Ok_0.records[n + 1] == body[n]);
    n + 1
}

/// Every channel record is that of a selected conversation, and says what the
/// inventory says of it.
pub proof fn law_channel_records_are_of_conversations(
    s: Scene,
    selected: Seq<Seq<char>>,
    emoji: Seq<(Seq<char>, Seq<char>)>,
    at: int,
)
    requires
        parsed(s, selected, emoji) is Ok,
        0 <= at < parsed(s, selected, emoji)->Ok_0.records.len(),
    ensures
        parsed(s, selected, emoji)->Ok_0.records[at] matches RecordModel::Channel(x) ==> exists|
            k: int,
        |
            0 <= k < s.conversations.len() && channel_says(x, #[trigger] s.conversations[k])
                && selected.contains(x.slack_id),
{
    let records = parsed(s, selected, emoji)->Ok_0.records;
    let body = s.body(selected, emoji);
    let lead = s.users.len() + emoji.len();
    if records[at] is Channel {
        assert(records[at] == body[at - 1]);
        assert(body[at - 1] == s.channel_parts(selected)[at - 1 - lead]);
        lemma_channel_source(s, selected, at - 1 - lead);
    }
}

proof fn lemma_channel_source(s: Scene, selected: Seq<Seq<char>>, i: int)
    requires
        0 <= i < s.channel_parts(selected).len(),
    ensures
        s.channel_parts(selected)[i] matches RecordModel::Channel(x) ==> exists|k: int|
            0 <= k < s.conversations.len() && channel_says(x, #[trigger] s.conversations[k])
                && selected.contains(x.slack_id),
    decreases selected.len(),
{
    let front = selected.drop_last();
    let lead = s.channel_parts(front);
    if i < lead.len() {
        lemma_channel_source(s, front, i);
        if let RecordModel::Channel(x) = lead[i] {
            let k = front.index_of(x.slack_id);
            assert(selected[k] == x.slack_id);
        }
    } else {
        lemma_found(s.conversations, selected.last());
        let c = lookup(s.conversations, selected.last())->0;
        let part = s.channel_part(c);
        assert(s.channel_parts(selected)[i] == part[i - lead.len()]);
        if i > lead.len() {
            let dir = c.dir->0;
            lemma_no_channels(
                in_order(gathered(s.days, dir)),
                s.setting(c.slack_id),
                s.keep_joins,
                i - lead.len() - 1,
            );
        } else {
            let k = s.conversations.index_of(c);
            assert(channel_says(part[0]->Channel_0, s.conversations[k]));
            assert(selected[selected.len() - 1] == c.slack_id);
        }
    }
}

proof fn lemma_found(cs: Seq<SummaryModel>, id: Seq<char>)
    ensures
        lookup(cs, id) matches Some(c) ==> c.slack_id == id && cs.contains(c),
    decreases cs.len(),
{
    if cs.len() > 0 {
        if cs[0].slack_id == id {
            assert(cs.contains(cs[0]));
        } else {
            let rest = cs.drop_first();
            lemma_found(rest, id);
            if let Some(c) = lookup(rest, id) {
                let k = rest.index_of(c);
                assert(cs[k + 1] == c);
            }
        }
    }
}

proof fn lemma_file_kinds(fs: Seq<SlackFile>, ts: Seq<char>, at: Setting, i: int)
    requires
        0 <= i < file_records(fs, ts, at).len(),
    ensures
        file_records(fs, ts, at)[i] is File,
    decreases fs.len(),
{
    let front = file_records(fs.drop_last(), ts, at);
    if i < front.len() {
        lemma_file_kinds(fs.drop_last(), ts, at, i);
    }
}

proof fn lemma_no_channels(ms: Seq<SlackMessage>, at: Setting, keep_joins: bool, i: int)
    requires
        0 <= i < messages_records(ms, at, keep_joins).len(),
    ensures
        !(messages_records(ms, at, keep_joins)[i] is Channel),
    decreases ms.len(),
{
    let front = messages_records(ms.drop_last(), at, keep_joins);
    if i < front.len() {
        lemma_no_channels(ms.drop_last(), at, keep_joins, i);
    } else {
        let m = ms.last();
        let part = message_records(m, at, keep_joins);
        let n = reaction_records(m, at).len();
        assert(messages_records(ms, at, keep_joins)[i] == part[i - front.len()]);
        if i - front.len() > n {
            lemma_file_kinds(m.files@, m.ts->0@, at, i - front.len() - 1 - n);
        }
    }
}

/// An import is refused for the first selected id that the inventory does not list;
/// where it lists them all, there is one.
pub proof fn law_unlisted_ids_are_refused(
    s: Scene,
    selected: Seq<Seq<char>>,
    emoji: Seq<(Seq<char>, Seq<char>)>,
) -> (k: int)
    ensures
        0 <= k <= selected.len(),
        forall|j: int| 0 <= j < k ==> ids(s.conversations).contains(#[trigger] selected[j]),
        k < selected.len() ==> !ids(s.conversations).contains(selected[k]) && parsed(
            s,
            selected,
            emoji,
        ) == Err::<ImportModel, Failure>(Failure::UnknownSelectedConversation { id: selected[k] }),
        k == selected.len() ==> parsed(s, selected, emoji) is Ok,
{
    lemma_first_missing(s, selected, 0)
}

proof fn lemma_first_missing(s: Scene, selected: Seq<Seq<char>>, from: int) -> (k: int)
    requires
        0 <= from <= selected.len(),
    ensures
        from <= k <= selected.len(),
        forall|j: int| from <= j < k ==> ids(s.conversations).contains(#[trigger] selected[j]),
        k < selected.len() ==> !ids(s.conversations).contains(selected[k]) && s.first_missing(
            selected,
            from,
        ) == Some(selected[k]),
        k == selected.len() ==> s.first_missing(selected, from) is None,
    decreases selected.len() - from,
{
    if from == selected.len() {
        from
    } else {
        let cs = s.conversations;
        let id = selected[from];
        lemma_found(cs, id);
        if lookup(cs, id) is None {
            lemma_not_found(cs, id);
            from
        } else {
            let i = cs.index_of(lookup(cs, id)->0);
            assert(ids(cs)[i] == id);
            lemma_first_missing(s, selected, from + 1)
        }
    }
}

proof fn lemma_not_found(cs: Seq<SummaryModel>, id: Seq<char>)
    requires
        lookup(cs, id) is None,
    ensures
        !ids(cs).contains(id),
    decreases cs.len(),
{
    if cs.len() > 0 {
        let rest = cs.drop_first();
        lemma_not_found(rest, id);
        if ids(cs).contains(id) {
            let i = ids(cs).index_of(id);
            assert(ids(cs)[i] == cs[i].slack_id);
            assert(ids(rest)[i - 1] == id);
        }
    }
}

/// Selecting one conversation more adds what it contributes at the end, behind what
/// was there, starting with its channel record.
pub proof fn law_selecting_more_adds_at_the_end(
    s: Scene,
    selected: Seq<Seq<char>>,
    emoji: Seq<(Seq<char>, Seq<char>)>,
    k: int,
)
    requires
        parsed(s, selected, emoji) is Ok,
        ids(s.conversations).no_duplicates(),
        0 <= k < s.conversations.len(),
    ensures
        ({
            let more = selected.push(s.conversations[k].slack_id);
            &&& parsed(s, more, emoji) is Ok
            &&& {
                let before = parsed(s, selected, emoji)->Ok_0.records;
                let after = parsed(s, more, emoji)->Ok_0.records;
                &&& before.len() < after.len()
                &&& after.subrange(1, before.len() as int) == before.skip(1)
                &&& after[before.len() as int] matches RecordModel::Channel(x) && channel_says(
                    x,
                    s.conversations[k],
                )
                &&& s.conversations[k].dir matches Some(dir) ==> after.skip(
                    before.len() as int + 1,
                ) == conversation_records(
                    s.days,
                    dir,
                    s.setting(s.conversations[k].slack_id),
                    s.keep_joins,
                )
                &&& s.conversations[k].dir is None ==> after.len() == before.len() + 1
            }
        }),
{
    let c = s.conversations[k];
    let more = selected.push(c.slack_id);
    lemma_lookup_at(s.conversations, k);
    let a = law_unlisted_ids_are_refused(s, selected, emoji);
    let b = law_unlisted_ids_are_refused(s, more, emoji);
    if b < more.len() {
        if b < selected.len() {
            assert(more[b] == selected[b]);
            assert(ids(s.conversations).contains(selected[b]));
        } else {
            assert(ids(s.conversations)[k] == more[b]);
        }
    }
    assert(more.drop_last() =~= selected);
    let before = parsed(s, selected, emoji)->Ok_0.records;
    let after = parsed(s, more, emoji)->Ok_0.records;
    let part = s.channel_part(c);
    assert(s.body(more, emoji) =~= s.body(selected, emoji) + part);
    assert(after.subrange(1, before.len() as int) =~= before.skip(1));
    assert(after[before.len() as int] == part[0]);
    assert(after.skip(before.len() as int + 1) =~= part.skip(1));
    if let Some(dir) = c.dir {
        assert(part.skip(1) =~= conversation_records(
            s.days,
            dir,
            s.setting(c.slack_id),
            s.keep_joins,
        ));
    }
}

/// Where the entries of a manifest stand in the inventory: they follow those of
/// the manifests ahead of it, public channels first, then private ones, then group
/// DMs, then DMs.
pub open spec fn entries_ahead(e: Export, kind: ChannelKind) -> int {
    let public = count_entries(e.channels);
    let private = count_entries(e.groups);
    let groups = count_entries(e.mpims);
    match kind {
        ChannelKind::Public => 0,
        ChannelKind::Private => public,
        ChannelKind::GroupDm => public + private,
        ChannelKind::Dm => public + private + groups,
    }
}

/// How many conversations a manifest lists.
pub open spec fn count_entries(entries: Option<Vec<SlackConversation>>) -> int {
    match entries {
        Some(es) => es@.len() as int,
        None => 0,
    }
}

/// Whether an inventory entry says what a manifest entry says.
pub open spec fn entry_says(c: SummaryModel, e: SlackConversation, kind: ChannelKind) -> bool {
    &&& c.slack_id == e.id@
    &&& c.name == e.name.deep_view()
    &&& c.kind == kind
    &&& c.is_archived == e.is_archived
    &&& c.members == e.members.deep_view()
}

/// The manifest that lists a conversation decides its kind: `channels.json` lists
/// public channels, `groups.json` private ones, `mpims.json` group DMs and
/// `dms.json` DMs. The inventory says the rest as the manifest does.
pub proof fn law_manifests_decide_the_kind(e: Export, keep_joins: bool, i: int)
    requires
        0 <= i,
    ensures
        e.inventory(keep_joins).len() == count_entries(e.channels) + count_entries(e.groups)
            + count_entries(e.mpims) + count_entries(e.dms),
        i < count_entries(e.channels) ==> entry_says(
            e.inventory(keep_joins)[entries_ahead(e, ChannelKind::Public) + i],
            e.channels->0@[i],
            ChannelKind::Public,
        ),
        i < count_entries(e.groups) ==> entry_says(
            e.inventory(keep_joins)[entries_ahead(e, ChannelKind::Private) + i],
            e.groups->0@[i],
            ChannelKind::Private,
        ),
        i < count_entries(e.mpims) ==> entry_says(
            e.inventory(keep_joins)[entries_ahead(e, ChannelKind::GroupDm) + i],
            e.mpims->0@[i],
            ChannelKind::GroupDm,
        ),
        i < count_entries(e.dms) ==> entry_says(
            e.inventory(keep_joins)[entries_ahead(e, ChannelKind::Dm) + i],
            e.dms->0@[i],
            ChannelKind::Dm,
        ),
{
    let dirs = e.dirs.deep_view();
    let a = manifest_summaries(e.channels, ChannelKind::Public, dirs);
    let b = manifest_summaries(e.groups, ChannelKind::Private, dirs);
    let c = manifest_summaries(e.mpims, ChannelKind::GroupDm, dirs);
    let d = manifest_summaries(e.dms, ChannelKind::Dm, dirs);
    assert(a.len() == count_entries(e.channels));
    assert(b.len() == count_entries(e.groups));
    assert(c.len() == count_entries(e.mpims));
    assert(d.len() == count_entries(e.dms));
    if i < a.len() {
        assert(e.listed()[i] == a[i]);
    }
    if i < b.len() {
        assert(e.listed()[a.len() + i] == b[i]);
    }
    if i < c.len() {
        assert(e.listed()[a.len() + b.len() + i] == c[i]);
    }
    if i < d.len() {
        assert(e.listed()[a.len() + b.len() + c.len() + i] == d[i]);
    }
}

/// Whether a channel record, where it is of a manifest's entry, says what the entry
/// says, with the manifest's kind.
pub open spec fn listed_as(
    x: ChannelModel,
    entries: Option<Vec<SlackConversation>>,
    i: int,
    kind: ChannelKind,
) -> bool {
    0 <= i < count_entries(entries) && entries->0@[i].id@ == x.slack_id ==> {
        &&& x.kind == kind
        &&& x.name == entries->0@[i].name.deep_view()
        &&& x.is_archived == entries->0@[i].is_archived
        &&& x.members == entries->0@[i].members.deep_view()
    }
}

/// From the manifest to the import: a channel record has the kind of the manifest
/// that lists the conversation. Private channels and DMs are never imported as
/// public ones.
pub proof fn law_imports_keep_the_kind(
    e: Export,
    probe_joins: bool,
    filter: FilterModel,
    keep_joins: bool,
    at: int,
    i: int,
)
    requires
        import_of(e, probe_joins, filter, keep_joins) is Ok,
        ids(e.inventory(probe_joins)).no_duplicates(),
        0 <= at < import_of(e, probe_joins, filter, keep_joins)->Ok_0.records.len(),
        0 <= i,
    ensures
        import_of(e, probe_joins, filter, keep_joins)->Ok_0.records[at] matches RecordModel::Channel(
            x,
        ) ==> listed_as(x, e.channels, i, ChannelKind::Public) && listed_as(
            x,
            e.groups,
            i,
            ChannelKind::Private,
        ) && listed_as(x, e.mpims, i, ChannelKind::GroupDm) && listed_as(
            x,
            e.dms,
            i,
            ChannelKind::Dm,
        ),
{
    let cs = e.inventory(probe_joins);
    let s = Scene { users: e.user_list(), conversations: cs, days: e.days@, keep_joins };
    let selected = resolution(filter, cs)->Ok_0.selected;
    let emoji = emoji_of(e)->0;
    assert(import_of(e, probe_joins, filter, keep_joins) == parsed(s, selected, emoji));
    law_channel_records_are_of_conversations(s, selected, emoji, at);
    law_manifests_decide_the_kind(e, probe_joins, i);
    if let RecordModel::Channel(x) = parsed(s, selected, emoji)->Ok_0.records[at] {
        let k = choose|k: int|
            0 <= k < cs.len() && channel_says(x, #[trigger] cs[k]) && selected.contains(x.slack_id);
        assert(ids(cs)[k] == x.slack_id);
        let (a, b, c, d) = (
            entries_ahead(e, ChannelKind::Public) + i,
            entries_ahead(e, ChannelKind::Private) + i,
            entries_ahead(e, ChannelKind::GroupDm) + i,
            entries_ahead(e, ChannelKind::Dm) + i,
        );
        if i < count_entries(e.channels) {
            assert(ids(cs)[a] == cs[a].slack_id);
        }
        if i < count_entries(e.groups) {
            assert(ids(cs)[b] == cs[b].slack_id);
        }
        if i < count_entries(e.mpims) {
            assert(ids(cs)[c] == cs[c].slack_id);
        }
        if i < count_entries(e.dms) {
            assert(ids(cs)[d] == cs[d].slack_id);
        }
    }
}

/// What is parsed: the day files of the export, with the users and the conversations
/// of the inventory, under the options.
pub proof fn law_exports_are_parsed_by_their_inventory(
    e: Export,
    inventory: Inventory,
    options: Options,
)
    ensures
        scene(e, inventory, options).users == inventory.users@,
        scene(e, inventory, options).conversations == inventory.models(),
        scene(e, inventory, options).days == e.days@,
        scene(e, inventory, options).keep_joins == options.keep_joins,
{
}

// ── header, users, emoji ─────────────────────────────────────────────────────

/// An import starts with the header, which names the format, the selection and the
/// counts; what was not selected is listed as skipped. Then come the users, one
/// record each, and the custom emoji.
pub proof fn law_header_users_and_emoji_lead(
    s: Scene,
    selected: Seq<Seq<char>>,
    emoji: Seq<(Seq<char>, Seq<char>)>,
    i: int,
)
    requires
        parsed(s, selected, emoji) is Ok,
        0 <= i,
    ensures
        parsed(s, selected, emoji)->Ok_0.records[0] matches RecordModel::Header(h) && {
            &&& h.ir_version == 1
            &&& h.generator == "slack2buzz 0.1.0"@
            &&& h.source == "slack"@
            &&& h.team_id is None
            &&& h.selected_channels == selected
            &&& forall|id: Seq<char>| #[trigger]
                h.skipped_channels.contains(id) <==> ids(s.conversations).contains(id)
                    && !selected.contains(id)
            &&& h.counts == parsed(s, selected, emoji)->Ok_0.counts
        },
        i < s.users.len() ==> (parsed(s, selected, emoji)->Ok_0.records[1 + i]
            matches RecordModel::User(u) && {
            &&& u.slack_id == s.users[i].id@
            &&& u.name == s.users[i].name@
            &&& u.display_name == s.users[i].shown_name()
            &&& u.real_name == s.users[i].real_name_text()
            &&& u.avatar_url == s.users[i].avatar()
            &&& u.timezone == s.users[i].tz.deep_view()
            &&& u.is_bot == s.users[i].is_bot
            &&& u.is_deleted == s.users[i].deleted
        }),
        i < emoji.len() ==> (parsed(s, selected, emoji)->Ok_0.records[1 + s.users.len() + i]
            matches RecordModel::Emoji(x) && x.name == emoji[i].0 && x.url == emoji[i].1),
        parsed(s, selected, emoji)->Ok_0.counts.users == s.users.len(),
        parsed(s, selected, emoji)->Ok_0.counts.emoji == emoji.len(),
{
    let p = |c: SummaryModel| !selected.contains(c.slack_id);
    crate::order::lemma_kept(s.conversations, p);
    let rest = s.conversations.filter(p);
    let h = s.header(selected, emoji);
    assert(h.skipped_channels == ids(rest));
    assert forall|id: Seq<char>| #[trigger]
        h.skipped_channels.contains(id) <==> ids(s.conversations).contains(id)
            && !selected.contains(id) by {
        if ids(rest).contains(id) {
            let k = ids(rest).index_of(id);
            assert(p(rest[k]));
            assert(s.conversations.contains(rest[k]));
            let j = s.conversations.index_of(rest[k]);
            assert(ids(s.conversations)[j] == id);
        }
        if ids(s.conversations).contains(id) && !selected.contains(id) {
            let j = ids(s.conversations).index_of(id);
            assert(p(s.conversations[j]));
            assert(rest.contains(s.conversations[j]));
            let k = rest.index_of(s.conversations[j]);
            assert(ids(rest)[k] == id);
        }
    }
    let body = s.body(selected, emoji);
    let records = parsed(s, selected, emoji)->Ok_0.records;
    if i < s.users.len() {
        assert(records[1 + i] == body[i]);
    }
    if i < emoji.len() {
        assert(records[1 + s.users.len() + i] == body[s.users.len() + i]);
    }
    lemma_users_counted(
        s,
        crate::ir::CountsModel { users: s.users.len(), ..crate::ir::no_counts() },
        selected,
    );
}

proof fn lemma_users_kept(
    c: crate::ir::CountsModel,
    ms: Seq<SlackMessage>,
    keep_joins: bool,
)
    ensures
        crate::parse::with_messages(c, ms, keep_joins).users == c.users,
    decreases ms.len(),
{
    if ms.len() > 0 {
        lemma_users_kept(c, ms.drop_last(), keep_joins);
    }
}

proof fn lemma_users_counted(s: Scene, c: crate::ir::CountsModel, selected: Seq<Seq<char>>)
    ensures
        s.with_channels(c, selected).users == c.users,
    decreases selected.len(),
{
    if selected.len() > 0 {
        lemma_users_counted(s, c, selected.drop_last());
        let before = s.with_channels(c, selected.drop_last());
        if let Some(x) = lookup(s.conversations, selected.last()) {
            if let Some(dir) = x.dir {
                let listed = crate::ir::CountsModel { channels: before.channels + 1, ..before };
                lemma_users_kept(
                    crate::ir::CountsModel {
                        skipped_unparseable: listed.skipped_unparseable + crate::parse::unparsed(
                            s.days,
                            dir,
                        ),
                        ..listed
                    },
                    in_order(gathered(s.days, dir)),
                    s.keep_joins,
                );
            }
        }
    }
}

/// In message texts a user goes by the name they are shown under, and a channel by
/// its name; what is not listed has no name.
pub proof fn law_ids_are_resolved_to_names(s: Scene, channel: Seq<char>, i: int, id: Seq<char>)
    requires
        0 <= i,
        forall|a: int, b: int|
            0 <= a < b < s.users.len() ==> #[trigger] s.users[a].id@ != #[trigger] s.users[b].id@,
        ids(s.conversations).no_duplicates(),
    ensures
        s.setting(channel).channel == channel,
        i < s.users.len() ==> s.setting(channel).users.contains_key(s.users[i].id@) && s.setting(
            channel,
        ).users[s.users[i].id@] == s.users[i].shown_name(),
        (forall|a: int| 0 <= a < s.users.len() ==> (#[trigger] s.users[a]).id@ != id)
            ==> !s.setting(channel).users.contains_key(id),
        i < s.conversations.len() ==> (s.conversations[i].name matches Some(n) ==> s.setting(
            channel,
        ).channels.contains_key(s.conversations[i].slack_id) && s.setting(
            channel,
        ).channels[s.conversations[i].slack_id] == n),
        (forall|a: int|
            0 <= a < s.conversations.len() ==> (#[trigger] s.conversations[a]).slack_id != id
                || s.conversations[a].name is None) ==> !s.setting(channel).channels.contains_key(
            id,
        ),
{
    if i < s.users.len() {
        lemma_user_named(s.users, i);
    }
    if forall|a: int| 0 <= a < s.users.len() ==> (#[trigger] s.users[a]).id@ != id {
        lemma_user_unnamed(s.users, id);
    }
    if i < s.conversations.len() {
        lemma_channel_named(s.conversations, i);
    }
    if forall|a: int|
        0 <= a < s.conversations.len() ==> (#[trigger] s.conversations[a]).slack_id != id
            || s.conversations[a].name is None {
        lemma_channel_unnamed(s.conversations, id);
    }
}

proof fn lemma_user_named(us: Seq<SlackUser>, i: int)
    requires
        0 <= i < us.len(),
        forall|a: int, b: int|
            0 <= a < b < us.len() ==> #[trigger] us[a].id@ != #[trigger] us[b].id@,
    ensures
        user_names(us).contains_key(us[i].id@),
        user_names(us)[us[i].id@] == us[i].shown_name(),
    decreases us.len(),
{
    if i < us.len() - 1 {
        let front = us.drop_last();
        assert forall|a: int, b: int| 0 <= a < b < front.len() implies #[trigger] front[a].id@
            != #[trigger] front[b].id@ by {
            assert(us[a].id@ != us[b].id@);
        }
        lemma_user_named(front, i);
        assert(us[i].id@ != us[us.len() - 1].id@);
    }
}

proof fn lemma_user_unnamed(us: Seq<SlackUser>, id: Seq<char>)
    requires
        forall|a: int| 0 <= a < us.len() ==> (#[trigger] us[a]).id@ != id,
    ensures
        !user_names(us).contains_key(id),
    decreases us.len(),
{
    if us.len() > 0 {
        let front = us.drop_last();
        assert forall|a: int| 0 <= a < front.len() implies (#[trigger] front[a]).id@ != id by {
            assert(us[a].id@ != id);
        }
        lemma_user_unnamed(front, id);
        assert(us[us.len() - 1].id@ != id);
    }
}

proof fn lemma_channel_named(cs: Seq<SummaryModel>, i: int)
    requires
        0 <= i < cs.len(),
        ids(cs).no_duplicates(),
    ensures
        cs[i].name matches Some(n) ==> channel_names(cs).contains_key(cs[i].slack_id)
            && channel_names(cs)[cs[i].slack_id] == n,
    decreases cs.len(),
{
    if i < cs.len() - 1 {
        let front = cs.drop_last();
        assert forall|a: int, b: int| 0 <= a < front.len() && 0 <= b < front.len() && a
            != b implies ids(front)[a] != ids(front)[b] by {
            assert(ids(cs)[a] != ids(cs)[b]);
        }
        lemma_channel_named(front, i);
        assert(ids(cs)[i] != ids(cs)[cs.len() - 1]);
    }
}

proof fn lemma_channel_unnamed(cs: Seq<SummaryModel>, id: Seq<char>)
    requires
        forall|a: int|
            0 <= a < cs.len() ==> (#[trigger] cs[a]).slack_id != id || cs[a].name is None,
    ensures
        !channel_names(cs).contains_key(id),
    decreases cs.len(),
{
    if cs.len() > 0 {
        let front = cs.drop_last();
        assert forall|a: int| 0 <= a < front.len() implies (#[trigger] front[a]).slack_id != id
            || front[a].name is None by {
            assert(cs[a].slack_id != id || cs[a].name is None);
        }
        lemma_channel_unnamed(front, id);
        assert(cs[cs.len() - 1].slack_id != id || cs[cs.len() - 1].name is None);
    }
}

// ── messages ─────────────────────────────────────────────────────────────────

/// Whether a message is someone joining or leaving.
pub open spec fn churn(m: SlackMessage) -> bool {
    m.subtype matches Some(s) && (s@ == "channel_join"@ || s@ == "channel_leave"@ || s@
        == "group_join"@ || s@ == "group_leave"@)
}

/// Whether a message has a `ts` that says when it was sent.
pub open spec fn dated(m: SlackMessage) -> bool {
    m.ts matches Some(ts) && ts_secs(ts@) is Some
}

/// Whether a message record says what a message says.
pub open spec fn message_says(x: MessageModel, m: SlackMessage, at: Setting) -> bool {
    &&& m.ts matches Some(ts) && x.slack_ts == ts@ && ts_secs(ts@) == Some(x.created_at)
    &&& x.channel_slack_id == at.channel
    &&& x.user_slack_id == m.user.deep_view()
    &&& x.bot_id == m.bot_id.deep_view()
    &&& x.author_override == m.username.deep_view()
    &&& match m.text {
        Some(t) => x.raw_text == t@,
        None => x.raw_text.len() == 0,
    }
    &&& x.text == normal_text(x.raw_text, at.users, at.channels)
    &&& x.mentions == normal_mentions(x.raw_text)
    &&& x.thread_ts == m.thread_ts.deep_view()
    &&& x.subtype == m.subtype.deep_view()
    &&& x.broadcast <==> x.subtype == Some("thread_broadcast"@) || x.subtype == Some(
        "reply_broadcast"@,
    )
    &&& match m.edited {
        Some(e) => match e.ts {
            Some(t) => x.edited_at == ts_secs(t@),
            None => x.edited_at is None,
        },
        None => x.edited_at is None,
    }
    &&& x.file_ids == m.files@.filter(|f: SlackFile| f.id is Some).map_values(
        |f: SlackFile| f.id->0@,
    )
}

proof fn lemma_gathers(days: Seq<DayFile>, dir: Seq<char>, d: int, k: int)
    requires
        0 <= d < days.len(),
        days[d].dir@ == dir,
        days[d].messages matches Some(ms) && 0 <= k < ms@.len(),
    ensures
        gathered(days, dir).contains(days[d].messages->0@[k]),
    decreases days.len(),
{
    let front = days.drop_last();
    let before = gathered(front, dir);
    let all = gathered(days, dir);
    let m = days[d].messages->0@[k];
    if d < front.len() {
        lemma_gathers(front, dir, d, k);
        let j = before.index_of(m);
        assert(all[j] == m);
    } else {
        assert(all[before.len() + k] == m);
    }
}

proof fn lemma_gathered_from(days: Seq<DayFile>, dir: Seq<char>, j: int) -> (r: (int, int))
    requires
        0 <= j < gathered(days, dir).len(),
    ensures
        0 <= r.0 < days.len(),
        days[r.0].dir@ == dir,
        days[r.0].messages matches Some(ms) && 0 <= r.1 < ms@.len() && ms@[r.1] == gathered(
            days,
            dir,
        )[j],
    decreases days.len(),
{
    let front = days.drop_last();
    let before = gathered(front, dir);
    if j < before.len() {
        lemma_gathered_from(front, dir, j)
    } else {
        (days.len() - 1, j - before.len())
    }
}

proof fn lemma_ordered_holds(ms: Seq<SlackMessage>, j: int) -> (i: int)
    requires
        0 <= j < ms.len(),
    ensures
        0 <= i < in_order(ms).len(),
        in_order(ms)[i] == ms[j],
{
    lemma_order_exists(moments(ms));
    let o = order_of(moments(ms));
    lemma_sort_is_onto(moments(ms), o, j);
    o.index_of(j)
}

proof fn lemma_known_ids(fs: Seq<SlackFile>)
    ensures
        known_file_ids(fs) == fs.filter(|f: SlackFile| f.id is Some).map_values(
            |f: SlackFile| f.id->0@,
        ),
    decreases fs.len(),
{
    reveal(Seq::filter);
    let known = fs.filter(|f: SlackFile| f.id is Some);
    let name = |f: SlackFile| f.id->0@;
    if fs.len() > 0 {
        let front = fs.drop_last();
        let before = front.filter(|f: SlackFile| f.id is Some);
        lemma_known_ids(front);
        if fs.last().id is Some {
            assert(known.map_values(name) =~= before.map_values(name).push(fs.last().id->0@));
        }
    } else {
        assert(known.map_values(name) =~= seq![]);
    }
}

proof fn lemma_message_says(m: SlackMessage, at: Setting)
    requires
        dated(m),
    ensures
        message_says(crate::parse::message_model(m, at), m, at),
{
    lemma_known_ids(m.files@);
    if let Some(s) = m.subtype {
        law_broadcasts_have_two_spellings(s@);
    }
}

proof fn lemma_block_stands(ms: Seq<SlackMessage>, at: Setting, keep_joins: bool, i: int) -> (n:
    int)
    requires
        0 <= i < ms.len(),
    ensures
        ({
            let part = message_records(ms[i], at, keep_joins);
            let all = messages_records(ms, at, keep_joins);
            0 <= n && n + part.len() <= all.len() && all.subrange(n, n + part.len()) == part
        }),
    decreases ms.len(),
{
    let front = ms.drop_last();
    let before = messages_records(front, at, keep_joins);
    let all = messages_records(ms, at, keep_joins);
    let part = message_records(ms[i], at, keep_joins);
    if i < front.len() {
        let n = lemma_block_stands(front, at, keep_joins, i);
        assert(all.subrange(n, n + part.len()) =~= before.subrange(n, n + part.len()));
        n
    } else {
        assert(all.subrange(before.len() as int, all.len() as int) =~= part);
        before.len() as int
    }
}

/// Whether a reaction record says that a user reacted to a message with an emoji.
pub open spec fn reaction_says(
    r: RecordModel,
    ts: Seq<char>,
    channel: Seq<char>,
    name: Seq<char>,
    user: Seq<char>,
) -> bool {
    r matches RecordModel::Reaction(x) && x.channel_slack_id == channel && x.target_slack_ts == ts
        && x.name == name && x.user_slack_id == user
}

/// Whether a file record says what a message says of a file.
pub open spec fn file_says(r: RecordModel, f: SlackFile, ts: Seq<char>, channel: Seq<char>) -> bool {
    r matches RecordModel::File(x) && {
        &&& f.id.deep_view() == Some(x.slack_file_id)
        &&& x.channel_slack_id == channel
        &&& x.message_slack_ts == ts
        &&& x.name == f.name.deep_view()
        &&& x.mimetype == f.mimetype.deep_view()
        &&& x.size == f.size
        &&& x.url_private == f.url_private.deep_view()
        &&& x.permalink == f.permalink.deep_view()
        &&& x.is_external == f.is_external
        &&& x.is_deleted <==> (f.mode matches Some(m) && (m@ == "hidden_by_limit"@ || m@
            == "file_deleted"@ || m@ == "tombstone"@))
    }
}

proof fn lemma_exploded_holds(rs: Seq<SlackReaction>, q: int, u: int)
    requires
        0 <= q < rs.len(),
        0 <= u < rs[q].users@.len(),
    ensures
        exploded(rs).contains((rs[q].name@, rs[q].users@[u]@)),
    decreases rs.len(),
{
    let front = rs.drop_last();
    let before = exploded(front);
    let all = exploded(rs);
    let pair = (rs[q].name@, rs[q].users@[u]@);
    if q < front.len() {
        lemma_exploded_holds(front, q, u);
        let j = before.index_of(pair);
        assert(all[j] == pair);
    } else {
        assert(all[before.len() + u] == pair);
    }
}

proof fn lemma_reaction_stands(m: SlackMessage, at: Setting, q: int, u: int) -> (j: int)
    requires
        0 <= q < m.reactions@.len(),
        0 <= u < m.reactions@[q].users@.len(),
    ensures
        0 <= j < reaction_records(m, at).len(),
        reaction_says(
            reaction_records(m, at)[j],
            m.ts->0@,
            at.channel,
            m.reactions@[q].name@,
            m.reactions@[q].users@[u]@,
        ),
{
    let pairs = exploded(m.reactions@);
    lemma_exploded_holds(m.reactions@, q, u);
    let k = pairs.index_of((m.reactions@[q].name@, m.reactions@[q].users@[u]@));
    lemma_order_exists(pairs);
    let o = order_of(pairs);
    lemma_sort_is_onto(pairs, o, k);
    let j = o.index_of(k);
    assert(sorted_pairs(pairs)[j] == pairs[k]);
    j
}

proof fn lemma_file_stands(fs: Seq<SlackFile>, ts: Seq<char>, at: Setting, q: int) -> (j: int)
    requires
        0 <= q < fs.len(),
        fs[q].id is Some,
    ensures
        0 <= j < file_records(fs, ts, at).len(),
        file_says(file_records(fs, ts, at)[j], fs[q], ts, at.channel),
    decreases fs.len(),
{
    let front = fs.drop_last();
    let before = file_records(front, ts, at);
    if q < front.len() {
        let j = lemma_file_stands(front, ts, at, q);
        assert(file_records(fs, ts, at)[j] == before[j]);
        j
    } else {
        before.len() as int
    }
}

/// Every message of a conversation's day files that has a usable `ts` is in the
/// import, with everything it says; only joining and leaving is left out, unless
/// it is to be kept. Right behind a message stand its reactions, one for each who
/// reacted, and its files that have an id.
pub proof fn law_messages_are_recorded_with_their_details(
    days: Seq<DayFile>,
    dir: Seq<char>,
    at: Setting,
    keep_joins: bool,
    d: int,
    k: int,
    q: int,
    u: int,
) -> (r: (int, int))
    requires
        0 <= d < days.len(),
        days[d].dir@ == dir,
        days[d].messages matches Some(ms) && 0 <= k < ms@.len() && dated(ms@[k]) && (keep_joins
            || !churn(ms@[k])),
    ensures
        ({
            let m = days[d].messages->0@[k];
            let rs = conversation_records(days, dir, at, keep_joins);
            let (n, end) = r;
            &&& 0 <= n < end <= rs.len()
            &&& rs[n] matches RecordModel::Message(x) && message_says(x, m, at)
            &&& forall|j: int| n < j < end ==> !(#[trigger] rs[j] is Message)
            &&& 0 <= q < m.reactions@.len() && 0 <= u < m.reactions@[q].users@.len() ==> exists|
                j: int,
            |
                n < j < end && reaction_says(
                    #[trigger] rs[j],
                    m.ts->0@,
                    at.channel,
                    m.reactions@[q].name@,
                    m.reactions@[q].users@[u]@,
                )
            &&& 0 <= q < m.files@.len() && m.files@[q].id is Some ==> exists|j: int|
                n < j < end && file_says(#[trigger] rs[j], m.files@[q], m.ts->0@, at.channel)
        }),
{
    let m = days[d].messages->0@[k];
    lemma_gathers(days, dir, d, k);
    let all = gathered(days, dir);
    let i = lemma_ordered_holds(all, all.index_of(m));
    let n = lemma_block_stands(in_order(all), at, keep_joins, i);
    let part = message_records(m, at, keep_joins);
    let rs = conversation_records(days, dir, at, keep_joins);
    let end = n + part.len();
    if let Some(s) = m.subtype {
        law_churn_is_joining_and_leaving(s@);
    }
    assert(crate::parse::imported(m, keep_joins));
    lemma_message_says(m, at);
    assert forall|j: int| n <= j < end implies rs[j] == part[j - n] by {
        assert(rs.subrange(n, end)[j - n] == rs[j]);
    }
    assert(rs[n] == part[0]);
    let c = reaction_records(m, at).len();
    assert forall|j: int| n < j < end implies !(#[trigger] rs[j] is Message) by {
        assert(rs[j] == part[j - n]);
        if j - n > c {
            lemma_file_kinds(m.files@, m.ts->0@, at, j - n - 1 - c);
        }
    }
    if 0 <= q < m.reactions@.len() && 0 <= u < m.reactions@[q].users@.len() {
        let j = lemma_reaction_stands(m, at, q, u);
        assert(rs[n + 1 + j] == part[1 + j]);
    }
    if 0 <= q < m.files@.len() && m.files@[q].id is Some {
        let j = lemma_file_stands(m.files@, m.ts->0@, at, q);
        assert(rs[n + 1 + c + j] == part[1 + c + j]);
    }
    (n, end)
}

proof fn lemma_message_from(ms: Seq<SlackMessage>, at: Setting, keep_joins: bool, i: int) -> (k: int)
    requires
        0 <= i < messages_records(ms, at, keep_joins).len(),
        messages_records(ms, at, keep_joins)[i] is Message,
    ensures
        0 <= k < ms.len(),
        dated(ms[k]),
        keep_joins || !churn(ms[k]),
        message_says(messages_records(ms, at, keep_joins)[i]->Message_0, ms[k], at),
    decreases ms.len(),
{
    let front = ms.drop_last();
    let before = messages_records(front, at, keep_joins);
    if i < before.len() {
        lemma_message_from(front, at, keep_joins, i)
    } else {
        let m = ms.last();
        let part = message_records(m, at, keep_joins);
        assert(messages_records(ms, at, keep_joins)[i] == part[i - before.len()]);
        let c = reaction_records(m, at).len();
        if i - before.len() > c {
            lemma_file_kinds(m.files@, m.ts->0@, at, i - before.len() - 1 - c);
        }
        if let Some(s) = m.subtype {
            law_churn_is_joining_and_leaving(s@);
        }
        lemma_message_says(m, at);
        ms.len() - 1
    }
}

/// Every message record is of a message in the conversation's day files, and says
/// what it says. Unless joins are kept, none is of someone joining or leaving.
pub proof fn law_message_records_are_of_messages(
    days: Seq<DayFile>,
    dir: Seq<char>,
    at: Setting,
    keep_joins: bool,
    i: int,
) -> (r: (int, int))
    requires
        0 <= i < conversation_records(days, dir, at, keep_joins).len(),
        conversation_records(days, dir, at, keep_joins)[i] is Message,
    ensures
        0 <= r.0 < days.len(),
        days[r.0].dir@ == dir,
        days[r.0].messages matches Some(ms) && 0 <= r.1 < ms@.len() && message_says(
            conversation_records(days, dir, at, keep_joins)[i]->Message_0,
            ms@[r.1],
            at,
        ) && dated(ms@[r.1]) && (keep_joins || !churn(ms@[r.1])),
        !keep_joins ==> {
            let subtype = conversation_records(days, dir, at, keep_joins)[i]->Message_0.subtype;
            &&& subtype != Some("channel_join"@)
            &&& subtype != Some("channel_leave"@)
            &&& subtype != Some("group_join"@)
            &&& subtype != Some("group_leave"@)
        },
{
    let all = gathered(days, dir);
    let k = lemma_message_from(in_order(all), at, keep_joins, i);
    lemma_order_exists(moments(all));
    let o = order_of(moments(all));
    assert(0 <= o[k] < all.len());
    assert(in_order(all)[k] == all[o[k]]);
    lemma_gathered_from(days, dir, o[k])
}

/// What a whole import says of messages: a message record is of a message of a
/// selected conversation, filed under that conversation, and says what it says.
/// Unless joins are kept, none is of someone joining or leaving a channel or a
/// group.
pub proof fn law_imports_hold_messages_of_selected_conversations(
    s: Scene,
    selected: Seq<Seq<char>>,
    emoji: Seq<(Seq<char>, Seq<char>)>,
    at: int,
)
    requires
        parsed(s, selected, emoji) is Ok,
        0 <= at < parsed(s, selected, emoji)->Ok_0.records.len(),
    ensures
        parsed(s, selected, emoji)->Ok_0.records[at] matches RecordModel::Message(x) ==> {
            &&& selected.contains(x.channel_slack_id)
            &&& exists|d: int, k: int| #[trigger] day_message_is(s, d, k, x)
            &&& !s.keep_joins ==> x.subtype != Some("channel_join"@) && x.subtype != Some(
                "channel_leave"@,
            ) && x.subtype != Some("group_join"@) && x.subtype != Some("group_leave"@)
        },
{
    let records = parsed(s, selected, emoji)->Ok_0.records;
    let body = s.body(selected, emoji);
    let lead = s.users.len() + emoji.len();
    if records[at] is Message {
        assert(records[at] == body[at - 1]);
        assert(body[at - 1] == s.channel_parts(selected)[at - 1 - lead]);
        lemma_message_in_parts(s, selected, at - 1 - lead);
    }
}

/// Whether a message record says what the message `k` of the day file `d` says,
/// and the day file is of the conversation that the record is filed under.
pub open spec fn day_message_is(s: Scene, d: int, k: int, x: MessageModel) -> bool {
    &&& 0 <= d < s.days.len()
    &&& s.days[d].messages matches Some(ms) && 0 <= k < ms@.len() && message_says(
        x,
        ms@[k],
        s.setting(x.channel_slack_id),
    )
    &&& exists|c: int|
        0 <= c < s.conversations.len() && (#[trigger] s.conversations[c]).slack_id
            == x.channel_slack_id && s.conversations[c].dir == Some(s.days[d].dir@)
}

proof fn lemma_message_in_parts(s: Scene, selected: Seq<Seq<char>>, i: int)
    requires
        0 <= i < s.channel_parts(selected).len(),
    ensures
        s.channel_parts(selected)[i] matches RecordModel::Message(x) ==> {
            &&& selected.contains(x.channel_slack_id)
            &&& exists|d: int, k: int| #[trigger] day_message_is(s, d, k, x)
            &&& !s.keep_joins ==> x.subtype != Some("channel_join"@) && x.subtype != Some(
                "channel_leave"@,
            ) && x.subtype != Some("group_join"@) && x.subtype != Some("group_leave"@)
        },
    decreases selected.len(),
{
    let front = selected.drop_last();
    let lead = s.channel_parts(front);
    if i < lead.len() {
        lemma_message_in_parts(s, front, i);
        if let RecordModel::Message(x) = lead[i] {
            let k = front.index_of(x.channel_slack_id);
            assert(selected[k] == x.channel_slack_id);
        }
    } else {
        lemma_found(s.conversations, selected.last());
        let c = lookup(s.conversations, selected.last())->0;
        let part = s.channel_part(c);
        assert(s.channel_parts(selected)[i] == part[i - lead.len()]);
        if i > lead.len() {
            let dir = c.dir->0;
            let rs = conversation_records(s.days, dir, s.setting(c.slack_id), s.keep_joins);
            assert(part[i - lead.len()] == rs[i - lead.len() - 1]);
            if let RecordModel::Message(x) = part[i - lead.len()] {
                let (d, k) = law_message_records_are_of_messages(
                    s.days,
                    dir,
                    s.setting(c.slack_id),
                    s.keep_joins,
                    i - lead.len() - 1,
                );
                let j = s.conversations.index_of(c);
                assert(s.conversations[j].slack_id == x.channel_slack_id);
                assert(day_message_is(s, d, k, x));
                assert(selected[selected.len() - 1] == x.channel_slack_id);
            }
        }
    }
}

/// And the other way round: every usable message of a selected conversation is in
/// the import, with everything it says, filed under its conversation; only joining
/// and leaving is left out, unless it is to be kept. Right behind a message stand
/// its reactions, one for each who reacted, and its files that have an id.
pub proof fn law_imports_hold_every_message_of_selected_conversations(
    s: Scene,
    selected: Seq<Seq<char>>,
    emoji: Seq<(Seq<char>, Seq<char>)>,
    i: int,
    c: int,
    d: int,
    k: int,
    q: int,
    u: int,
) -> (r: (int, int))
    requires
        parsed(s, selected, emoji) is Ok,
        ids(s.conversations).no_duplicates(),
        0 <= i < selected.len(),
        0 <= c < s.conversations.len(),
        s.conversations[c].slack_id == selected[i],
        0 <= d < s.days.len(),
        s.conversations[c].dir == Some(s.days[d].dir@),
        s.days[d].messages matches Some(ms) && 0 <= k < ms@.len() && dated(ms@[k]) && (s.keep_joins
            || !churn(ms@[k])),
    ensures
        ({
            let m = s.days[d].messages->0@[k];
            let rs = parsed(s, selected, emoji)->Ok_0.records;
            let (n, end) = r;
            &&& 0 <= n < end <= rs.len()
            &&& rs[n] matches RecordModel::Message(x) && message_says(x, m, s.setting(selected[i]))
            &&& forall|j: int| n < j < end ==> !(#[trigger] rs[j] is Message)
            &&& 0 <= q < m.reactions@.len() && 0 <= u < m.reactions@[q].users@.len() ==> exists|
                j: int,
            |
                n < j < end && reaction_says(
                    #[trigger] rs[j],
                    m.ts->0@,
                    selected[i],
                    m.reactions@[q].name@,
                    m.reactions@[q].users@[u]@,
                )
            &&& 0 <= q < m.files@.len() && m.files@[q].id is Some ==> exists|j: int|
                n < j < end && file_says(#[trigger] rs[j], m.files@[q], m.ts->0@, selected[i])
        }),
{
    lemma_lookup_at(s.conversations, c);
    let start = law_selection_does_not_change_a_conversation(s, selected, emoji, i);
    let dir = s.days[d].dir@;
    let at = s.setting(selected[i]);
    let part = s.channel_part(s.conversations[c]);
    let body = s.body(selected, emoji);
    let rs = parsed(s, selected, emoji)->Ok_0.records;
    let own = conversation_records(s.days, dir, at, s.keep_joins);
    let (n, end) = law_messages_are_recorded_with_their_details(
        s.days,
        dir,
        at,
        s.keep_joins,
        d,
        k,
        q,
        u,
    );
    let shift = start + 2;
    assert forall|j: int| 0 <= j < own.len() implies rs[shift + j] == #[trigger] own[j] by {
        assert(body.subrange(start, start + part.len())[1 + j] == part[1 + j]);
        assert(part[1 + j] == own[j]);
    }
    let m = s.days[d].messages->0@[k];
    assert forall|j: int| shift + n < j < shift + end implies !(#[trigger] rs[j] is Message) by {
        assert(rs[shift + (j - shift)] == own[j - shift]);
    }
    if 0 <= q < m.reactions@.len() && 0 <= u < m.reactions@[q].users@.len() {
        let j = choose|j: int|
            n < j < end && reaction_says(
                #[trigger] own[j],
                m.ts->0@,
                at.channel,
                m.reactions@[q].name@,
                m.reactions@[q].users@[u]@,
            );
        assert(rs[shift + j] == own[j]);
    }
    if 0 <= q < m.files@.len() && m.files@[q].id is Some {
        let j = choose|j: int|
            n < j < end && file_says(#[trigger] own[j], m.files@[q], m.ts->0@, at.channel);
        assert(rs[shift + j] == own[j]);
    }
    assert(rs[shift + n] == own[n]);
    (shift + n, shift + end)
}

/// The reactions to a message come in order: by emoji, and for one emoji by the
/// user.
pub proof fn law_reactions_come_in_order(m: SlackMessage, at: Setting, i: int, j: int)
    requires
        0 <= i < j < reaction_records(m, at).len(),
    ensures
        ({
            let (x, y) = (
                reaction_records(m, at)[i]->Reaction_0,
                reaction_records(m, at)[j]->Reaction_0,
            );
            x.name == y.name && (x.user_slack_id == y.user_slack_id || lt(
                x.user_slack_id,
                y.user_slack_id,
            )) || lt(x.name, y.name)
        }),
{
    let pairs = exploded(m.reactions@);
    lemma_order_exists(pairs);
    let o = order_of(pairs);
    assert(ahead(pairs, o[i], o[j]));
    let (a, b) = (pairs[o[i]], pairs[o[j]]);
    assert(sorted_pairs(pairs)[i] == a && sorted_pairs(pairs)[j] == b);
    lemma_lt_total(a.0, b.0);
    lemma_lt_total(a.1, b.1);
}

/// A message's files come in the order of the message, each that has an id.
pub proof fn law_files_come_in_order(fs: Seq<SlackFile>, f: SlackFile, ts: Seq<char>, at: Setting)
    ensures
        file_records(seq![], ts, at).len() == 0,
        f.id is None ==> file_records(fs.push(f), ts, at) == file_records(fs, ts, at),
        f.id is Some ==> {
            let (before, after) = (file_records(fs, ts, at), file_records(fs.push(f), ts, at));
            &&& after.len() == before.len() + 1
            &&& after.drop_last() == before
            &&& file_says(after.last(), f, ts, at.channel)
        },
{
    assert(fs.push(f).drop_last() =~= fs);
    if f.id is Some {
        let (before, after) = (file_records(fs, ts, at), file_records(fs.push(f), ts, at));
        assert(after.drop_last() =~= before);
    }
}

/// A conversation's messages are those of its day files, one file after the other.
pub proof fn law_day_files_are_read_one_after_the_other(
    days: Seq<DayFile>,
    day: DayFile,
    dir: Seq<char>,
)
    ensures
        gathered(seq![], dir).len() == 0,
        day.dir@ != dir ==> gathered(days.push(day), dir) == gathered(days, dir),
        day.messages is None ==> gathered(days.push(day), dir) == gathered(days, dir),
        day.dir@ == dir ==> (day.messages matches Some(ms) ==> gathered(days.push(day), dir)
            == gathered(days, dir) + ms@),
{
    assert(days.push(day).drop_last() =~= days);
}

/// Messages are put in order, each once: by the second, within one by the `ts` as
/// Slack wrote it, and where that is the same as they stood.
pub proof fn law_messages_are_sorted_once(ms: Seq<SlackMessage>) -> (o: Seq<int>)
    ensures
        each_once(o, ms.len()),
        in_order(ms).len() == ms.len(),
        forall|i: int| 0 <= i < ms.len() ==> #[trigger] in_order(ms)[i] == ms[o[i]],
        forall|i: int, j: int|
            0 <= i < j < ms.len() && dated(#[trigger] in_order(ms)[i]) && dated(
                #[trigger] in_order(ms)[j],
            ) ==> {
                let (x, y) = (in_order(ms)[i].ts->0@, in_order(ms)[j].ts->0@);
                let (s, t) = (ts_secs(x)->0, ts_secs(y)->0);
                s < t || (s == t && (lt(x, y) || (x == y && o[i] < o[j])))
            },
{
    let keys = moments(ms);
    lemma_order_exists(keys);
    let o = order_of(keys);
    let t = in_order(ms);
    assert forall|i: int, j: int| 0 <= i < o.len() && 0 <= j < o.len() && i != j implies o[i]
        != o[j] by {
        if i < j {
            assert(ahead(keys, o[i], o[j]));
        } else {
            assert(ahead(keys, o[j], o[i]));
        }
        lemma_not_ahead_self(keys, o[i]);
    }
    assert forall|i: int, j: int|
        0 <= i < j < ms.len() && dated(#[trigger] t[i]) && dated(#[trigger] t[j]) implies {
        let (x, y) = (t[i].ts->0@, t[j].ts->0@);
        let (s, u) = (ts_secs(x)->0, ts_secs(y)->0);
        s < u || (s == u && (lt(x, y) || (x == y && o[i] < o[j])))
    } by {
        assert(ahead(keys, o[i], o[j]));
        lemma_lt_total(t[i].ts->0@, t[j].ts->0@);
    }
    o
}

} // verus!
