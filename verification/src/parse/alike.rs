//! What was read decides what is imported, however it was read.
//!
//! Two exports are alike when their manifests and their day files say the same.
//! Alike exports have the same inventory and import the same records, and an
//! archive and a directory of the same files are alike.

use vstd::prelude::*;

use crate::error::Failure;
use crate::export::laws::{
    law_wrapper_is_invisible, law_zip_agrees_with_directory, lemma_holds, lists_json_of, wrapped,
};
use crate::export::{
    day_file_of, emoji_entries, holding_dirs, json_paths, nested, under, wrapper_of, DayFile, Export,
};
use crate::ir::{no_counts, ChannelKind, CountsModel, RecordModel};
use crate::order::{
    law_sorted_set, lemma_kept, lemma_order_exists, order_of, sorted, sorted_set,
};
use crate::parse;
use crate::parse::{
    channel_names, channel_record, conversation_records, exploded, file_records, gathered, in_order, lookup, message_records,
    messages_records, moments, parsed, unparsed, user_names, user_record, with_conversation,
    ImportModel, Scene, Setting,
};
use crate::probe;
use crate::probe::{
    known_file_ids, lists_any, manifest_notes, manifest_summaries, metadata_dir, no_figures, of_dir,
    reactors, with_days, Figures, SummaryModel,
};
use crate::selection::{
    asked_by_kind, first_unknown, ids, named_id, names, names_any, picks, resolution, selected_ids,
    skipped_ids, FilterModel,
};
use crate::slack::{
    SlackConversation, SlackFile, SlackMessage, SlackProfile, SlackReaction, SlackUser,
};

verus! {

// ── records that say the same ────────────────────────────────────────────────

pub open spec fn same_profile(a: SlackProfile, b: SlackProfile) -> bool {
    &&& a.real_name.deep_view() == b.real_name.deep_view()
    &&& a.display_name.deep_view() == b.display_name.deep_view()
    &&& a.image_192.deep_view() == b.image_192.deep_view()
    &&& a.image_512.deep_view() == b.image_512.deep_view()
}

pub open spec fn same_user(a: SlackUser, b: SlackUser) -> bool {
    &&& a.id@ == b.id@
    &&& a.name@ == b.name@
    &&& a.deleted == b.deleted
    &&& a.is_bot == b.is_bot
    &&& a.tz.deep_view() == b.tz.deep_view()
    &&& match (a.profile, b.profile) {
        (Some(p), Some(q)) => same_profile(p, q),
        (None, None) => true,
        _ => false,
    }
}

pub open spec fn same_users(a: Seq<SlackUser>, b: Seq<SlackUser>) -> bool {
    a.len() == b.len() && forall|i: int| 0 <= i < a.len() ==> same_user(#[trigger] a[i], b[i])
}

/// Whether two manifest entries say the same, as far as anything is made of it.
pub open spec fn same_entry(a: SlackConversation, b: SlackConversation) -> bool {
    &&& a.id@ == b.id@
    &&& a.name.deep_view() == b.name.deep_view()
    &&& a.is_archived == b.is_archived
    &&& a.members.deep_view() == b.members.deep_view()
}

pub open spec fn same_manifest(
    a: Option<Vec<SlackConversation>>,
    b: Option<Vec<SlackConversation>>,
) -> bool {
    match (a, b) {
        (Some(x), Some(y)) => x@.len() == y@.len() && forall|i: int|
            0 <= i < x@.len() ==> same_entry(#[trigger] x@[i], y@[i]),
        (None, None) => true,
        _ => false,
    }
}

pub open spec fn same_reactions(a: Seq<SlackReaction>, b: Seq<SlackReaction>) -> bool {
    a.len() == b.len() && forall|i: int|
        0 <= i < a.len() ==> (#[trigger] a[i]).name@ == b[i].name@ && a[i].users.deep_view()
            == b[i].users.deep_view()
}

pub open spec fn same_file(a: SlackFile, b: SlackFile) -> bool {
    &&& a.id.deep_view() == b.id.deep_view()
    &&& a.name.deep_view() == b.name.deep_view()
    &&& a.mimetype.deep_view() == b.mimetype.deep_view()
    &&& a.size == b.size
    &&& a.url_private.deep_view() == b.url_private.deep_view()
    &&& a.permalink.deep_view() == b.permalink.deep_view()
    &&& a.mode.deep_view() == b.mode.deep_view()
    &&& a.is_external == b.is_external
}

pub open spec fn same_files(a: Seq<SlackFile>, b: Seq<SlackFile>) -> bool {
    a.len() == b.len() && forall|i: int| 0 <= i < a.len() ==> same_file(#[trigger] a[i], b[i])
}

/// Whether two messages say the same, as far as anything is made of it.
pub open spec fn same_message(a: SlackMessage, b: SlackMessage) -> bool {
    &&& a.ts.deep_view() == b.ts.deep_view()
    &&& a.subtype.deep_view() == b.subtype.deep_view()
    &&& a.user.deep_view() == b.user.deep_view()
    &&& a.bot_id.deep_view() == b.bot_id.deep_view()
    &&& a.username.deep_view() == b.username.deep_view()
    &&& a.text.deep_view() == b.text.deep_view()
    &&& a.thread_ts.deep_view() == b.thread_ts.deep_view()
    &&& match (a.edited, b.edited) {
        (Some(x), Some(y)) => x.ts.deep_view() == y.ts.deep_view(),
        (None, None) => true,
        _ => false,
    }
    &&& same_reactions(a.reactions@, b.reactions@)
    &&& same_files(a.files@, b.files@)
}

pub open spec fn same_messages(a: Seq<SlackMessage>, b: Seq<SlackMessage>) -> bool {
    a.len() == b.len() && forall|i: int| 0 <= i < a.len() ==> same_message(#[trigger] a[i], b[i])
}

/// Whether two day files say the same, wherever they stand.
pub open spec fn same_day(a: DayFile, b: DayFile) -> bool {
    match (a.messages, b.messages) {
        (Some(x), Some(y)) => same_messages(x@, y@),
        (None, None) => true,
        _ => false,
    }
}

pub open spec fn same_days(a: Seq<DayFile>, b: Seq<DayFile>) -> bool {
    a.len() == b.len() && forall|i: int| 0 <= i < a.len() ==> same_day(#[trigger] a[i], b[i])
}

/// Whether two exports have manifests that say the same.
pub open spec fn same_manifests(a: Export, b: Export) -> bool {
    &&& match (a.users, b.users) {
        (Some(x), Some(y)) => same_users(x@, y@),
        (None, None) => true,
        _ => false,
    }
    &&& same_manifest(a.channels, b.channels)
    &&& same_manifest(a.groups, b.groups)
    &&& same_manifest(a.mpims, b.mpims)
    &&& same_manifest(a.dms, b.dms)
    &&& match (a.emoji, b.emoji) {
        (Some(x), Some(y)) => x@ == y@,
        (None, None) => true,
        _ => false,
    }
}

/// The day files of a conversation; none where it has no directory.
pub open spec fn files_of(days: Seq<DayFile>, dir: Option<Seq<char>>) -> Seq<DayFile> {
    match dir {
        Some(d) => of_dir(days, d),
        None => seq![],
    }
}

/// Whether two exports say the same: their manifests, and of each conversation
/// that they list the day files, one after the other. What directory these stand
/// in makes no difference.
pub open spec fn same_export(a: Export, b: Export) -> bool {
    &&& same_manifests(a, b)
    &&& forall|i: int|
        0 <= i < a.listed().len() ==> same_days(
            files_of(a.days@, (#[trigger] a.listed()[i]).dir),
            files_of(b.days@, b.listed()[i].dir),
        )
}

/// Whether two summaries are the same, but for the directory.
pub open spec fn same_summary(a: SummaryModel, b: SummaryModel) -> bool {
    a == (SummaryModel { dir: a.dir, ..b })
}

pub open spec fn same_summaries(a: Seq<SummaryModel>, b: Seq<SummaryModel>) -> bool {
    a.len() == b.len() && forall|i: int| 0 <= i < a.len() ==> same_summary(#[trigger] a[i], b[i])
}

// ── users ────────────────────────────────────────────────────────────────────

proof fn lemma_same_user(a: SlackUser, b: SlackUser)
    requires
        same_user(a, b),
    ensures
        a.shown_name() == b.shown_name(),
        user_record(a) == user_record(b),
{
}

proof fn lemma_same_users(a: Seq<SlackUser>, b: Seq<SlackUser>)
    requires
        same_users(a, b),
    ensures
        user_names(a) == user_names(b),
        Seq::new(a.len(), |i: int| user_record(a[i])) == Seq::new(
            b.len(),
            |i: int| user_record(b[i]),
        ),
    decreases a.len(),
{
    assert forall|i: int| 0 <= i < a.len() implies user_record(#[trigger] a[i]) == user_record(
        b[i],
    ) by {
        lemma_same_user(a[i], b[i]);
    }
    assert(Seq::new(a.len(), |i: int| user_record(a[i])) =~= Seq::new(
        b.len(),
        |i: int| user_record(b[i]),
    ));
    if a.len() > 0 {
        assert forall|i: int| 0 <= i < a.len() - 1 implies same_user(
            #[trigger] a.drop_last()[i],
            b.drop_last()[i],
        ) by {
            assert(same_user(a[i], b[i]));
        }
        lemma_same_users(a.drop_last(), b.drop_last());
        assert(same_user(a[a.len() - 1], b[b.len() - 1]));
        lemma_same_user(a.last(), b.last());
    }
}

// ── messages ─────────────────────────────────────────────────────────────────

proof fn lemma_same_reactions(a: Seq<SlackReaction>, b: Seq<SlackReaction>)
    requires
        same_reactions(a, b),
    ensures
        reactors(a) == reactors(b),
        exploded(a) == exploded(b),
    decreases a.len(),
{
    if a.len() > 0 {
        let (x, y) = (a.last(), b.last());
        assert forall|i: int| 0 <= i < a.len() - 1 implies (#[trigger] a.drop_last()[i]).name@
            == b.drop_last()[i].name@ && a.drop_last()[i].users.deep_view()
            == b.drop_last()[i].users.deep_view() by {
            assert(a[i].name@ == b[i].name@);
        }
        lemma_same_reactions(a.drop_last(), b.drop_last());
        assert(a[a.len() - 1].name@ == b[b.len() - 1].name@);
        assert(x.users.deep_view().len() == x.users@.len());
        assert(y.users.deep_view().len() == y.users@.len());
        assert forall|i: int| 0 <= i < x.users@.len() implies x.users@[i]@ == y.users@[i]@ by {
            assert(x.users.deep_view()[i] == y.users.deep_view()[i]);
        }
        assert(Seq::new(x.users@.len(), |i: int| (x.name@, x.users@[i]@)) =~= Seq::new(
            y.users@.len(),
            |i: int| (y.name@, y.users@[i]@),
        ));
    }
}

proof fn lemma_same_files(a: Seq<SlackFile>, b: Seq<SlackFile>, ts: Seq<char>, at: Setting)
    requires
        same_files(a, b),
    ensures
        known_file_ids(a) == known_file_ids(b),
        file_records(a, ts, at) == file_records(b, ts, at),
    decreases a.len(),
{
    if a.len() > 0 {
        assert forall|i: int| 0 <= i < a.len() - 1 implies same_file(
            #[trigger] a.drop_last()[i],
            b.drop_last()[i],
        ) by {
            assert(same_file(a[i], b[i]));
        }
        lemma_same_files(a.drop_last(), b.drop_last(), ts, at);
        assert(same_file(a[a.len() - 1], b[b.len() - 1]));
    }
}

proof fn lemma_same_message(
    a: SlackMessage,
    b: SlackMessage,
    at: Setting,
    keep_joins: bool,
    c: CountsModel,
    f: Figures,
)
    requires
        same_message(a, b),
    ensures
        parse::moment_of(a) == parse::moment_of(b),
        message_records(a, at, keep_joins) == message_records(b, at, keep_joins),
        parse::with_message(c, a, keep_joins) == parse::with_message(c, b, keep_joins),
        probe::with_message(f, a, keep_joins) == probe::with_message(f, b, keep_joins),
{
    lemma_same_reactions(a.reactions@, b.reactions@);
    if a.ts is Some {
        lemma_same_files(a.files@, b.files@, a.ts->0@, at);
    } else {
        lemma_same_files(a.files@, b.files@, seq![], at);
    }
}

proof fn lemma_same_runs(
    a: Seq<SlackMessage>,
    b: Seq<SlackMessage>,
    at: Setting,
    keep_joins: bool,
    c: CountsModel,
    f: Figures,
)
    requires
        same_messages(a, b),
    ensures
        messages_records(a, at, keep_joins) == messages_records(b, at, keep_joins),
        parse::with_messages(c, a, keep_joins) == parse::with_messages(c, b, keep_joins),
        probe::with_messages(f, a, keep_joins) == probe::with_messages(f, b, keep_joins),
    decreases a.len(),
{
    if a.len() > 0 {
        let (x, y) = (a.drop_last(), b.drop_last());
        assert forall|i: int| 0 <= i < x.len() implies same_message(#[trigger] x[i], y[i]) by {
            assert(same_message(a[i], b[i]));
        }
        lemma_same_runs(x, y, at, keep_joins, c, f);
        assert(same_message(a[a.len() - 1], b[b.len() - 1]));
        lemma_same_message(
            a.last(),
            b.last(),
            at,
            keep_joins,
            parse::with_messages(c, x, keep_joins),
            probe::with_messages(f, x, keep_joins),
        );
    }
}

proof fn lemma_same_order(a: Seq<SlackMessage>, b: Seq<SlackMessage>)
    requires
        same_messages(a, b),
    ensures
        same_messages(in_order(a), in_order(b)),
{
    assert forall|i: int| 0 <= i < a.len() implies moments(a)[i] == moments(b)[i] by {
        assert(same_message(a[i], b[i]));
    }
    assert(moments(a) =~= moments(b));
    lemma_order_exists(moments(a));
    let o = order_of(moments(a));
    assert forall|i: int| 0 <= i < in_order(a).len() implies same_message(
        #[trigger] in_order(a)[i],
        in_order(b)[i],
    ) by {
        assert(0 <= o[i] < a.len());
        assert(same_message(a[o[i]], b[o[i]]));
    }
}

// ── day files ────────────────────────────────────────────────────────────────

proof fn lemma_of_dir(days: Seq<DayFile>, dir: Seq<char>, f: Figures, keep_joins: bool)
    ensures
        gathered(of_dir(days, dir), dir) == gathered(days, dir),
        unparsed(of_dir(days, dir), dir) == unparsed(days, dir),
        with_days(f, of_dir(days, dir), dir, keep_joins) == with_days(f, days, dir, keep_joins),
        forall|i: int| 0 <= i < of_dir(days, dir).len() ==> (#[trigger] of_dir(days, dir)[i]).dir@
            == dir,
    decreases days.len(),
{
    if days.len() > 0 {
        let ahead = of_dir(days.drop_last(), dir);
        lemma_of_dir(days.drop_last(), dir, f, keep_joins);
        if days.last().dir@ == dir {
            assert(of_dir(days, dir).drop_last() =~= ahead);
        }
    }
}

/// Whether all day files stand in one directory.
spec fn all_in(days: Seq<DayFile>, dir: Seq<char>) -> bool {
    forall|i: int| 0 <= i < days.len() ==> (#[trigger] days[i]).dir@ == dir
}

proof fn lemma_same_days(
    a: Seq<DayFile>,
    dir_a: Seq<char>,
    b: Seq<DayFile>,
    dir_b: Seq<char>,
    f: Figures,
    keep_joins: bool,
)
    requires
        same_days(a, b),
        all_in(a, dir_a),
        all_in(b, dir_b),
    ensures
        same_messages(gathered(a, dir_a), gathered(b, dir_b)),
        unparsed(a, dir_a) == unparsed(b, dir_b),
        with_days(f, a, dir_a, keep_joins) == with_days(f, b, dir_b, keep_joins),
    decreases a.len(),
{
    if a.len() > 0 {
        let (x, y) = (a.drop_last(), b.drop_last());
        assert forall|i: int| 0 <= i < x.len() implies same_day(#[trigger] x[i], y[i]) by {
            assert(same_day(a[i], b[i]));
        }
        assert(all_in(x, dir_a)) by {
            assert forall|i: int| 0 <= i < x.len() implies (#[trigger] x[i]).dir@ == dir_a by {
                assert(a[i].dir@ == dir_a);
            }
        }
        assert(all_in(y, dir_b)) by {
            assert forall|i: int| 0 <= i < y.len() implies (#[trigger] y[i]).dir@ == dir_b by {
                assert(b[i].dir@ == dir_b);
            }
        }
        lemma_same_days(x, dir_a, y, dir_b, f, keep_joins);
        assert(same_day(a[a.len() - 1], b[b.len() - 1]));
        assert(a[a.len() - 1].dir@ == dir_a);
        assert(b[b.len() - 1].dir@ == dir_b);
        if a.last().messages is Some {
            let (s, t) = (a.last().messages->0@, b.last().messages->0@);
            let (g, h) = (gathered(x, dir_a), gathered(y, dir_b));
            lemma_same_runs(
                s,
                t,
                Setting { channel: seq![], users: Map::empty(), channels: Map::empty() },
                keep_joins,
                no_counts(),
                with_days(f, x, dir_a, keep_joins),
            );
            assert forall|i: int| 0 <= i < (g + s).len() implies same_message(
                #[trigger] (g + s)[i],
                (h + t)[i],
            ) by {
                if i < g.len() {
                    assert(same_message(g[i], h[i]));
                } else {
                    assert(same_message(s[i - g.len()], t[i - g.len()]));
                }
            }
        }
    }
}

/// What a conversation's messages contribute; nothing where it has no directory.
spec fn told(days: Seq<DayFile>, dir: Option<Seq<char>>, at: Setting, keep_joins: bool) -> Seq<
    RecordModel,
> {
    match dir {
        Some(d) => conversation_records(days, d, at, keep_joins),
        None => seq![],
    }
}

spec fn counted_in(c: CountsModel, days: Seq<DayFile>, dir: Option<Seq<char>>, keep_joins: bool) -> CountsModel {
    match dir {
        Some(d) => with_conversation(c, days, d, keep_joins),
        None => c,
    }
}

spec fn tallied(f: Figures, days: Seq<DayFile>, dir: Option<Seq<char>>, keep_joins: bool) -> Figures {
    match dir {
        Some(d) => with_days(f, days, d, keep_joins),
        None => f,
    }
}

/// A directory without day files contributes nothing.
proof fn lemma_barren(
    days: Seq<DayFile>,
    dir: Option<Seq<char>>,
    at: Setting,
    keep_joins: bool,
    c: CountsModel,
    f: Figures,
)
    requires
        files_of(days, dir).len() == 0,
    ensures
        told(days, dir, at, keep_joins) == Seq::<RecordModel>::empty(),
        counted_in(c, days, dir, keep_joins) == c,
        tallied(f, days, dir, keep_joins) == f,
{
    if let Some(d) = dir {
        lemma_of_dir(days, d, f, keep_joins);
        assert(of_dir(days, d) =~= seq![]);
        let ms = gathered(days, d);
        assert(ms =~= seq![]);
        lemma_order_exists(moments(ms));
        assert(in_order(ms) =~= seq![]);
    }
}

proof fn lemma_same_conversation(
    a: Seq<DayFile>,
    dir_a: Option<Seq<char>>,
    b: Seq<DayFile>,
    dir_b: Option<Seq<char>>,
    at: Setting,
    keep_joins: bool,
    c: CountsModel,
    f: Figures,
)
    requires
        same_days(files_of(a, dir_a), files_of(b, dir_b)),
    ensures
        told(a, dir_a, at, keep_joins) == told(b, dir_b, at, keep_joins),
        counted_in(c, a, dir_a, keep_joins) == counted_in(c, b, dir_b, keep_joins),
        tallied(f, a, dir_a, keep_joins) == tallied(f, b, dir_b, keep_joins),
{
    match (dir_a, dir_b) {
        (Some(x), Some(y)) => {
            lemma_of_dir(a, x, f, keep_joins);
            lemma_of_dir(b, y, f, keep_joins);
            lemma_same_days(of_dir(a, x), x, of_dir(b, y), y, f, keep_joins);
            lemma_same_order(gathered(a, x), gathered(b, y));
            let mid = CountsModel {
                skipped_unparseable: c.skipped_unparseable + unparsed(a, x),
                ..c
            };
            lemma_same_runs(
                in_order(gathered(a, x)),
                in_order(gathered(b, y)),
                at,
                keep_joins,
                mid,
                f,
            );
        },
        _ => {
            lemma_barren(a, dir_a, at, keep_joins, c, f);
            lemma_barren(b, dir_b, at, keep_joins, c, f);
        },
    }
}

// ── the inventory ────────────────────────────────────────────────────────────

/// Where a conversation's messages stand, among some directories.
pub open spec fn dir_among(c: SummaryModel, dirs: Seq<Seq<char>>) -> Option<Seq<char>> {
    if dirs.contains(c.label()) {
        Some(c.label())
    } else if dirs.contains(c.slack_id) {
        Some(c.slack_id)
    } else {
        None
    }
}

proof fn lemma_manifest_dirs(
    entries: Option<Vec<SlackConversation>>,
    kind: ChannelKind,
    dirs: Seq<Seq<char>>,
)
    ensures
        forall|i: int|
            0 <= i < manifest_summaries(entries, kind, dirs).len() ==> (
            #[trigger] manifest_summaries(entries, kind, dirs)[i]).dir == dir_among(
                manifest_summaries(entries, kind, dirs)[i],
                dirs,
            ),
{
}

proof fn lemma_listed_dirs(e: Export)
    ensures
        forall|i: int|
            0 <= i < e.listed().len() ==> (#[trigger] e.listed()[i]).dir == dir_among(
                e.listed()[i],
                e.dirs.deep_view(),
            ),
{
    let dirs = e.dirs.deep_view();
    lemma_manifest_dirs(e.channels, ChannelKind::Public, dirs);
    lemma_manifest_dirs(e.groups, ChannelKind::Private, dirs);
    lemma_manifest_dirs(e.mpims, ChannelKind::GroupDm, dirs);
    lemma_manifest_dirs(e.dms, ChannelKind::Dm, dirs);
}

proof fn lemma_same_manifest(
    a: Option<Vec<SlackConversation>>,
    dirs_a: Seq<Seq<char>>,
    b: Option<Vec<SlackConversation>>,
    dirs_b: Seq<Seq<char>>,
    kind: ChannelKind,
)
    requires
        same_manifest(a, b),
    ensures
        same_summaries(manifest_summaries(a, kind, dirs_a), manifest_summaries(b, kind, dirs_b)),
        lists_any(a) == lists_any(b),
{
    if let (Some(x), Some(y)) = (a, b) {
        assert forall|i: int| 0 <= i < x@.len() implies same_summary(
            #[trigger] manifest_summaries(a, kind, dirs_a)[i],
            manifest_summaries(b, kind, dirs_b)[i],
        ) by {
            assert(same_entry(x@[i], y@[i]));
        }
    }
}

proof fn lemma_summaries_add(
    a: Seq<SummaryModel>,
    b: Seq<SummaryModel>,
    x: Seq<SummaryModel>,
    y: Seq<SummaryModel>,
)
    requires
        same_summaries(a, b),
        same_summaries(x, y),
    ensures
        same_summaries(a + x, b + y),
{
    assert forall|i: int| 0 <= i < (a + x).len() implies same_summary(
        #[trigger] (a + x)[i],
        (b + y)[i],
    ) by {
        if i < a.len() {
            assert(same_summary(a[i], b[i]));
        } else {
            assert(same_summary(x[i - a.len()], y[i - a.len()]));
        }
    }
}

proof fn lemma_same_listed(a: Export, b: Export)
    requires
        same_manifests(a, b),
    ensures
        same_summaries(a.listed(), b.listed()),
        a.scope() == b.scope(),
{
    let (da, db) = (a.dirs.deep_view(), b.dirs.deep_view());
    lemma_same_manifest(a.channels, da, b.channels, db, ChannelKind::Public);
    lemma_same_manifest(a.groups, da, b.groups, db, ChannelKind::Private);
    lemma_same_manifest(a.mpims, da, b.mpims, db, ChannelKind::GroupDm);
    lemma_same_manifest(a.dms, da, b.dms, db, ChannelKind::Dm);
    let (a1, b1) = (
        manifest_summaries(a.channels, ChannelKind::Public, da),
        manifest_summaries(b.channels, ChannelKind::Public, db),
    );
    let (a2, b2) = (
        manifest_summaries(a.groups, ChannelKind::Private, da),
        manifest_summaries(b.groups, ChannelKind::Private, db),
    );
    let (a3, b3) = (
        manifest_summaries(a.mpims, ChannelKind::GroupDm, da),
        manifest_summaries(b.mpims, ChannelKind::GroupDm, db),
    );
    lemma_summaries_add(a1, b1, a2, b2);
    lemma_summaries_add(a1 + a2, b1 + b2, a3, b3);
    lemma_summaries_add(
        a1 + a2 + a3,
        b1 + b2 + b3,
        manifest_summaries(a.dms, ChannelKind::Dm, da),
        manifest_summaries(b.dms, ChannelKind::Dm, db),
    );
}

/// Probing shows the same of exports that say the same: the scope, the users, and
/// the conversations with their counts and dates. Only the directory that a
/// conversation without messages has, or has not, may differ.
pub proof fn law_same_exports_have_the_same_inventory(a: Export, b: Export, keep_joins: bool)
    requires
        same_export(a, b),
    ensures
        a.scope() == b.scope(),
        same_users(a.user_list(), b.user_list()),
        same_summaries(a.inventory(keep_joins), b.inventory(keep_joins)),
{
    lemma_same_listed(a, b);
    let (x, y) = (a.inventory(keep_joins), b.inventory(keep_joins));
    assert forall|i: int| 0 <= i < x.len() implies same_summary(#[trigger] x[i], y[i]) by {
        let (c, d) = (a.listed()[i], b.listed()[i]);
        assert(same_summary(c, d));
        lemma_same_conversation(
            a.days@,
            c.dir,
            b.days@,
            d.dir,
            Setting { channel: seq![], users: Map::empty(), channels: Map::empty() },
            keep_joins,
            no_counts(),
            c.figures,
        );
    }
}

proof fn lemma_same_notes(
    a: Option<Vec<SlackConversation>>,
    b: Option<Vec<SlackConversation>>,
    dirs: Seq<Seq<char>>,
    kind: ChannelKind,
    file: Seq<char>,
)
    requires
        same_manifest(a, b),
    ensures
        manifest_summaries(a, kind, dirs) == manifest_summaries(b, kind, dirs),
        manifest_notes(file, a, kind, dirs) == manifest_notes(file, b, kind, dirs),
{
    lemma_same_manifest(a, dirs, b, dirs, kind);
    lemma_manifest_dirs(a, kind, dirs);
    lemma_manifest_dirs(b, kind, dirs);
    let (x, y) = (manifest_summaries(a, kind, dirs), manifest_summaries(b, kind, dirs));
    assert forall|i: int| 0 <= i < x.len() implies x[i] == y[i] by {
        assert(same_summary(x[i], y[i]));
        assert(x[i].dir == dir_among(x[i], dirs));
        assert(y[i].dir == dir_among(y[i], dirs));
    }
    assert(x =~= y);
}

/// Where the directories are the same too, so is everything that probing shows:
/// the conversations with their directories, and the notes.
pub proof fn law_same_directories_show_the_same(a: Export, b: Export, keep_joins: bool)
    requires
        same_export(a, b),
        a.dirs.deep_view() == b.dirs.deep_view(),
    ensures
        a.inventory(keep_joins) == b.inventory(keep_joins),
        a.manifest_remarks() == b.manifest_remarks(),
        a.unclaimed() == b.unclaimed(),
{
    let dirs = a.dirs.deep_view();
    lemma_same_notes(a.channels, b.channels, dirs, ChannelKind::Public, "channels.json"@);
    lemma_same_notes(a.groups, b.groups, dirs, ChannelKind::Private, "groups.json"@);
    lemma_same_notes(a.mpims, b.mpims, dirs, ChannelKind::GroupDm, "mpims.json"@);
    lemma_same_notes(a.dms, b.dms, dirs, ChannelKind::Dm, "dms.json"@);
    assert(a.listed() == b.listed());
    law_same_exports_have_the_same_inventory(a, b, keep_joins);
    let (x, y) = (a.inventory(keep_joins), b.inventory(keep_joins));
    assert forall|i: int| 0 <= i < x.len() implies x[i] == y[i] by {
        assert(same_summary(x[i], y[i]));
        assert(x[i].dir == a.listed()[i].dir);
        assert(y[i].dir == b.listed()[i].dir);
    }
    assert(x =~= y);
    let open_a = |d: Seq<char>| !metadata_dir(d) && !a.claimed(d);
    let open_b = |d: Seq<char>| !metadata_dir(d) && !b.claimed(d);
    assert forall|d: Seq<char>| a.claimed(d) == b.claimed(d) by {}
    assert(open_a =~= open_b);
}

// ── the selection ────────────────────────────────────────────────────────────

proof fn lemma_same_names(
    a: Seq<SummaryModel>,
    b: Seq<SummaryModel>,
    selectors: Seq<Seq<char>>,
    id: Seq<char>,
)
    requires
        same_summaries(a, b),
    ensures
        named_id(selectors, a, id) == named_id(selectors, b, id),
        forall|s: Seq<char>| #[trigger] names_any(s, a) == names_any(s, b),
{
    assert forall|s: Seq<char>, i: int| 0 <= i < a.len() implies #[trigger] names(s, a[i])
        == names(s, b[i]) by {
        assert(same_summary(a[i], b[i]));
    }
    if named_id(selectors, a, id) {
        let (s, i) = choose|s: int, i: int|
            0 <= s < selectors.len() && 0 <= i < a.len() && #[trigger] names(selectors[s], a[i])
                && a[i].slack_id == id;
        assert(same_summary(a[i], b[i]));
        assert(names(selectors[s], b[i]));
    }
    if named_id(selectors, b, id) {
        let (s, i) = choose|s: int, i: int|
            0 <= s < selectors.len() && 0 <= i < b.len() && #[trigger] names(selectors[s], b[i])
                && b[i].slack_id == id;
        assert(same_summary(a[i], b[i]));
        assert(names(selectors[s], a[i]));
    }
    assert forall|s: Seq<char>| #[trigger] names_any(s, a) == names_any(s, b) by {
        if names_any(s, a) {
            let i = choose|i: int| 0 <= i < a.len() && names(s, #[trigger] a[i]);
            assert(names(s, b[i]));
        }
        if names_any(s, b) {
            let i = choose|i: int| 0 <= i < b.len() && names(s, #[trigger] b[i]);
            assert(names(s, a[i]));
        }
    }
}

proof fn lemma_same_unknown(
    a: Seq<SummaryModel>,
    b: Seq<SummaryModel>,
    selectors: Seq<Seq<char>>,
    from: int,
)
    requires
        same_summaries(a, b),
    ensures
        first_unknown(selectors, a, from) == first_unknown(selectors, b, from),
    decreases selectors.len() - from,
{
    if 0 <= from < selectors.len() {
        lemma_same_names(a, b, selectors, selectors[from]);
        assert(names_any(selectors[from], a) == names_any(selectors[from], b));
        lemma_same_unknown(a, b, selectors, from + 1);
    }
}

proof fn lemma_same_ids(
    a: Seq<SummaryModel>,
    b: Seq<SummaryModel>,
    p: spec_fn(SummaryModel) -> bool,
    q: spec_fn(SummaryModel) -> bool,
)
    requires
        same_summaries(a, b),
        forall|i: int| 0 <= i < a.len() ==> p(#[trigger] a[i]) == q(b[i]),
    ensures
        ids(a.filter(p)) == ids(b.filter(q)),
    decreases a.len(),
{
    reveal(Seq::filter);
    if a.len() > 0 {
        let (x, y) = (a.drop_last(), b.drop_last());
        assert forall|i: int| 0 <= i < x.len() implies same_summary(#[trigger] x[i], y[i]) && p(
            x[i],
        ) == q(y[i]) by {
            assert(same_summary(a[i], b[i]));
            assert(p(a[i]) == q(b[i]));
        }
        lemma_same_ids(x, y, p, q);
        assert(same_summary(a[a.len() - 1], b[b.len() - 1]));
        assert(p(a[a.len() - 1]) == q(b[b.len() - 1]));
        let (f, g) = (x.filter(p), y.filter(q));
        assert(ids(f) == ids(g));
        assert(f.len() == ids(f).len() && g.len() == ids(g).len());
        assert(ids(f.push(a.last())) =~= ids(f).push(a.last().slack_id));
        assert(ids(g.push(b.last())) =~= ids(g).push(b.last().slack_id));
    } else {
        assert(ids(a.filter(p)) =~= ids(b.filter(q)));
    }
}

proof fn lemma_same_skipped(a: Seq<SummaryModel>, b: Seq<SummaryModel>, selected: Seq<Seq<char>>)
    requires
        same_summaries(a, b),
    ensures
        skipped_ids(selected, a) == skipped_ids(selected, b),
{
    let p = |c: SummaryModel| !selected.contains(c.slack_id);
    assert forall|i: int| 0 <= i < a.len() implies p(#[trigger] a[i]) == p(b[i]) by {
        assert(same_summary(a[i], b[i]));
    }
    lemma_same_ids(a, b, p, p);
}

/// A filter selects the same from inventories that are the same but for the
/// directories.
proof fn lemma_same_resolution(a: Seq<SummaryModel>, b: Seq<SummaryModel>, f: FilterModel)
    requires
        same_summaries(a, b),
    ensures
        resolution(f, a) == resolution(f, b),
{
    lemma_same_unknown(a, b, f.included, 0);
    lemma_same_unknown(a, b, f.exclude, 0);
    let p = |c: SummaryModel| picks(f, a, c);
    let q = |c: SummaryModel| picks(f, b, c);
    assert forall|i: int| 0 <= i < a.len() implies p(#[trigger] a[i]) == q(b[i]) by {
        assert(same_summary(a[i], b[i]));
        let id = a[i].slack_id;
        lemma_same_names(a, b, f.included, id);
        lemma_same_names(a, b, f.exclude, id);
        if asked_by_kind(f, a, id) {
            let k = choose|k: int|
                0 <= k < a.len() && f.asks_kind((#[trigger] a[k]).kind) && a[k].slack_id == id;
            assert(same_summary(a[k], b[k]));
            assert(f.asks_kind(b[k].kind) && b[k].slack_id == id);
        }
        if asked_by_kind(f, b, id) {
            let k = choose|k: int|
                0 <= k < b.len() && f.asks_kind((#[trigger] b[k]).kind) && b[k].slack_id == id;
            assert(same_summary(a[k], b[k]));
            assert(f.asks_kind(a[k].kind) && a[k].slack_id == id);
        }
    }
    lemma_same_ids(a, b, p, q);
    lemma_same_skipped(a, b, selected_ids(f, a));
}

// ── the import ───────────────────────────────────────────────────────────────

/// The custom emoji of an export; nothing when the table does not parse.
pub open spec fn emoji_of(e: Export) -> Option<Seq<(Seq<char>, Seq<char>)>> {
    match e.emoji {
        Some(json) => emoji_entries(json@),
        None => Some(seq![]),
    }
}

/// What probing an export, applying a filter to the inventory and parsing what is
/// selected come to.
pub open spec fn import_of(
    e: Export,
    probe_joins: bool,
    filter: FilterModel,
    keep_joins: bool,
) -> Result<ImportModel, Failure> {
    match emoji_of(e) {
        None => Err(Failure::Json { what: "emoji.json"@ }),
        Some(emoji) => match resolution(filter, e.inventory(probe_joins)) {
            Err(why) => Err(why),
            Ok(resolved) => parsed(
                Scene {
                    users: e.user_list(),
                    conversations: e.inventory(probe_joins),
                    days: e.days@,
                    keep_joins,
                },
                resolved.selected,
                emoji,
            ),
        },
    }
}

/// Looking an id up finds the same place.
proof fn lemma_same_lookup(a: Seq<SummaryModel>, b: Seq<SummaryModel>, id: Seq<char>) -> (at: int)
    requires
        same_summaries(a, b),
    ensures
        lookup(a, id) is None <==> lookup(b, id) is None,
        lookup(a, id) is Some ==> 0 <= at < a.len() && lookup(a, id) == Some(a[at]) && lookup(b, id)
            == Some(b[at]),
    decreases a.len(),
{
    if a.len() == 0 {
        0
    } else {
        assert(same_summary(a[0], b[0]));
        if a[0].slack_id == id {
            0
        } else {
            let (x, y) = (a.drop_first(), b.drop_first());
            assert forall|i: int| 0 <= i < x.len() implies same_summary(#[trigger] x[i], y[i]) by {
                assert(same_summary(a[i + 1], b[i + 1]));
            }
            lemma_same_lookup(x, y, id) + 1
        }
    }
}

proof fn lemma_same_channel_names(a: Seq<SummaryModel>, b: Seq<SummaryModel>)
    requires
        same_summaries(a, b),
    ensures
        channel_names(a) == channel_names(b),
    decreases a.len(),
{
    if a.len() > 0 {
        let (x, y) = (a.drop_last(), b.drop_last());
        assert forall|i: int| 0 <= i < x.len() implies same_summary(#[trigger] x[i], y[i]) by {
            assert(same_summary(a[i], b[i]));
        }
        lemma_same_channel_names(x, y);
        assert(same_summary(a[a.len() - 1], b[b.len() - 1]));
    }
}

/// Whether two tellings have the same users and conversations, and of each
/// conversation day files that say the same.
spec fn same_scene(s: Scene, t: Scene) -> bool {
    &&& s.keep_joins == t.keep_joins
    &&& same_users(s.users, t.users)
    &&& same_summaries(s.conversations, t.conversations)
    &&& forall|i: int|
        0 <= i < s.conversations.len() ==> same_days(
            files_of(s.days, (#[trigger] s.conversations[i]).dir),
            files_of(t.days, t.conversations[i].dir),
        )
}

proof fn lemma_same_channels(s: Scene, t: Scene, selected: Seq<Seq<char>>, c: CountsModel)
    requires
        same_scene(s, t),
    ensures
        s.channel_parts(selected) == t.channel_parts(selected),
        s.with_channels(c, selected) == t.with_channels(c, selected),
    decreases selected.len(),
{
    if selected.len() > 0 {
        let ahead = selected.drop_last();
        lemma_same_channels(s, t, ahead, c);
        lemma_same_users(s.users, t.users);
        lemma_same_channel_names(s.conversations, t.conversations);
        let at = lemma_same_lookup(s.conversations, t.conversations, selected.last());
        if lookup(s.conversations, selected.last()) is Some {
            let (x, y) = (s.conversations[at], t.conversations[at]);
            assert(same_summary(x, y));
            let counted = s.with_channels(c, ahead);
            lemma_same_conversation(
                s.days,
                x.dir,
                t.days,
                y.dir,
                s.setting(x.slack_id),
                s.keep_joins,
                CountsModel { channels: counted.channels + 1, ..counted },
                no_figures(),
            );
            assert(s.channel_part(x) == seq![channel_record(x)] + told(
                s.days,
                x.dir,
                s.setting(x.slack_id),
                s.keep_joins,
            ));
            assert(t.channel_part(y) == seq![channel_record(y)] + told(
                t.days,
                y.dir,
                t.setting(y.slack_id),
                t.keep_joins,
            ));
        }
    }
}

proof fn lemma_same_missing(s: Scene, t: Scene, selected: Seq<Seq<char>>, from: int)
    requires
        same_scene(s, t),
    ensures
        s.first_missing(selected, from) == t.first_missing(selected, from),
    decreases selected.len() - from,
{
    if 0 <= from < selected.len() {
        let at = lemma_same_lookup(s.conversations, t.conversations, selected[from]);
        lemma_same_missing(s, t, selected, from + 1);
    }
}

/// Exports that say the same import the same: the records, one for one, and the
/// counts, or the same error.
pub proof fn law_same_exports_import_the_same(
    a: Export,
    b: Export,
    probe_joins: bool,
    filter: FilterModel,
    keep_joins: bool,
)
    requires
        same_export(a, b),
    ensures
        import_of(a, probe_joins, filter, keep_joins) == import_of(
            b,
            probe_joins,
            filter,
            keep_joins,
        ),
{
    law_same_exports_have_the_same_inventory(a, b, probe_joins);
    lemma_same_resolution(a.inventory(probe_joins), b.inventory(probe_joins), filter);
    let s = Scene {
        users: a.user_list(),
        conversations: a.inventory(probe_joins),
        days: a.days@,
        keep_joins,
    };
    let t = Scene {
        users: b.user_list(),
        conversations: b.inventory(probe_joins),
        days: b.days@,
        keep_joins,
    };
    assert forall|i: int| 0 <= i < s.conversations.len() implies same_days(
        files_of(s.days, (#[trigger] s.conversations[i]).dir),
        files_of(t.days, t.conversations[i].dir),
    ) by {
        assert(s.conversations[i].dir == a.listed()[i].dir);
        assert(t.conversations[i].dir == b.listed()[i].dir);
    }
    if let (Some(emoji), Ok(resolved)) = (
        emoji_of(a),
        resolution(filter, a.inventory(probe_joins)),
    ) {
        let selected = resolved.selected;
        lemma_same_missing(s, t, selected, 0);
        lemma_same_users(s.users, t.users);
        lemma_same_channels(
            s,
            t,
            selected,
            CountsModel { users: s.users.len(), ..no_counts() },
        );
        lemma_same_skipped(s.conversations, t.conversations, selected);
        assert(s.body(selected, emoji) =~= t.body(selected, emoji));
        assert(s.header(selected, emoji) == t.header(selected, emoji));
    }
}

// ── archives and directories ─────────────────────────────────────────────────

/// Whether the day files of a directory are those at `paths`, in order, each
/// saying what `content` says of its path.
pub open spec fn days_at(
    days: Seq<DayFile>,
    dir: Seq<char>,
    paths: Seq<Seq<char>>,
    content: spec_fn(Seq<char>) -> DayFile,
) -> bool {
    &&& of_dir(days, dir).len() == paths.len()
    &&& forall|i: int|
        0 <= i < paths.len() ==> same_day(#[trigger] of_dir(days, dir)[i], content(paths[i]))
}

/// Whether an export was read from an archive with these entries: its directories
/// are those that [`ZipIndex::top_level_dirs`] gives, and its day files those that
/// [`ZipIndex::channel_day_files`] gives.
///
/// [`ZipIndex::top_level_dirs`]: crate::export::ZipIndex::top_level_dirs
/// [`ZipIndex::channel_day_files`]: crate::export::ZipIndex::channel_day_files
pub open spec fn read_from_archive(
    e: Export,
    raw: Seq<Seq<char>>,
    content: spec_fn(Seq<char>) -> DayFile,
) -> bool {
    let names = under(raw, wrapper_of(raw));
    &&& e.dirs.deep_view() == sorted_set(holding_dirs(names))
    &&& forall|d: Seq<char>| #[trigger]
        e.dirs.deep_view().contains(d) ==> days_at(
            e.days@,
            d,
            sorted(names.filter(|n: Seq<char>| day_file_of(n, d))),
            content,
        )
}

/// Whether an export was read from a directory whose root lists the directories
/// `root`, each of which lists `listing` of it: its directories are those that
/// [`dirs_of_listing`] gives, and its day files those that
/// [`day_files_of_listing`] gives.
///
/// [`dirs_of_listing`]: crate::export::dirs_of_listing
/// [`day_files_of_listing`]: crate::export::day_files_of_listing
pub open spec fn read_from_directory(
    e: Export,
    root: Seq<Seq<char>>,
    listing: spec_fn(Seq<char>) -> Seq<Seq<char>>,
    content: spec_fn(Seq<char>) -> DayFile,
) -> bool {
    &&& e.dirs.deep_view() == sorted_set(root)
    &&& forall|d: Seq<char>| #[trigger]
        e.dirs.deep_view().contains(d) ==> days_at(
            e.days@,
            d,
            sorted_set(json_paths(listing(d), d)),
            content,
        )
}

proof fn lemma_day_transitive(a: DayFile, b: DayFile, c: DayFile)
    requires
        same_day(a, c),
        same_day(b, c),
    ensures
        same_day(a, b),
{
    if let (Some(x), Some(y), Some(z)) = (a.messages, b.messages, c.messages) {
        assert forall|i: int| 0 <= i < x@.len() implies same_message(
            #[trigger] x@[i],
            y@[i],
        ) by {
            let (l, m, n) = (x@[i], y@[i], z@[i]);
            assert(same_message(x@[i], z@[i]));
            assert(same_message(y@[i], z@[i]));
            assert forall|k: int| 0 <= k < l.reactions@.len() implies (
            #[trigger] l.reactions@[k]).name@ == m.reactions@[k].name@
                && l.reactions@[k].users.deep_view() == m.reactions@[k].users.deep_view() by {
                assert(l.reactions@[k].name@ == n.reactions@[k].name@);
                assert(m.reactions@[k].name@ == n.reactions@[k].name@);
            }
            assert forall|k: int| 0 <= k < l.files@.len() implies same_file(
                #[trigger] l.files@[k],
                m.files@[k],
            ) by {
                assert(same_file(l.files@[k], n.files@[k]));
                assert(same_file(m.files@[k], n.files@[k]));
            }
        }
    }
}

/// A directory that an archive holds nothing in has no day files there.
proof fn lemma_no_day_files(names: Seq<Seq<char>>, d: Seq<char>)
    requires
        !nested(d),
        !holding_dirs(names).contains(d),
    ensures
        names.filter(|n: Seq<char>| day_file_of(n, d)).len() == 0,
{
    let pred = |n: Seq<char>| day_file_of(n, d);
    lemma_kept(names, pred);
    let days = names.filter(pred);
    if days.len() > 0 {
        let n = days[0];
        assert(days.contains(n));
        assert(names.contains(n) && day_file_of(n, d));
        let want = d + "/"@;
        let f = n.skip(want.len() as int);
        assert(n =~= want + f) by {
            assert(n.subrange(0, want.len() as int) =~= want);
        }
        reveal_strlit("/");
        reveal_strlit(".json");
        assert(n.subrange(n.len() - 5, n.len() as int)[4] == 'n');
        assert(n.last() == 'n');
        lemma_holds(names, d, f);
    }
}

/// Whether some conversation of an export is listed under a name whose directory
/// is empty, while its messages stand in a directory named after its id. An
/// archive has no empty directories, so there the messages are found.
pub open spec fn shadowed(c: SummaryModel, root: Seq<Seq<char>>, names: Seq<Seq<char>>) -> bool {
    &&& root.contains(c.label())
    &&& !holding_dirs(names).contains(c.label())
    &&& names.filter(|n: Seq<char>| day_file_of(n, c.slack_id)).len() > 0
}

/// An archive imports like a directory of the same files, whether or not it wraps
/// them in a directory of its own: the same records, one for one, and the same
/// counts. The directory may have empty directories besides, as long as none
/// shadows a conversation.
pub proof fn law_zip_imports_like_directory(
    names: Seq<Seq<char>>,
    wrapper: Option<Seq<char>>,
    root: Seq<Seq<char>>,
    listing: spec_fn(Seq<char>) -> Seq<Seq<char>>,
    content: spec_fn(Seq<char>) -> DayFile,
    unzipped: Export,
    zipped: Export,
    probe_joins: bool,
    filter: FilterModel,
    keep_joins: bool,
)
    requires
        names.contains("users.json"@),
        under(names, seq![]).no_duplicates(),
        wrapper matches Some(w) ==> !nested(w),
        forall|d: Seq<char>| #[trigger]
            holding_dirs(under(names, seq![])).contains(d) ==> root.contains(d),
        forall|d: Seq<char>| #[trigger]
            root.contains(d) ==> !nested(d) && lists_json_of(
                listing(d),
                under(names, seq![]),
                d,
            ),
        same_manifests(unzipped, zipped),
        read_from_directory(unzipped, root, listing, content),
        read_from_archive(
            zipped,
            match wrapper {
                Some(w) => wrapped(names, w),
                None => names,
            },
            content,
        ),
        forall|i: int|
            0 <= i < unzipped.listed().len() ==> !shadowed(
                #[trigger] unzipped.listed()[i],
                root,
                under(names, seq![]),
            ),
    ensures
        same_export(unzipped, zipped),
        import_of(unzipped, probe_joins, filter, keep_joins) == import_of(
            zipped,
            probe_joins,
            filter,
            keep_joins,
        ),
{
    let entries = under(names, seq![]);
    let raw = match wrapper {
        Some(w) => wrapped(names, w),
        None => names,
    };
    match wrapper {
        Some(w) => law_wrapper_is_invisible(names, w),
        None => law_wrapper_is_invisible(names, seq![]),
    }
    assert(under(raw, wrapper_of(raw)) == entries);
    let held = holding_dirs(entries);
    law_sorted_set(root);
    law_sorted_set(held);
    lemma_same_listed(unzipped, zipped);
    lemma_listed_dirs(unzipped);
    lemma_listed_dirs(zipped);
    let (da, db) = (unzipped.dirs.deep_view(), zipped.dirs.deep_view());
    assert forall|d: Seq<char>| #[trigger] da.contains(d) implies of_dir(unzipped.days@, d).len()
        == sorted(entries.filter(|n: Seq<char>| day_file_of(n, d))).len() by {
        assert(root.contains(d));
        law_zip_agrees_with_directory(entries, d, listing(d));
    }
    assert forall|i: int| 0 <= i < unzipped.listed().len() implies same_days(
        files_of(unzipped.days@, (#[trigger] unzipped.listed()[i]).dir),
        files_of(zipped.days@, zipped.listed()[i].dir),
    ) by {
        let (x, y) = (unzipped.listed()[i], zipped.listed()[i]);
        assert(same_summary(x, y));
        assert(!shadowed(x, root, entries));
        assert(x.dir == dir_among(x, da));
        assert(y.dir == dir_among(y, db));
        let (a, b) = (files_of(unzipped.days@, x.dir), files_of(zipped.days@, y.dir));
        if x.dir is Some && x.dir == y.dir {
            let d = x.dir->0;
            assert(da.contains(d) && db.contains(d));
            assert(root.contains(d));
            law_zip_agrees_with_directory(entries, d, listing(d));
            let paths = sorted_set(json_paths(listing(d), d));
            assert forall|k: int| 0 <= k < a.len() implies same_day(#[trigger] a[k], b[k]) by {
                assert(same_day(a[k], content(paths[k])));
                assert(same_day(b[k], content(paths[k])));
                lemma_day_transitive(a[k], b[k], content(paths[k]));
            }
        } else {
            if let Some(d) = x.dir {
                assert(da.contains(d));
                assert(root.contains(d));
                if held.contains(d) {
                    assert(db.contains(d));
                }
                lemma_no_day_files(entries, d);
                lemma_order_exists(entries.filter(|n: Seq<char>| day_file_of(n, d)));
            }
            if let Some(d) = y.dir {
                assert(db.contains(d));
                assert(held.contains(d));
                assert(root.contains(d) && da.contains(d));
                assert(d == y.slack_id);
                lemma_order_exists(entries.filter(|n: Seq<char>| day_file_of(n, d)));
            }
            assert(a.len() == 0 && b.len() == 0);
        }
    }
    law_same_exports_import_the_same(unzipped, zipped, probe_joins, filter, keep_joins);
}

} // verus!
