//! What a probe counts and remarks.

use vstd::prelude::*;

use crate::export::{DayFile, Export};
use crate::ir::{ts_secs, ChannelKind};
use crate::order::{law_sorted_set, lemma_kept, sorted_set};
use crate::parse::records::{churn, count_entries, dated};
use crate::probe::{
    counted, entry_summary, known_file_ids, manifest_notes, manifest_summaries, metadata_dir,
    no_messages_note, no_messages_notes, reactors, sum_of, unlisted_notes, with_days,
    with_messages, Figures, SummaryModel,
};
use crate::slack::laws::law_churn_is_joining_and_leaving;
use crate::slack::{SlackConversation, SlackFile, SlackMessage, SlackReaction};
use crate::text::lt;

verus! {

// ── counting ─────────────────────────────────────────────────────────────────

/// Whether a message answers another: it names a thread that is not its own.
pub open spec fn answers(m: SlackMessage) -> bool {
    m.thread_ts matches Some(t) && (m.ts matches Some(ts) ==> t@ != ts@)
}

/// How many reacted to a message, over all its reactions.
pub open spec fn all_reactors(rs: Seq<SlackReaction>) -> int {
    rs.fold_left(0int, |n: int, r: SlackReaction| n + r.users@.len())
}

pub(crate) proof fn lemma_reactors(rs: Seq<SlackReaction>)
    ensures
        reactors(rs) == all_reactors(rs),
    decreases rs.len(),
{
    if rs.len() > 0 {
        lemma_reactors(rs.drop_last());
    }
}

proof fn lemma_known_files(fs: Seq<SlackFile>)
    ensures
        known_file_ids(fs).len() == fs.filter(|f: SlackFile| f.id is Some).len(),
    decreases fs.len(),
{
    reveal(Seq::filter);
    if fs.len() > 0 {
        lemma_known_files(fs.drop_last());
    }
}

/// What one message adds to the figures of its conversation. Joining and leaving
/// is counted as dropped, unless it is kept, and a message without a usable `ts` as
/// skipped. Every other one counts as a message, with everyone who reacted to it and
/// its files that have an id, and as a reply where it names a thread that is not its
/// own; the range of dates reaches to it.
pub proof fn law_what_a_message_adds(
    f: Figures,
    ms: Seq<SlackMessage>,
    m: SlackMessage,
    keep_joins: bool,
)
    ensures
        with_messages(f, seq![], keep_joins) == f,
        ({
            let g = with_messages(f, ms, keep_joins);
            let h = with_messages(f, ms.push(m), keep_joins);
            let counts = dated(m) && (keep_joins || !churn(m));
            let t = ts_secs(m.ts->0@)->0;
            &&& h.dropped == g.dropped + if churn(m) && !keep_joins {
                1int
            } else {
                0
            }
            &&& h.skipped == g.skipped + if !dated(m) && (keep_joins || !churn(m)) {
                1int
            } else {
                0
            }
            &&& counts ==> {
                &&& h.messages == g.messages + 1
                &&& h.replies == g.replies + if answers(m) {
                    1int
                } else {
                    0
                }
                &&& h.reactions == g.reactions + all_reactors(m.reactions@)
                &&& h.files == g.files + m.files@.filter(|f: SlackFile| f.id is Some).len()
                &&& h.first is Some && h.last is Some
                &&& h.first->0 <= t && (g.first is Some ==> h.first->0 <= g.first->0)
                &&& h.first->0 == t || h.first == g.first
                &&& t <= h.last->0 && (g.last is Some ==> g.last->0 <= h.last->0)
                &&& h.last->0 == t || h.last == g.last
            }
            &&& !counts ==> h == (Figures { dropped: h.dropped, skipped: h.skipped, ..g })
        }),
{
    assert(ms.push(m).drop_last() =~= ms);
    if let Some(s) = m.subtype {
        law_churn_is_joining_and_leaving(s@);
    }
    lemma_reactors(m.reactions@);
    lemma_known_files(m.files@);
}

/// Which day files count for a conversation: those of its directory, message by
/// message. One that cannot be read counts as one that was skipped.
pub proof fn law_what_a_day_adds(
    f: Figures,
    days: Seq<DayFile>,
    day: DayFile,
    dir: Seq<char>,
    keep_joins: bool,
)
    ensures
        with_days(f, seq![], dir, keep_joins) == f,
        day.dir@ != dir ==> with_days(f, days.push(day), dir, keep_joins) == with_days(
            f,
            days,
            dir,
            keep_joins,
        ),
        day.dir@ == dir ==> (day.messages matches Some(ms) ==> with_days(
            f,
            days.push(day),
            dir,
            keep_joins,
        ) == with_messages(with_days(f, days, dir, keep_joins), ms@, keep_joins)),
        day.dir@ == dir && day.messages is None ==> {
            let g = with_days(f, days, dir, keep_joins);
            with_days(f, days.push(day), dir, keep_joins) == (Figures {
                skipped: g.skipped + 1,
                ..g
            })
        },
{
    assert(days.push(day).drop_last() =~= days);
}

/// Counting starts from nothing, goes over the day files of the conversation's
/// directory, and changes nothing else of what the manifests say. A conversation
/// without a directory has no messages.
pub proof fn law_conversations_are_counted_from_nothing(e: Export, keep_joins: bool, i: int)
    requires
        0 <= i < e.listed().len(),
    ensures
        e.inventory(keep_joins).len() == e.listed().len(),
        ({
            let c = e.inventory(keep_joins)[i];
            let zero = Figures {
                messages: 0,
                replies: 0,
                reactions: 0,
                files: 0,
                dropped: 0,
                skipped: 0,
                first: None,
                last: None,
            };
            &&& c.figures == match c.dir {
                Some(dir) => with_days(zero, e.days@, dir, keep_joins),
                None => zero,
            }
            &&& c == (SummaryModel { figures: c.figures, ..e.listed()[i] })
        }),
{
    let dirs = e.dirs.deep_view();
    let a = manifest_summaries(e.channels, ChannelKind::Public, dirs);
    let b = manifest_summaries(e.groups, ChannelKind::Private, dirs);
    let c = manifest_summaries(e.mpims, ChannelKind::GroupDm, dirs);
    let d = manifest_summaries(e.dms, ChannelKind::Dm, dirs);
    let x = e.listed()[i];
    if i < a.len() {
        assert(x == a[i]);
    } else if i < a.len() + b.len() {
        assert(x == b[i - a.len()]);
    } else if i < a.len() + b.len() + c.len() {
        assert(x == c[i - a.len() - b.len()]);
    } else {
        assert(x == d[i - a.len() - b.len() - c.len()]);
    }
}

/// The totals of a probe are sums over its conversations.
pub proof fn law_totals_are_sums(cs: Seq<SummaryModel>, c: SummaryModel, f: spec_fn(Figures) -> nat)
    ensures
        sum_of(seq![], f) == 0,
        sum_of(cs.push(c), f) == sum_of(cs, f) + f(c.figures),
{
    assert(cs.push(c).drop_last() =~= cs);
}

/// A conversation's messages are in the directory named like it, else in the one
/// named like its id; where the export has neither, it has none. It is shown by its
/// name, else by its id.
pub proof fn law_conversations_find_their_directory(
    e: SlackConversation,
    kind: ChannelKind,
    dirs: Seq<Seq<char>>,
)
    ensures
        ({
            let c = entry_summary(e, kind, dirs);
            &&& e.name matches Some(n) ==> {
                &&& dirs.contains(n@) ==> c.dir == Some(n@)
                &&& !dirs.contains(n@) && dirs.contains(e.id@) ==> c.dir == Some(e.id@)
                &&& !dirs.contains(n@) && !dirs.contains(e.id@) ==> c.dir is None
                &&& c.label() == n@
            }
            &&& e.name is None ==> {
                &&& dirs.contains(e.id@) ==> c.dir == Some(e.id@)
                &&& !dirs.contains(e.id@) ==> c.dir is None
                &&& c.label() == e.id@
            }
        }),
{
}

// ── scope and remarks ────────────────────────────────────────────────────────

/// The users are those of the export; without a table of them there are none.
pub proof fn law_users_are_those_of_the_table(e: Export)
    ensures
        e.users matches Some(us) ==> e.user_list() == us@,
        e.users is None ==> e.user_list().len() == 0,
{
}

/// What an export turned out to hold: direct messages where a manifest of DMs or
/// group DMs lists any, else private channels where their manifest lists any, else
/// public channels only.
pub proof fn law_scope_is_what_the_manifests_list(e: Export)
    ensures
        count_entries(e.dms) > 0 || count_entries(e.mpims) > 0 ==> e.scope().words()
            == "public channels, private channels and direct messages"@,
        count_entries(e.dms) == 0 && count_entries(e.mpims) == 0 && count_entries(e.groups) > 0
            ==> e.scope().words() == "public and private channels"@,
        count_entries(e.dms) == 0 && count_entries(e.mpims) == 0 && count_entries(e.groups) == 0
            ==> e.scope().words() == "public channels only"@,
{
}

/// How many of a manifest's conversations have no directory.
pub open spec fn adrift(cs: Seq<SummaryModel>) -> nat {
    cs.filter(|c: SummaryModel| c.dir is None).len()
}

proof fn lemma_no_messages_notes(cs: Seq<SummaryModel>, file: Seq<char>)
    ensures
        no_messages_notes(cs, file).len() == adrift(cs),
        forall|i: int|
            0 <= i < cs.len() && (#[trigger] cs[i]).dir is None ==> no_messages_notes(
                cs,
                file,
            ).contains(no_messages_note(cs[i], file)),
    decreases cs.len(),
{
    reveal(Seq::filter);
    if cs.len() > 0 {
        let front = cs.drop_last();
        lemma_no_messages_notes(front, file);
        let before = no_messages_notes(front, file);
        let all = no_messages_notes(cs, file);
        assert forall|i: int| 0 <= i < cs.len() && (#[trigger] cs[i]).dir is None implies all.contains(
            no_messages_note(cs[i], file),
        ) by {
            if i < front.len() {
                assert(front[i] == cs[i]);
                let k = before.index_of(no_messages_note(cs[i], file));
                assert(all[k] == no_messages_note(cs[i], file));
            } else {
                assert(all[before.len() as int] == no_messages_note(cs[i], file));
            }
        }
    }
}

/// How many remarks a manifest gives rise to: one where it is there and lists
/// nothing, else one for each conversation that has no messages.
pub open spec fn remarks_owed(
    entries: Option<Vec<SlackConversation>>,
    kind: ChannelKind,
    dirs: Seq<Seq<char>>,
) -> nat {
    if entries is Some && count_entries(entries) == 0 {
        1
    } else {
        adrift(manifest_summaries(entries, kind, dirs))
    }
}

/// A manifest that lists nothing is remarked on, and so is each conversation that
/// a manifest lists and that has no directory. Nothing else about it is.
pub proof fn law_manifests_are_remarked_on(
    file: Seq<char>,
    entries: Option<Vec<SlackConversation>>,
    kind: ChannelKind,
    dirs: Seq<Seq<char>>,
    i: int,
)
    ensures
        manifest_notes(file, entries, kind, dirs).len() == remarks_owed(entries, kind, dirs),
        entries is Some && count_entries(entries) == 0 ==> manifest_notes(
            file,
            entries,
            kind,
            dirs,
        )[0] == file + " is present but empty"@,
        0 <= i < count_entries(entries) && entry_summary(entries->0@[i], kind, dirs).dir is None
            ==> manifest_notes(file, entries, kind, dirs).contains(
            kind.word() + " \""@ + entry_summary(entries->0@[i], kind, dirs).label()
                + "\" is listed in "@ + file + " but has no messages in the export"@,
        ),
{
    let cs = manifest_summaries(entries, kind, dirs);
    lemma_no_messages_notes(cs, file);
    if entries is None {
        reveal(Seq::filter);
        assert(cs =~= seq![]);
    }
    if 0 <= i < count_entries(entries) {
        assert(cs[i] == entry_summary(entries->0@[i], kind, dirs));
    }
}

/// An export's remarks: first that the users are missing, where they are, then those
/// on each manifest under the manifest's own name.
pub proof fn law_remarks_are_of_users_and_manifests(e: Export)
    ensures
        ({
            let dirs = e.dirs.deep_view();
            let notes = e.manifest_remarks();
            let a = manifest_notes("channels.json"@, e.channels, ChannelKind::Public, dirs);
            let b = manifest_notes("groups.json"@, e.groups, ChannelKind::Private, dirs);
            let c = manifest_notes("mpims.json"@, e.mpims, ChannelKind::GroupDm, dirs);
            let d = manifest_notes("dms.json"@, e.dms, ChannelKind::Dm, dirs);
            &&& e.users is None ==> notes == seq![
                "users.json is missing — messages will be attributed to raw Slack ids"@,
            ] + (a + b + c + d)
            &&& e.users is Some ==> notes == a + b + c + d
        }),
{
    let dirs = e.dirs.deep_view();
    let notes = e.manifest_remarks();
    let a = manifest_notes("channels.json"@, e.channels, ChannelKind::Public, dirs);
    let b = manifest_notes("groups.json"@, e.groups, ChannelKind::Private, dirs);
    let c = manifest_notes("mpims.json"@, e.mpims, ChannelKind::GroupDm, dirs);
    let d = manifest_notes("dms.json"@, e.dms, ChannelKind::Dm, dirs);
    if e.users is None {
        assert(notes =~= seq![
            "users.json is missing — messages will be attributed to raw Slack ids"@,
        ] + (a + b + c + d));
    } else {
        assert(notes =~= a + b + c + d);
    }
}

/// The directories that are reported as not listed: those of the export that hold
/// neither Slack's own metadata nor a listed conversation, each once, in order. The
/// report names the directory.
pub proof fn law_unlisted_directories_are_reported(e: Export, dir: Seq<char>, i: int, j: int)
    ensures
        e.unclaimed().contains(dir) <==> {
            &&& e.dirs.deep_view().contains(dir)
            &&& dir != "canvases"@ && dir != "lists"@ && dir != "huddle_transcripts"@ && dir
                != "files"@
            &&& forall|k: int|
                0 <= k < e.listed().len() ==> (#[trigger] e.listed()[k]).dir != Some(dir)
        },
        0 <= i < j < e.unclaimed().len() ==> lt(e.unclaimed()[i], e.unclaimed()[j]),
        unlisted_notes(e.unclaimed()).len() == e.unclaimed().len(),
        0 <= i < e.unclaimed().len() ==> unlisted_notes(e.unclaimed())[i] == "directory \""@
            + e.unclaimed()[i]
            + "\" holds messages but is not listed in any manifest — it will not be imported"@,
{
    let pred = |d: Seq<char>| !metadata_dir(d) && !e.claimed(d);
    let all = e.dirs.deep_view();
    let open = all.filter(pred);
    lemma_kept(all, pred);
    law_sorted_set(open);
    let u = e.unclaimed();
    assert(u == sorted_set(open));
    if u.contains(dir) {
        assert(open.contains(dir));
        let k = open.index_of(dir);
        assert(pred(open[k]));
        assert(all.contains(open[k]));
    }
    if all.contains(dir) && pred(dir) {
        let k = all.index_of(dir);
        assert(pred(all[k]));
        assert(open.contains(all[k]));
    }
}

} // verus!
