//! What the command line shows, and what it does next.

use vstd::prelude::*;

use crate::error::{exit, Failure};
use crate::fmt;
use crate::fmt::plural_text;
use crate::invite::people::PersonModel;
use crate::invite::{Plan, PlanModel};
use crate::ir::{ChannelKind, Counts, CountsModel};
use crate::probe::{sum_of, ConversationSummary, ExportScope, Figures, Inventory, SummaryModel};
use crate::selection::{date_range, range_text, Filter, FilterModel, Resolved};
use crate::text;
use crate::text::{dec, pad_left, pad_right};

pub mod laws;

verus! {

// ── probe ────────────────────────────────────────────────────────────────────

/// A conversation's line in the inventory.
pub open spec fn inventory_line(c: SummaryModel) -> Seq<char> {
    "  "@ + pad_right(c.label(), 26) + " "@ + pad_left(dec(c.figures.messages), ' ', 7) + " msgs "@
        + pad_left(dec(c.figures.replies), ' ', 5) + " thr "@ + pad_left(
        dec(c.figures.reactions),
        ' ',
        5,
    ) + " rxn "@ + pad_left(dec(c.figures.files), ' ', 4) + " files  "@ + range_text(c, "empty"@)
        + if c.is_archived {
        "  [archived]\n"@
    } else {
        "\n"@
    }
}

pub open spec fn inventory_lines(cs: Seq<SummaryModel>) -> Seq<char>
    decreases cs.len(),
{
    if cs.len() == 0 {
        seq![]
    } else {
        inventory_lines(cs.drop_last()) + inventory_line(cs.last())
    }
}

/// The conversations of one kind, under a heading; nothing when there are none.
pub open spec fn group_text(cs: Seq<SummaryModel>, kind: ChannelKind) -> Seq<char> {
    let group = cs.filter(|c: SummaryModel| c.kind == kind);
    if group.len() == 0 {
        seq![]
    } else {
        kind.word() + " ("@ + dec(group.len()) + "):\n"@ + inventory_lines(group) + "\n"@
    }
}

pub open spec fn note_lines(notes: Seq<Seq<char>>) -> Seq<char>
    decreases notes.len(),
{
    if notes.len() == 0 {
        seq![]
    } else {
        note_lines(notes.drop_last()) + "  - "@ + notes.last() + "\n"@
    }
}

/// The warnings, under a heading; nothing when there are none.
pub open spec fn notes_text(notes: Seq<Seq<char>>) -> Seq<char> {
    if notes.len() == 0 {
        seq![]
    } else {
        "Notes:\n"@ + note_lines(notes) + "\n"@
    }
}

/// What an export with private conversations is introduced with.
pub open spec fn privacy_text(scope: ExportScope) -> Seq<char> {
    if scope is PublicOnly {
        seq![]
    } else {
        "This export includes conversations people had a reasonable expectation of privacy about.\nNothing beyond public channels is selected by default.\n\n"@
    }
}

/// What `probe` shows.
pub open spec fn inventory_report(inventory: Inventory) -> Seq<char> {
    let cs = inventory.models();
    "Export contains: "@ + inventory.scope.words() + "\n"@ + plural_text(
        inventory.users@.len(),
        "user"@,
    ) + ", "@ + plural_text(cs.len(), "conversation"@) + ", "@ + plural_text(
        sum_of(cs, |f: Figures| f.messages),
        "message"@,
    ) + ", "@ + dec(inventory.emoji_count as nat) + " custom emoji\n\n"@ + group_text(
        cs,
        ChannelKind::Public,
    ) + group_text(cs, ChannelKind::Private) + group_text(cs, ChannelKind::GroupDm) + group_text(
        cs,
        ChannelKind::Dm,
    ) + notes_text(inventory.warnings.deep_view()) + privacy_text(inventory.scope)
}

fn push_line(out: &mut String, c: &ConversationSummary)
    ensures
        final(out)@ == old(out)@ + inventory_line(c.deep_view()),
{
    let ghost was = out@;
    let mut line = text::join3("  ", text::left_aligned(c.label().as_str(), 26).as_str(), " ");
    line.append(text::right_aligned(text::decimal(c.message_count as u64).as_str(), ' ', 7).as_str());
    line.append(" msgs ");
    line.append(
        text::right_aligned(text::decimal(c.thread_reply_count as u64).as_str(), ' ', 5).as_str(),
    );
    line.append(" thr ");
    line.append(
        text::right_aligned(text::decimal(c.reaction_count as u64).as_str(), ' ', 5).as_str(),
    );
    line.append(" rxn ");
    line.append(text::right_aligned(text::decimal(c.file_count as u64).as_str(), ' ', 4).as_str());
    line.append(" files  ");
    line.append(date_range(c, "empty").as_str());
    line.append(
        if c.is_archived {
            "  [archived]\n"
        } else {
            "\n"
        },
    );
    assert(line@ == inventory_line(c.deep_view()));
    out.append(line.as_str());
}

fn push_group(out: &mut String, inventory: &Inventory, kind: ChannelKind)
    ensures
        final(out)@ == old(out)@ + group_text(inventory.models(), kind),
{
    let ghost was = out@;
    let group = inventory.of_kind(kind);
    let ghost cs = group.deep_view();
    assert(cs.len() == group@.len());
    if group.len() == 0 {
        assert(out@ =~= was + group_text(inventory.models(), kind));
        return;
    }
    let head = text::join4(kind.as_str(), " (", text::decimal(group.len() as u64).as_str(), "):\n");
    let mut lines = String::new();
    let mut i: usize = 0;
    assert(lines@ =~= inventory_lines(cs.take(0)));
    while i < group.len()
        invariant
            i <= group@.len(),
            cs == group.deep_view(),
            lines@ == inventory_lines(cs.take(i as int)),
        decreases group@.len() - i,
    {
        assert(cs.take(i + 1).drop_last() =~= cs.take(i as int));
        assert(cs.take(i + 1).last() == group@[i as int].deep_view());
        push_line(&mut lines, group[i]);
        i += 1;
    }
    assert(cs.take(i as int) =~= cs);
    out.append(head.as_str());
    out.append(lines.as_str());
    out.append("\n");
    assert(out@ =~= was + group_text(inventory.models(), kind));
}

fn push_notes(out: &mut String, notes: &Vec<String>)
    ensures
        final(out)@ == old(out)@ + notes_text(notes.deep_view()),
{
    let ghost was = out@;
    let ghost all = notes.deep_view();
    assert(all.len() == notes@.len());
    if notes.len() == 0 {
        assert(out@ =~= was + notes_text(all));
        return;
    }
    let mut lines = String::new();
    let mut i: usize = 0;
    assert(lines@ =~= note_lines(all.take(0)));
    while i < notes.len()
        invariant
            i <= notes@.len(),
            all == notes.deep_view(),
            lines@ == note_lines(all.take(i as int)),
        decreases notes@.len() - i,
    {
        assert(all.take(i + 1).drop_last() =~= all.take(i as int));
        assert(all.take(i + 1).last() == notes@[i as int]@);
        lines.append("  - ");
        lines.append(notes[i].as_str());
        lines.append("\n");
        i += 1;
    }
    assert(all.take(i as int) =~= all);
    out.append("Notes:\n");
    out.append(lines.as_str());
    out.append("\n");
    assert(out@ =~= was + notes_text(all));
}

/// What `probe` shows: the scope, the totals, the conversations by kind, and what
/// the operator should know.
pub fn print_inventory(inventory: &Inventory) -> (r: String)
    requires
        sum_of(inventory.models(), |f: Figures| f.messages) <= usize::MAX,
    ensures
        r@ == inventory_report(*inventory),
{
    let mut out = text::join3("Export contains: ", inventory.scope.describe(), "\n");
    assert(inventory.models().len() == inventory.conversations@.len());
    out.append(fmt::plural(inventory.users.len(), "user").as_str());
    out.append(", ");
    out.append(fmt::plural(inventory.conversations.len(), "conversation").as_str());
    out.append(", ");
    out.append(fmt::plural(inventory.total_messages(), "message").as_str());
    out.append(", ");
    out.append(text::decimal(inventory.emoji_count as u64).as_str());
    out.append(" custom emoji\n\n");
    push_group(&mut out, inventory, ChannelKind::Public);
    push_group(&mut out, inventory, ChannelKind::Private);
    push_group(&mut out, inventory, ChannelKind::GroupDm);
    push_group(&mut out, inventory, ChannelKind::Dm);
    push_notes(&mut out, &inventory.warnings);
    let ghost before = out@;
    if inventory.scope != ExportScope::PublicOnly {
        out.append(
            "This export includes conversations people had a reasonable expectation of privacy about.\nNothing beyond public channels is selected by default.\n\n",
        );
    }
    assert(out@ =~= before + privacy_text(inventory.scope));
    out
}

// ── parse ────────────────────────────────────────────────────────────────────

/// How to go on with `parse`.
#[derive(Debug, Clone, Copy, PartialEq, Eq, Structural)]
pub enum Step {
    /// The flags say what to import.
    Resolve,
    /// Nothing was asked for: ask.
    Prompt,
    /// Nothing was asked for, and there is nobody to ask.
    Refuse,
}

/// How to go on, given what was asked for and whether there is anybody to ask.
pub open spec fn step_of(f: FilterModel, no_input: bool, on_terminal: bool) -> Step {
    if !f.asks_nothing() {
        Step::Resolve
    } else if no_input || !on_terminal {
        Step::Refuse
    } else {
        Step::Prompt
    }
}

/// Nothing asked for: prompt when we can, refuse when we cannot. Never fall back
/// to "everything".
pub fn next_step(filter: &Filter, no_input: bool, on_terminal: bool) -> (r: Step)
    ensures
        r == step_of(filter.deep_view(), no_input, on_terminal),
{
    if !filter.is_empty() {
        Step::Resolve
    } else if no_input || !on_terminal {
        Step::Refuse
    } else {
        Step::Prompt
    }
}

/// The conversations that were selected.
pub open spec fn chosen(cs: Seq<SummaryModel>, selected: Seq<Seq<char>>) -> Seq<SummaryModel> {
    cs.filter(|c: SummaryModel| selected.contains(c.slack_id))
}

/// Those of them that are not public channels.
pub open spec fn private_among(cs: Seq<SummaryModel>) -> Seq<SummaryModel> {
    cs.filter(|c: SummaryModel| c.kind !is Public)
}

/// The line on what was selected.
pub open spec fn selection_text(
    cs: Seq<SummaryModel>,
    selected: Seq<Seq<char>>,
    skipped: nat,
) -> Seq<char> {
    "Selected "@ + plural_text(chosen(cs, selected).len(), "conversation"@) + " ("@ + dec(
        private_among(chosen(cs, selected)).len(),
    ) + " private), skipping "@ + plural_text(skipped, "conversation"@) + "."@
}

/// One line on what was selected.
pub fn report_selection(inventory: &Inventory, resolved: &Resolved) -> (r: String)
    ensures
        r@ == selection_text(
            inventory.models(),
            resolved.selected.deep_view(),
            resolved.skipped@.len(),
        ),
{
    let ghost cs = inventory.models();
    let ghost ids = resolved.selected.deep_view();
    let ghost in_it = |c: SummaryModel| ids.contains(c.slack_id);
    let ghost hidden = |c: SummaryModel| c.kind !is Public;
    let mut selected: usize = 0;
    let mut private: usize = 0;
    let mut i: usize = 0;
    proof {
        reveal(Seq::filter);
        assert(cs.take(0).filter(in_it) =~= seq![]);
        assert(cs.take(0).filter(in_it).filter(hidden) =~= seq![]);
    }
    while i < inventory.conversations.len()
        invariant
            i <= inventory.conversations@.len(),
            cs == inventory.models(),
            ids == resolved.selected.deep_view(),
            in_it == (|c: SummaryModel| ids.contains(c.slack_id)),
            hidden == (|c: SummaryModel| c.kind !is Public),
            selected <= i,
            private <= i,
            selected == cs.take(i as int).filter(in_it).len(),
            private == cs.take(i as int).filter(in_it).filter(hidden).len(),
        decreases inventory.conversations@.len() - i,
    {
        let ghost upto = cs.take(i + 1);
        let ghost ahead = cs.take(i as int).filter(in_it);
        let c = &inventory.conversations[i];
        proof {
            assert(upto.drop_last() =~= cs.take(i as int));
            assert(upto.last() == c.deep_view());
            assert(upto.filter(in_it) == if in_it(upto.last()) {
                ahead.push(upto.last())
            } else {
                ahead
            }) by {
                reveal(Seq::filter);
            }
            let more = ahead.push(upto.last());
            assert(more.drop_last() =~= ahead);
            assert(more.filter(hidden) == if hidden(more.last()) {
                ahead.filter(hidden).push(more.last())
            } else {
                ahead.filter(hidden)
            }) by {
                reveal(Seq::filter);
            }
        }
        if text::holds(&resolved.selected, &c.slack_id) {
            selected += 1;
            if c.kind.is_private() {
                private += 1;
            }
        }
        i += 1;
    }
    assert(cs.take(i as int) =~= cs);
    let mut r = text::join5(
        "Selected ",
        fmt::plural(selected, "conversation").as_str(),
        " (",
        text::decimal(private as u64).as_str(),
        " private), skipping ",
    );
    r.append(fmt::plural(resolved.skipped.len(), "conversation").as_str());
    r.append(".");
    r
}

/// What `parse` says when it is done, line by line. Joins left out and records
/// that made no sense are mentioned only where there were any.
pub open spec fn counts_report(counts: CountsModel, out: Seq<char>) -> Seq<Seq<char>> {
    let target = if out == "-"@ {
        "stdout"@
    } else {
        out
    };
    seq![
        "Wrote "@ + target + ": "@ + dec(counts.messages) + " messages ("@ + dec(
            counts.thread_replies,
        ) + " thread replies), "@ + dec(counts.reactions) + " reactions, "@ + dec(counts.files)
            + " file references, "@ + dec(counts.users) + " users, "@ + dec(counts.emoji)
            + " custom emoji."@,
    ] + if counts.dropped_joins > 0 {
        seq![
            "Dropped "@ + dec(counts.dropped_joins)
                + " join/leave messages (--keep-joins to keep them)."@,
        ]
    } else {
        seq![]
    } + if counts.skipped_unparseable > 0 {
        seq![
            "WARNING: skipped "@ + dec(counts.skipped_unparseable)
                + " unparseable records — this is fidelity loss. Re-run with RUST_LOG=warn for detail."@,
        ]
    } else {
        seq![]
    }
}

/// What `parse` says when it is done. `-` stands for standard output.
pub fn print_counts(counts: &Counts, out: &str) -> (r: Vec<String>)
    ensures
        r.deep_view() == counts_report(counts.deep_view(), out@),
{
    let target = if text::same(out, "-") {
        "stdout"
    } else {
        out
    };
    let mut line = text::join4("Wrote ", target, ": ", text::decimal(counts.messages as u64).as_str());
    line.append(" messages (");
    line.append(text::decimal(counts.thread_replies as u64).as_str());
    line.append(" thread replies), ");
    line.append(text::decimal(counts.reactions as u64).as_str());
    line.append(" reactions, ");
    line.append(text::decimal(counts.files as u64).as_str());
    line.append(" file references, ");
    line.append(text::decimal(counts.users as u64).as_str());
    line.append(" users, ");
    line.append(text::decimal(counts.emoji as u64).as_str());
    line.append(" custom emoji.");
    let mut r: Vec<String> = Vec::new();
    r.push(line);
    if counts.dropped_joins > 0 {
        r.push(
            text::join3(
                "Dropped ",
                text::decimal(counts.dropped_joins as u64).as_str(),
                " join/leave messages (--keep-joins to keep them).",
            ),
        );
    }
    if counts.skipped_unparseable > 0 {
        r.push(
            text::join3(
                "WARNING: skipped ",
                text::decimal(counts.skipped_unparseable as u64).as_str(),
                " unparseable records — this is fidelity loss. Re-run with RUST_LOG=warn for detail.",
            ),
        );
    }
    assert(r.deep_view() =~= counts_report(counts.deep_view(), out@));
    r
}

// ── exit codes ───────────────────────────────────────────────────────────────

/// Whether a message is about the export, or an import made from one.
pub open spec fn about_export(message: Seq<char>) -> bool {
    ||| text::contains(message, "as a zip archive"@)
    ||| text::contains(message, "from zip"@)
    ||| text::contains(message, "opening export"@)
    ||| text::contains(message, "from the export"@)
    ||| text::contains(message, "reading users.json"@)
    ||| text::contains(message, "reading channels.json"@)
    ||| text::contains(message, "reading groups.json"@)
    ||| text::contains(message, "reading mpims.json"@)
    ||| text::contains(message, "reading dms.json"@)
    ||| text::contains(message, "malformed IR record"@)
    ||| text::contains(message, "contains no conversations"@)
    ||| text::contains(message, "contains no user records"@)
    ||| text::contains(message, "no invitable people in this import"@)
}

/// Whether a message is about the operator's flags or choices.
pub open spec fn about_flags(message: Seq<char>) -> bool {
    ||| text::contains(message, "no channels selected"@)
    ||| text::contains(message, "no channel in this export matches"@)
    ||| text::contains(message, "matched no conversations"@)
    ||| text::contains(message, "nothing selected"@)
    ||| text::contains(message, "no one in this import matches"@)
    ||| text::contains(message, "nobody selected"@)
}

/// Whether a message is about the export or the operator's flags.
pub open spec fn input_shaped(message: Seq<char>) -> bool {
    about_export(message) || about_flags(message)
}

/// The exit code of an error that says this.
pub open spec fn code_of(message: Seq<char>, is_io: bool) -> i32 {
    if input_shaped(message) || is_io {
        exit::INPUT
    } else {
        exit::OTHER
    }
}

/// The exit code of an error that is not one of this library's own. Anything
/// about the export or the operator's flags is input; everything else is `OTHER`.
/// The library's own errors know theirs: [`crate::error::Error::exit_code`].
pub fn classify(message: &str, is_io: bool) -> (r: i32)
    ensures
        r == code_of(message@, is_io),
{
    let export = text::has(message, "as a zip archive")
        || text::has(message, "from zip")
        || text::has(message, "opening export")
        || text::has(message, "from the export")
        || text::has(message, "reading users.json")
        || text::has(message, "reading channels.json")
        || text::has(message, "reading groups.json")
        || text::has(message, "reading mpims.json")
        || text::has(message, "reading dms.json")
        || text::has(message, "malformed IR record")
        || text::has(message, "contains no conversations")
        || text::has(message, "contains no user records")
        || text::has(message, "no invitable people in this import");
    let flags = text::has(message, "no channels selected")
        || text::has(message, "no channel in this export matches")
        || text::has(message, "matched no conversations")
        || text::has(message, "nothing selected")
        || text::has(message, "no one in this import matches")
        || text::has(message, "nobody selected");
    if export || flags || is_io {
        exit::INPUT
    } else {
        exit::OTHER
    }
}

proof fn lemma_still_contains(a: Seq<char>, s: Seq<char>, b: Seq<char>, part: Seq<char>)
    requires
        text::contains(s, part),
    ensures
        text::contains(a + s + b, part),
{
    let whole = a + s + b;
    let i = choose|i: int| text::stands_at(s, part, i);
    assert(whole.subrange(a.len() + i, a.len() + i + part.len()) =~= s.subrange(i, i + part.len()));
    assert(text::stands_at(whole, part, a.len() + i));
}

proof fn lemma_zip_reads()
    ensures
        text::contains(" as a zip archive"@, "as a zip archive"@),
{
    reveal_strlit(" as a zip archive");
    reveal_strlit("as a zip archive");
    assert(" as a zip archive"@.subrange(1, 17) =~= "as a zip archive"@);
    assert(text::stands_at(" as a zip archive"@, "as a zip archive"@, 1));
}

proof fn lemma_json_reads()
    ensures
        text::contains(" from the export"@, "from the export"@),
{
    reveal_strlit(" from the export");
    reveal_strlit("from the export");
    assert(" from the export"@.subrange(1, 16) =~= "from the export"@);
    assert(text::stands_at(" from the export"@, "from the export"@, 1));
}

proof fn lemma_malformed_reads()
    ensures
        text::contains(": malformed IR record"@, "malformed IR record"@),
{
    reveal_strlit(": malformed IR record");
    reveal_strlit("malformed IR record");
    assert(": malformed IR record"@.subrange(2, 21) =~= "malformed IR record"@);
    assert(text::stands_at(": malformed IR record"@, "malformed IR record"@, 2));
}

proof fn lemma_no_channels_reads()
    ensures
        text::contains("no channels selected: pass --all, --all-public, --channels <names>, or run without --no-input to choose interactively"@, "no channels selected"@),
{
    reveal_strlit("no channels selected: pass --all, --all-public, --channels <names>, or run without --no-input to choose interactively");
    reveal_strlit("no channels selected");
    assert("no channels selected: pass --all, --all-public, --channels <names>, or run without --no-input to choose interactively"@.subrange(0, 20) =~= "no channels selected"@);
    assert(text::stands_at("no channels selected: pass --all, --all-public, --channels <names>, or run without --no-input to choose interactively"@, "no channels selected"@, 0));
}

proof fn lemma_unknown_channel_reads()
    ensures
        text::contains("no channel in this export matches \""@, "no channel in this export matches"@),
{
    reveal_strlit("no channel in this export matches \"");
    reveal_strlit("no channel in this export matches");
    assert("no channel in this export matches \""@.subrange(0, 33) =~= "no channel in this export matches"@);
    assert(text::stands_at("no channel in this export matches \""@, "no channel in this export matches"@, 0));
}

proof fn lemma_unknown_excluded_reads()
    ensures
        text::contains("no channel in this export matches --exclude \""@, "no channel in this export matches"@),
{
    reveal_strlit("no channel in this export matches --exclude \"");
    reveal_strlit("no channel in this export matches");
    assert("no channel in this export matches --exclude \""@.subrange(0, 33) =~= "no channel in this export matches"@);
    assert(text::stands_at("no channel in this export matches --exclude \""@, "no channel in this export matches"@, 0));
}

proof fn lemma_none_matched_reads()
    ensures
        text::contains("the selection matched no conversations with messages to import"@, "matched no conversations"@),
{
    reveal_strlit("the selection matched no conversations with messages to import");
    reveal_strlit("matched no conversations");
    assert("the selection matched no conversations with messages to import"@.subrange(14, 38) =~= "matched no conversations"@);
    assert(text::stands_at("the selection matched no conversations with messages to import"@, "matched no conversations"@, 14));
}

proof fn lemma_no_conversations_reads()
    ensures
        text::contains("this export contains no conversations with messages"@, "contains no conversations"@),
{
    reveal_strlit("this export contains no conversations with messages");
    reveal_strlit("contains no conversations");
    assert("this export contains no conversations with messages"@.subrange(12, 37) =~= "contains no conversations"@);
    assert(text::stands_at("this export contains no conversations with messages"@, "contains no conversations"@, 12));
}

proof fn lemma_unknown_person_reads()
    ensures
        text::contains("no one in this import matches "@, "no one in this import matches"@),
{
    reveal_strlit("no one in this import matches ");
    reveal_strlit("no one in this import matches");
    assert("no one in this import matches "@.subrange(0, 29) =~= "no one in this import matches"@);
    assert(text::stands_at("no one in this import matches "@, "no one in this import matches"@, 0));
}

proof fn lemma_not_invitable_reads()
    ensures
        text::contains("no invitable people in this import (all bots or deactivated)"@, "no invitable people in this import"@),
{
    reveal_strlit("no invitable people in this import (all bots or deactivated)");
    reveal_strlit("no invitable people in this import");
    assert("no invitable people in this import (all bots or deactivated)"@.subrange(0, 34) =~= "no invitable people in this import"@);
    assert(text::stands_at("no invitable people in this import (all bots or deactivated)"@, "no invitable people in this import"@, 0));
}

proof fn lemma_no_users_reads()
    ensures
        text::contains(" contains no user records"@, "contains no user records"@),
{
    reveal_strlit(" contains no user records");
    reveal_strlit("contains no user records");
    assert(" contains no user records"@.subrange(1, 25) =~= "contains no user records"@);
    assert(text::stands_at(" contains no user records"@, "contains no user records"@, 1));
}

/// The library's own input errors read as input: what [`Failure::code`] says of
/// the variant, [`classify`] says of the text. (Those of reading and writing are
/// known by their cause.)
pub proof fn law_own_input_errors_read_as_input(f: Failure)
    requires
        f.code() == exit::INPUT,
        !(f is Io),
    ensures
        input_shaped(f.message()),
{
    let none = Seq::<char>::empty();
    match f {
        Failure::Zip { path } => {
            lemma_zip_reads();
            lemma_still_contains("reading "@ + path, " as a zip archive"@, none, "as a zip archive"@);
            assert(f.message() =~= ("reading "@ + path) + " as a zip archive"@ + (none));
        },
        Failure::Json { what } => {
            lemma_json_reads();
            lemma_still_contains("parsing "@ + what, " from the export"@, none, "from the export"@);
            assert(f.message() =~= ("parsing "@ + what) + " from the export"@ + (none));
        },
        Failure::MalformedIr { path, line } => {
            lemma_malformed_reads();
            lemma_still_contains(path + ":"@ + dec(line), ": malformed IR record"@, none, "malformed IR record"@);
            assert(f.message() =~= (path + ":"@ + dec(line)) + ": malformed IR record"@ + (none));
        },
        Failure::NoChannelsSelected => {
            lemma_no_channels_reads();
        },
        Failure::UnknownChannel { selector } => {
            lemma_unknown_channel_reads();
            lemma_still_contains(none, "no channel in this export matches \""@, selector + "\" — run `slack2buzz probe` to list what is available"@, "no channel in this export matches"@);
            assert(f.message() =~= none + "no channel in this export matches \""@ + (selector + "\" — run `slack2buzz probe` to list what is available"@));
        },
        Failure::UnknownExcludedChannel { selector } => {
            lemma_unknown_excluded_reads();
            lemma_still_contains(none, "no channel in this export matches --exclude \""@, selector + "\""@, "no channel in this export matches"@);
            assert(f.message() =~= none + "no channel in this export matches --exclude \""@ + (selector + "\""@));
        },
        Failure::NoConversationsMatched => {
            lemma_none_matched_reads();
        },
        Failure::NoConversations => {
            lemma_no_conversations_reads();
        },
        Failure::NothingSelected => {
            assert(f.message().subrange(0, f.message().len() as int) =~= f.message());
            assert(text::stands_at(f.message(), "nothing selected"@, 0));
        },
        Failure::UnknownPerson { flag, selector } => {
            lemma_unknown_person_reads();
            lemma_still_contains(none, "no one in this import matches "@, flag + " \""@ + selector + "\" — run `slack2buzz invite --list` to see the candidates"@, "no one in this import matches"@);
            assert(f.message() =~= none + "no one in this import matches "@ + (flag + " \""@ + selector + "\" — run `slack2buzz invite --list` to see the candidates"@));
        },
        Failure::NoInvitablePeople => {
            lemma_not_invitable_reads();
        },
        Failure::NobodySelected => {
            assert(f.message().subrange(0, f.message().len() as int) =~= f.message());
            assert(text::stands_at(f.message(), "nobody selected"@, 0));
        },
        Failure::NoUserRecords { path } => {
            lemma_no_users_reads();
            lemma_still_contains(path, " contains no user records"@, none, "contains no user records"@);
            assert(f.message() =~= (path) + " contains no user records"@ + (none));
        },
        _ => {},
    }
}

// ── invite ───────────────────────────────────────────────────────────────────

pub open spec fn recipient_lines(ps: Seq<PersonModel>) -> Seq<char>
    decreases ps.len(),
{
    if ps.len() == 0 {
        seq![]
    } else {
        recipient_lines(ps.drop_last()) + "  "@ + pad_right(ps.last().display_name, 24) + " @"@
            + ps.last().name + "\n"@
    }
}

pub open spec fn reason_lines(counts: Seq<(Seq<char>, usize)>) -> Seq<char>
    decreases counts.len(),
{
    if counts.len() == 0 {
        seq![]
    } else {
        reason_lines(counts.drop_last()) + pad_left(dec(counts.last().1 as nat), ' ', 6) + "  "@
            + counts.last().0 + "\n"@
    }
}

/// Who will be invited, line by line.
pub open spec fn invited_text(plan: PlanModel) -> Seq<char> {
    "Will invite "@ + dec(plan.recipients.len()) + " of "@ + plural_text(
        plan.recipients.len() + plan.excluded.len(),
        "person"@,
    ) + ":\n"@ + recipient_lines(plan.recipients)
}

fn push_recipients(out: &mut String, plan: &Plan)
    ensures
        final(out)@ == old(out)@ + recipient_lines(plan.deep_view().recipients),
{
    let ghost was = out@;
    let ghost ps = plan.deep_view().recipients;
    let mut i: usize = 0;
    assert(out@ =~= was + recipient_lines(ps.take(0)));
    while i < plan.recipients.len()
        invariant
            i <= plan.recipients@.len(),
            ps == plan.deep_view().recipients,
            out@ == was + recipient_lines(ps.take(i as int)),
        decreases plan.recipients@.len() - i,
    {
        let ghost before = out@;
        let p = &plan.recipients[i].person;
        assert(ps.take(i + 1).drop_last() =~= ps.take(i as int));
        assert(ps.take(i + 1).last() == p.deep_view());
        out.append("  ");
        out.append(text::left_aligned(p.display_name.as_str(), 24).as_str());
        out.append(" @");
        out.append(p.name.as_str());
        out.append("\n");
        assert(out@ =~= was + recipient_lines(ps.take(i + 1)));
        i += 1;
    }
    assert(ps.take(i as int) =~= ps);
}

/// Who will be invited, and how many are left out for each reason.
pub fn print_plan(plan: &Plan) -> (r: String)
    requires
        plan.recipients@.len() + plan.excluded@.len() <= usize::MAX,
    ensures
        exists|counts: Seq<(Seq<char>, usize)>|
            {
                &&& crate::tally::names_ascend(counts)
                &&& crate::tally::counts_of(counts) == crate::invite::reason_counts(
                    plan.deep_view().excluded,
                )
                &&& r@ == #[trigger] plan_report(plan.deep_view(), counts)
            },
{
    let tally = plan.exclusion_counts();
    let entries = tally.entries();
    let ghost all = entries.deep_view();
    let ghost model = plan.deep_view();
    let mut out = text::join5(
        "Will invite ",
        text::decimal(plan.recipients.len() as u64).as_str(),
        " of ",
        fmt::plural(plan.recipients.len() + plan.excluded.len(), "person").as_str(),
        ":\n",
    );
    push_recipients(&mut out, plan);
    assert(out@ =~= invited_text(model));
    if entries.len() > 0 {
        let mut lines = String::new();
        let mut i: usize = 0;
        assert(lines@ =~= reason_lines(all.take(0)));
        while i < entries.len()
            invariant
                i <= entries@.len(),
                all == entries.deep_view(),
                lines@ == reason_lines(all.take(i as int)),
            decreases entries@.len() - i,
        {
            assert(all.take(i + 1).drop_last() =~= all.take(i as int));
            assert(all.take(i + 1).last() == all[i as int]);
            lines.append(
                text::right_aligned(text::decimal(entries[i].1 as u64).as_str(), ' ', 6).as_str(),
            );
            lines.append("  ");
            lines.append(entries[i].0.as_str());
            lines.append("\n");
            i += 1;
        }
        assert(all.take(i as int) =~= all);
        out.append("\nNot inviting:\n");
        out.append(lines.as_str());
    }
    assert(out@ =~= plan_report(model, all));
    out
}

/// What `invite` shows of a plan, given how often each reason came up.
pub open spec fn plan_report(plan: PlanModel, counts: Seq<(Seq<char>, usize)>) -> Seq<char> {
    invited_text(plan) + if counts.len() == 0 {
        seq![]
    } else {
        "\nNot inviting:\n"@ + reason_lines(counts)
    }
}

} // verus!
