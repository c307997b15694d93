//! What the reports show.

use vstd::prelude::*;

use crate::fmt::{date_text, plural_text};
use crate::invite::people::PersonModel;
use crate::invite::PlanModel;
use crate::ir::{ChannelKind, CountsModel};
use crate::order::lemma_kept;
use crate::probe::{sum_of, ExportScope, Figures, Inventory, SummaryModel};
use crate::report::{
    code_of, counts_report, group_text, input_shaped, inventory_line, inventory_lines,
    inventory_report, note_lines, notes_text, plan_report, privacy_text, reason_lines,
    recipient_lines, selection_text, step_of,
};
use crate::selection::{range_text, FilterModel};
use crate::text::laws::{has_part, law_padding_fills_up};
use crate::text::{contains, dec, pad_left, pad_right, stands_at};

verus! {

// ── parts of texts ───────────────────────────────────────────────────────────

proof fn lemma_part(a: Seq<char>, part: Seq<char>, b: Seq<char>, s: Seq<char>)
    requires
        s =~= a + part + b,
    ensures
        has_part(s, part),
{
    assert(s == a + part + b);
}

proof fn lemma_part_of_part(s: Seq<char>, mid: Seq<char>, part: Seq<char>)
    requires
        has_part(s, mid),
        has_part(mid, part),
    ensures
        has_part(s, part),
{
    let (a, b) = choose|a: Seq<char>, b: Seq<char>| s == #[trigger] (a + mid + b);
    let (c, d) = choose|c: Seq<char>, d: Seq<char>| mid == #[trigger] (c + part + d);
    lemma_part(a + c, part, d + b, s);
}

proof fn lemma_grow(s: Seq<char>, part: Seq<char>, more: Seq<char>)
    requires
        has_part(s, part),
    ensures
        has_part(s + more, part),
{
    let (a, b) = choose|a: Seq<char>, b: Seq<char>| s == #[trigger] (a + part + b);
    lemma_part(a, part, b + more, s + more);
}

proof fn lemma_grow_twice(s: Seq<char>, part: Seq<char>, b: Seq<char>, c: Seq<char>)
    requires
        has_part(s, part),
    ensures
        has_part(s + b + c, part),
{
    lemma_grow(s, part, b);
    lemma_grow(s + b, part, c);
}

proof fn lemma_prefix_grows(s: Seq<char>, part: Seq<char>, more: Seq<char>)
    requires
        part.is_prefix_of(s),
    ensures
        part.is_prefix_of(s + more),
{
    assert((s + more).subrange(0, part.len() as int) =~= s.subrange(0, part.len() as int));
}

proof fn lemma_last_two(t: Seq<char>, p: Seq<char>, q: Seq<char>)
    ensures
        has_part(t + p + q, p + q),
{
    lemma_part(t, p + q, seq![], t + p + q);
}

proof fn lemma_joined(t: Seq<char>, a: Seq<char>, b: Seq<char>, c: Seq<char>, d: Seq<char>)
    ensures
        t + a + b + c + d == t + (a + b + c + d),
{
    assert(t + a + b + c + d =~= t + (a + b + c + d));
}

/// The last three of some texts in a row, and where the first of them ends or the
/// last begins with a text of its own.
proof fn lemma_last_three(
    t: Seq<char>,
    p: Seq<char>,
    q: Seq<char>,
    r: Seq<char>,
    end: Seq<char>,
    start: Seq<char>,
)
    requires
        end.is_suffix_of(p),
        start.is_prefix_of(r),
    ensures
        has_part(t + p + q + r, end + q + start),
{
    let k = p.len() - end.len();
    assert(p =~= p.take(k) + end);
    assert(r =~= start + r.skip(start.len() as int));
    lemma_part(t + p.take(k), end + q + start, r.skip(start.len() as int), t + p + q + r);
}

/// A figure that is aligned to the right stands behind a blank and ahead of its
/// unit, unbroken.
proof fn lemma_figure(a: Seq<char>, n: nat, width: nat, unit: Seq<char>)
    requires
        a.len() > 0,
        a.last() == ' ',
    ensures
        has_part(a + pad_left(dec(n), ' ', width) + unit, " "@ + dec(n) + unit),
{
    reveal_strlit(" ");
    law_padding_fills_up(dec(n), ' ', width);
    let d = dec(n);
    let s = a + pad_left(d, ' ', width) + unit;
    if d.len() < width {
        let k = (width - d.len()) as nat;
        let z = Seq::new(k, |i: int| ' ');
        assert(z =~= Seq::new((k - 1) as nat, |i: int| ' ') + " "@);
        lemma_part(a + Seq::new((k - 1) as nat, |i: int| ' '), " "@ + d + unit, seq![], s);
    } else {
        assert(a =~= a.drop_last() + " "@);
        lemma_part(a.drop_last(), " "@ + d + unit, seq![], s);
    }
}

proof fn lemma_padded_name(t: Seq<char>, name: Seq<char>, width: nat)
    ensures
        (t + name).is_prefix_of(t + pad_right(name, width)),
        has_part(t + pad_right(name, width), t + name),
{
    law_padding_fills_up(name, ' ', width);
    let p = pad_right(name, width);
    let n = name.len() as int;
    assert(p =~= name + p.skip(n)) by {
        assert(p.take(n) =~= name);
    }
    assert(t + p =~= (t + name) + p.skip(n));
    lemma_part(seq![], t + name, p.skip(n), t + p);
}

/// A text stands in another where it can be found at some place of it.
pub proof fn law_finding_a_part(s: Seq<char>, part: Seq<char>)
    ensures
        contains(s, part) <==> has_part(s, part),
{
    if contains(s, part) {
        let i = choose|i: int| stands_at(s, part, i);
        lemma_part(s.take(i), part, s.skip(i + part.len()), s);
    }
    if has_part(s, part) {
        let (a, b) = choose|a: Seq<char>, b: Seq<char>| s == #[trigger] (a + part + b);
        assert(s.subrange(a.len() as int, a.len() as int + part.len()) =~= part);
        assert(stands_at(s, part, a.len() as int));
    }
}

// ── inventory ────────────────────────────────────────────────────────────────

/// A conversation's line shows its name, how many messages, replies, reactions and
/// files it has, each ahead of what it counts, and from when to when; an archived
/// one is marked at the end, and differs in nothing else.
pub proof fn law_lines_show_the_figures(c: SummaryModel)
    ensures
        ("  "@ + c.label()).is_prefix_of(inventory_line(c)),
        has_part(inventory_line(c), " "@ + dec(c.figures.messages) + " msgs "@),
        has_part(inventory_line(c), " "@ + dec(c.figures.replies) + " thr "@),
        has_part(inventory_line(c), " "@ + dec(c.figures.reactions) + " rxn "@),
        has_part(inventory_line(c), " "@ + dec(c.figures.files) + " files  "@),
        c.figures.first is Some && c.figures.last is Some ==> has_part(
            inventory_line(c),
            "  "@ + date_text(c.figures.first->0 as int) + " → "@ + date_text(
                c.figures.last->0 as int,
            ),
        ),
        c.figures.first is None || c.figures.last is None ==> has_part(
            inventory_line(c),
            "  empty"@,
        ),
        inventory_line(SummaryModel { is_archived: true, ..c }) == inventory_line(
            SummaryModel { is_archived: false, ..c },
        ).drop_last() + "  [archived]\n"@,
        inventory_line(SummaryModel { is_archived: false, ..c }).last() == '\n',
{
    let f = c.figures;
    let end = if c.is_archived {
        "  [archived]\n"@
    } else {
        "\n"@
    };
    let range = range_text(c, "empty"@);
    let padded = pad_right(c.label(), 26);
    let (m, t, r, x) = (
        pad_left(dec(f.messages), ' ', 7),
        pad_left(dec(f.replies), ' ', 5),
        pad_left(dec(f.reactions), ' ', 5),
        pad_left(dec(f.files), ' ', 4),
    );
    let (um, ut, ur, ux) = (" msgs "@, " thr "@, " rxn "@, " files  "@);
    lemma_line_units();
    let t0 = "  "@;
    let t1 = t0 + padded;
    let t2 = t1 + " "@;
    let t3 = t2 + m;
    let t4 = t3 + um;
    let t5 = t4 + t;
    let t6 = t5 + ut;
    let t7 = t6 + r;
    let t8 = t7 + ur;
    let t9 = t8 + x;
    let t10 = t9 + ux;
    let t11 = t10 + range;
    let t12 = t11 + end;
    assert(inventory_line(c) == t12);
    let name = "  "@ + c.label();
    lemma_padded_name("  "@, c.label(), 26);
    lemma_prefix_grows(t1, name, " "@);
    lemma_prefix_grows(t2, name, m);
    lemma_prefix_grows(t3, name, um);
    lemma_prefix_grows(t4, name, t);
    lemma_prefix_grows(t5, name, ut);
    lemma_prefix_grows(t6, name, r);
    lemma_prefix_grows(t7, name, ur);
    lemma_prefix_grows(t8, name, x);
    lemma_prefix_grows(t9, name, ux);
    lemma_prefix_grows(t10, name, range);
    lemma_prefix_grows(t11, name, end);
    let n2 = " "@ + dec(f.messages) + um;
    lemma_figure(t2, f.messages, 7, um);
    lemma_grow_twice(t4, n2, t, ut);
    lemma_grow_twice(t6, n2, r, ur);
    lemma_grow_twice(t8, n2, x, ux);
    lemma_grow_twice(t10, n2, range, end);
    let n4 = " "@ + dec(f.replies) + ut;
    lemma_figure(t4, f.replies, 5, ut);
    lemma_grow_twice(t6, n4, r, ur);
    lemma_grow_twice(t8, n4, x, ux);
    lemma_grow_twice(t10, n4, range, end);
    let n6 = " "@ + dec(f.reactions) + ur;
    lemma_figure(t6, f.reactions, 5, ur);
    lemma_grow_twice(t8, n6, x, ux);
    lemma_grow_twice(t10, n6, range, end);
    let n8 = " "@ + dec(f.files) + ux;
    lemma_figure(t8, f.files, 4, ux);
    lemma_grow_twice(t10, n8, range, end);
    let shown = "  "@ + range;
    lemma_part(t9 + ux.take(6), shown, seq![], t11);
    lemma_grow(t11, shown, end);
    if f.first is Some && f.last is Some {
        let dates = "  "@ + date_text(f.first->0 as int) + " → "@ + date_text(f.last->0 as int);
        assert(shown =~= dates);
    } else {
        assert(shown =~= "  empty"@);
    }
    let yes = inventory_line(SummaryModel { is_archived: true, ..c });
    let no = inventory_line(SummaryModel { is_archived: false, ..c });
    assert(no == t11 + "\n"@);
    assert(yes == t11 + "  [archived]\n"@);
    assert(no.drop_last() =~= t11);
    assert(no.last() == '\n');
}

proof fn lemma_line_units()
    ensures
        " "@.len() == 1 && " "@[0] == ' ',
        " msgs "@.len() == 6 && " msgs "@[5] == ' ',
        " thr "@.len() == 5 && " thr "@[4] == ' ',
        " rxn "@.len() == 5 && " rxn "@[4] == ' ',
        " files  "@.len() == 8 && " files  "@ == " files  "@.take(6) + "  "@,
        "\n"@ == seq!['\n'],
        "  empty"@ == "  "@ + "empty"@,
{
    reveal_strlit(" ");
    reveal_strlit("  ");
    reveal_strlit(" msgs ");
    reveal_strlit(" thr ");
    reveal_strlit(" rxn ");
    reveal_strlit(" files  ");
    reveal_strlit("\n");
    reveal_strlit("empty");
    reveal_strlit("  empty");
}

proof fn lemma_lines(cs: Seq<SummaryModel>, i: int)
    requires
        0 <= i < cs.len(),
    ensures
        has_part(inventory_lines(cs), inventory_line(cs[i])),
    decreases cs.len(),
{
    let front = cs.drop_last();
    if i < front.len() {
        lemma_lines(front, i);
        lemma_part(
            seq![],
            inventory_lines(front),
            inventory_line(cs.last()),
            inventory_lines(cs),
        );
        lemma_part_of_part(inventory_lines(cs), inventory_lines(front), inventory_line(cs[i]));
    } else {
        lemma_part(
            inventory_lines(front),
            inventory_line(cs.last()),
            seq![],
            inventory_lines(cs),
        );
    }
}

/// Conversations are grouped by kind, under a heading with the kind's word and how
/// many there are of it. Each has its line in the group of its kind; a kind that
/// there is none of has no group.
pub proof fn law_groups_are_of_one_kind(cs: Seq<SummaryModel>, kind: ChannelKind, i: int)
    requires
        0 <= i < cs.len(),
    ensures
        cs[i].kind == kind ==> has_part(group_text(cs, kind), inventory_line(cs[i])),
        cs[i].kind == kind ==> (kind.word() + " ("@ + dec(
            cs.filter(|c: SummaryModel| c.kind == kind).len(),
        ) + "):\n"@).is_prefix_of(group_text(cs, kind)),
        (forall|j: int| 0 <= j < cs.len() ==> (#[trigger] cs[j]).kind != kind) ==> group_text(
            cs,
            kind,
        ).len() == 0,
{
    let of = |c: SummaryModel| c.kind == kind;
    let group = cs.filter(of);
    lemma_kept(cs, of);
    if cs[i].kind == kind {
        assert(of(cs[i]));
        assert(group.contains(cs[i]));
        let k = group.index_of(cs[i]);
        let head = kind.word() + " ("@ + dec(group.len()) + "):\n"@;
        let s = group_text(cs, kind);
        lemma_lines(group, k);
        lemma_part(head, inventory_lines(group), "\n"@, s);
        lemma_part_of_part(s, inventory_lines(group), inventory_line(cs[i]));
        assert(s =~= head + (inventory_lines(group) + "\n"@));
    }
    if forall|j: int| 0 <= j < cs.len() ==> (#[trigger] cs[j]).kind != kind {
        if group.len() > 0 {
            assert(of(group[0]));
            assert(cs.contains(group[0]));
            let j = cs.index_of(group[0]);
            assert(cs[j].kind != kind);
        }
    }
}

/// The whole report: what the export holds and how much of it, then the groups,
/// public channels first, then private ones, then group DMs, then DMs, then the
/// notes; and a word on privacy unless there is nothing but public channels.
pub proof fn law_the_report_is_in_order(inventory: Inventory)
    ensures
        ({
            let cs = inventory.models();
            let groups = group_text(cs, ChannelKind::Public) + group_text(cs, ChannelKind::Private)
                + group_text(cs, ChannelKind::GroupDm) + group_text(cs, ChannelKind::Dm);
            let s = inventory_report(inventory);
            &&& ("Export contains: "@ + inventory.scope.words() + "\n"@).is_prefix_of(s)
            &&& has_part(s, plural_text(inventory.users@.len(), "user"@) + ", "@)
            &&& has_part(s, ", "@ + plural_text(cs.len(), "conversation"@) + ", "@)
            &&& has_part(
                s,
                ", "@ + plural_text(sum_of(cs, |f: Figures| f.messages), "message"@) + ", "@,
            )
            &&& has_part(s, ", "@ + dec(inventory.emoji_count as nat) + " custom emoji\n\n"@ + groups)
            &&& (groups + notes_text(inventory.warnings.deep_view()) + privacy_text(
                inventory.scope,
            )).is_suffix_of(s)
            &&& privacy_text(inventory.scope).len() == 0 <==> inventory.scope is PublicOnly
        }),
{
    let cs = inventory.models();
    let (a, b, c, d) = (
        group_text(cs, ChannelKind::Public),
        group_text(cs, ChannelKind::Private),
        group_text(cs, ChannelKind::GroupDm),
        group_text(cs, ChannelKind::Dm),
    );
    let notes = notes_text(inventory.warnings.deep_view());
    let privacy = privacy_text(inventory.scope);
    let users = plural_text(inventory.users@.len(), "user"@);
    let convs = plural_text(cs.len(), "conversation"@);
    let msgs = plural_text(sum_of(cs, |f: Figures| f.messages), "message"@);
    let emoji = dec(inventory.emoji_count as nat);
    let unit = " custom emoji\n\n"@;
    let t0 = "Export contains: "@;
    let t1 = t0 + inventory.scope.words();
    let t2 = t1 + "\n"@;
    let t3 = t2 + users;
    let t4 = t3 + ", "@;
    let t5 = t4 + convs;
    let t6 = t5 + ", "@;
    let t7 = t6 + msgs;
    let t8 = t7 + ", "@;
    let t9 = t8 + emoji;
    let t10 = t9 + unit;
    let t11 = t10 + a;
    let t12 = t11 + b;
    let t13 = t12 + c;
    let t14 = t13 + d;
    let t15 = t14 + notes;
    let t16 = t15 + privacy;
    assert(inventory_report(inventory) == t16);
    lemma_own_ends(", "@);
    let head = t2;
    lemma_own_ends(head);
    lemma_prefix_grows(t2, head, users);
    lemma_prefix_grows(t3, head, ", "@);
    lemma_prefix_grows(t4, head, convs);
    lemma_prefix_grows(t5, head, ", "@);
    lemma_prefix_grows(t6, head, msgs);
    lemma_prefix_grows(t7, head, ", "@);
    lemma_prefix_grows(t8, head, emoji);
    lemma_prefix_grows(t9, head, unit);
    lemma_prefix_grows(t10, head, a);
    lemma_prefix_grows(t11, head, b);
    lemma_prefix_grows(t12, head, c);
    lemma_prefix_grows(t13, head, d);
    lemma_prefix_grows(t14, head, notes);
    lemma_prefix_grows(t15, head, privacy);
    let n4 = users + ", "@;
    lemma_last_two(t2, users, ", "@);
    lemma_grow_twice(t4, n4, convs, ", "@);
    lemma_grow_twice(t6, n4, msgs, ", "@);
    lemma_grow_twice(t8, n4, emoji, unit);
    lemma_grow_twice(t10, n4, a, b);
    lemma_grow_twice(t12, n4, c, d);
    lemma_grow_twice(t14, n4, notes, privacy);
    let n6 = ", "@ + convs + ", "@;
    lemma_last_three(t3, ", "@, convs, ", "@, ", "@, ", "@);
    lemma_grow_twice(t6, n6, msgs, ", "@);
    lemma_grow_twice(t8, n6, emoji, unit);
    lemma_grow_twice(t10, n6, a, b);
    lemma_grow_twice(t12, n6, c, d);
    lemma_grow_twice(t14, n6, notes, privacy);
    let n8 = ", "@ + msgs + ", "@;
    lemma_last_three(t5, ", "@, msgs, ", "@, ", "@, ", "@);
    lemma_grow_twice(t8, n8, emoji, unit);
    lemma_grow_twice(t10, n8, a, b);
    lemma_grow_twice(t12, n8, c, d);
    lemma_grow_twice(t14, n8, notes, privacy);
    let groups = a + b + c + d;
    let n14 = ", "@ + emoji + unit + groups;
    lemma_joined(t10, a, b, c, d);
    lemma_joined(t7, ", "@, emoji, unit, groups);
    lemma_last_two(t7, ", "@ + emoji + unit + groups, seq![]);
    assert(n14 + seq![] =~= n14);
    assert(t7 + n14 + seq![] =~= t7 + n14);
    lemma_grow_twice(t14, n14, notes, privacy);
    lemma_joined(t10, groups, notes, privacy, seq![]);
    assert(groups + notes + privacy + seq![] =~= groups + notes + privacy);
    assert(t10 + groups + notes + privacy + seq![] =~= t16);
    lemma_suffix(t10, groups + notes + privacy);
    assert(privacy_text(ExportScope::WithDms).len() > 0) by {
        reveal_strlit(
            "This export includes conversations people had a reasonable expectation of privacy about.\nNothing beyond public channels is selected by default.\n\n",
        );
    }
}

proof fn lemma_own_ends(s: Seq<char>)
    ensures
        s.is_prefix_of(s),
        s.is_suffix_of(s),
{
    assert(s.subrange(0, s.len() as int) =~= s);
}

proof fn lemma_suffix(a: Seq<char>, b: Seq<char>)
    ensures
        b.is_suffix_of(a + b),
{
    assert((a + b).subrange(a.len() as int, (a + b).len() as int) =~= b);
}

/// Every note has its line among the notes; without any, there is no such part.
pub proof fn law_notes_are_listed(notes: Seq<Seq<char>>, i: int)
    requires
        0 <= i < notes.len(),
    ensures
        "Notes:\n"@.is_prefix_of(notes_text(notes)),
        has_part(notes_text(notes), "  - "@ + notes[i] + "\n"@),
        notes_text(seq![]).len() == 0,
{
    lemma_note(notes, i);
    let s = notes_text(notes);
    lemma_part("Notes:\n"@, note_lines(notes), "\n"@, s);
    lemma_part_of_part(s, note_lines(notes), "  - "@ + notes[i] + "\n"@);
    assert(s =~= "Notes:\n"@ + (note_lines(notes) + "\n"@));
}

proof fn lemma_note(notes: Seq<Seq<char>>, i: int)
    requires
        0 <= i < notes.len(),
    ensures
        has_part(note_lines(notes), "  - "@ + notes[i] + "\n"@),
    decreases notes.len(),
{
    let front = notes.drop_last();
    let line = "  - "@ + notes.last() + "\n"@;
    if i < front.len() {
        lemma_note(front, i);
        lemma_part(seq![], note_lines(front), line, note_lines(notes));
        lemma_part_of_part(note_lines(notes), note_lines(front), "  - "@ + notes[i] + "\n"@);
    } else {
        lemma_part(note_lines(front), line, seq![], note_lines(notes));
    }
}

// ── parse ────────────────────────────────────────────────────────────────────

/// Where a flag or a name says what to import, it is gone by. Where none does,
/// somebody is asked, but only at a terminal and where input is wanted; else it is
/// refused.
pub proof fn law_nothing_is_imported_unasked(f: FilterModel, no_input: bool, on_terminal: bool)
    ensures
        ({
            let asked = f.all || f.all_public || f.all_private || f.all_dms || f.included.len() > 0;
            let step = step_of(f, no_input, on_terminal);
            &&& step is Resolve <==> asked
            &&& step is Prompt <==> !asked && on_terminal && !no_input
            &&& step is Refuse <==> !asked && (no_input || !on_terminal)
        }),
{
}

/// The line on a selection: how many were selected, how many of them are not public
/// channels, and how many were skipped.
pub proof fn law_selections_are_summed_up(
    cs: Seq<SummaryModel>,
    selected: Seq<Seq<char>>,
    skipped: nat,
)
    ensures
        ({
            let s = selection_text(cs, selected, skipped);
            let n = cs.filter(|c: SummaryModel| selected.contains(c.slack_id)).len();
            let hidden = cs.filter(|c: SummaryModel| selected.contains(c.slack_id)).filter(
                |c: SummaryModel| c.kind is Private || c.kind is Dm || c.kind is GroupDm,
            ).len();
            &&& ("Selected "@ + plural_text(n, "conversation"@) + " ("@ + dec(hidden)
                + " private)"@).is_prefix_of(s)
            &&& ("skipping "@ + plural_text(skipped, "conversation"@) + "."@).is_suffix_of(s)
        }),
{
    let s = selection_text(cs, selected, skipped);
    let picked = cs.filter(|c: SummaryModel| selected.contains(c.slack_id));
    let f = |c: SummaryModel| c.kind !is Public;
    let g = |c: SummaryModel| c.kind is Private || c.kind is Dm || c.kind is GroupDm;
    assert(f =~= g);
    let front = "Selected "@ + plural_text(picked.len(), "conversation"@) + " ("@ + dec(
        picked.filter(g).len(),
    );
    let (mid, back) = (" private), skipping "@, plural_text(skipped, "conversation"@) + "."@);
    reveal_strlit(" private), skipping ");
    reveal_strlit(" private)");
    reveal_strlit("skipping ");
    assert(mid =~= " private)"@ + (", "@ + "skipping "@)) by {
        reveal_strlit(", ");
    }
    assert(s =~= (front + " private)"@) + (", "@ + "skipping "@ + back));
    assert(s =~= (front + " private)"@ + ", "@) + ("skipping "@ + back));
    assert("skipping "@ + back =~= "skipping "@ + plural_text(skipped, "conversation"@) + "."@);
}

/// What was written is summed up: where to, and how many messages, replies,
/// reactions, files, users and emoji, each ahead of what it counts. What was dropped
/// and what was skipped has a line of its own, and only where there was any.
pub proof fn law_counts_are_summed_up(counts: CountsModel, out: Seq<char>)
    ensures
        ({
            let lines = counts_report(counts, out);
            let s = lines[0];
            let dropped = counts.dropped_joins > 0;
            let skipped = counts.skipped_unparseable > 0;
            &&& out == "-"@ ==> "Wrote stdout: "@.is_prefix_of(s)
            &&& out != "-"@ ==> ("Wrote "@ + out + ": "@).is_prefix_of(s)
            &&& has_part(s, ": "@ + dec(counts.messages) + " messages ("@)
            &&& has_part(s, "("@ + dec(counts.thread_replies) + " thread replies), "@)
            &&& has_part(s, ", "@ + dec(counts.reactions) + " reactions, "@)
            &&& has_part(s, ", "@ + dec(counts.files) + " file references, "@)
            &&& has_part(s, ", "@ + dec(counts.users) + " users, "@)
            &&& has_part(s, ", "@ + dec(counts.emoji) + " custom emoji."@)
            &&& lines.len() == 1 + (if dropped {
                1int
            } else {
                0
            }) + (if skipped {
                1int
            } else {
                0
            })
            &&& dropped ==> ("Dropped "@ + dec(counts.dropped_joins) + " "@).is_prefix_of(lines[1])
            &&& skipped ==> ("WARNING: skipped "@ + dec(counts.skipped_unparseable)
                + " "@).is_prefix_of(lines.last())
        }),
{
    let lines = counts_report(counts, out);
    let target = if out == "-"@ {
        "stdout"@
    } else {
        out
    };
    let (m, t, r, f, u, e) = (
        dec(counts.messages),
        dec(counts.thread_replies),
        dec(counts.reactions),
        dec(counts.files),
        dec(counts.users),
        dec(counts.emoji),
    );
    let (um, ut, ur, uf, uu, ue) = (
        " messages ("@,
        " thread replies), "@,
        " reactions, "@,
        " file references, "@,
        " users, "@,
        " custom emoji."@,
    );
    lemma_count_words();
    let t0 = "Wrote "@;
    let t1 = t0 + target;
    let t2 = t1 + ": "@;
    let t3 = t2 + m;
    let t4 = t3 + um;
    let t5 = t4 + t;
    let t6 = t5 + ut;
    let t7 = t6 + r;
    let t8 = t7 + ur;
    let t9 = t8 + f;
    let t10 = t9 + uf;
    let t11 = t10 + u;
    let t12 = t11 + uu;
    let t13 = t12 + e;
    let t14 = t13 + ue;
    assert(lines[0] == t14);
    let to = t2;
    lemma_prefix_grows(t2, to, m);
    lemma_prefix_grows(t3, to, um);
    lemma_prefix_grows(t4, to, t);
    lemma_prefix_grows(t5, to, ut);
    lemma_prefix_grows(t6, to, r);
    lemma_prefix_grows(t7, to, ur);
    lemma_prefix_grows(t8, to, f);
    lemma_prefix_grows(t9, to, uf);
    lemma_prefix_grows(t10, to, u);
    lemma_prefix_grows(t11, to, uu);
    lemma_prefix_grows(t12, to, e);
    lemma_prefix_grows(t13, to, ue);
    let n4 = ": "@ + m + um;
    lemma_last_three(t1, ": "@, m, um, ": "@, um);
    lemma_grow_twice(t4, n4, t, ut);
    lemma_grow_twice(t6, n4, r, ur);
    lemma_grow_twice(t8, n4, f, uf);
    lemma_grow_twice(t10, n4, u, uu);
    lemma_grow_twice(t12, n4, e, ue);
    let n6 = "("@ + t + ut;
    lemma_last_three(t3, um, t, ut, "("@, ut);
    lemma_grow_twice(t6, n6, r, ur);
    lemma_grow_twice(t8, n6, f, uf);
    lemma_grow_twice(t10, n6, u, uu);
    lemma_grow_twice(t12, n6, e, ue);
    let n8 = ", "@ + r + ur;
    lemma_last_three(t5, ut, r, ur, ", "@, ur);
    lemma_grow_twice(t8, n8, f, uf);
    lemma_grow_twice(t10, n8, u, uu);
    lemma_grow_twice(t12, n8, e, ue);
    let n10 = ", "@ + f + uf;
    lemma_last_three(t7, ur, f, uf, ", "@, uf);
    lemma_grow_twice(t10, n10, u, uu);
    lemma_grow_twice(t12, n10, e, ue);
    let n12 = ", "@ + u + uu;
    lemma_last_three(t9, uf, u, uu, ", "@, uu);
    lemma_grow_twice(t12, n12, e, ue);
    let n14 = ", "@ + e + ue;
    lemma_last_three(t11, uu, e, ue, ", "@, ue);
    if counts.dropped_joins > 0 {
        let k = " join/leave messages (--keep-joins to keep them)."@;
        let n = dec(counts.dropped_joins);
        assert(lines[1] == "Dropped "@ + n + k);
        assert(lines[1] =~= ("Dropped "@ + n + " "@) + k.skip(1));
        lemma_prefix_grows("Dropped "@ + n + " "@, "Dropped "@ + n + " "@, k.skip(1));
    }
    if counts.skipped_unparseable > 0 {
        let k = " unparseable records — this is fidelity loss. Re-run with RUST_LOG=warn for detail."@;
        let n = dec(counts.skipped_unparseable);
        let front = "WARNING: skipped "@ + n + " "@;
        assert(lines.last() == "WARNING: skipped "@ + n + k);
        assert(lines.last() =~= front + k.skip(1));
        lemma_prefix_grows(front, front, k.skip(1));
    }
}

proof fn lemma_count_words()
    ensures
        "Wrote stdout: "@ == "Wrote "@ + "stdout"@ + ": "@,
        "("@.is_suffix_of(" messages ("@),
        ", "@.is_suffix_of(" thread replies), "@),
        ", "@.is_suffix_of(" reactions, "@),
        ", "@.is_suffix_of(" file references, "@),
        ", "@.is_suffix_of(" users, "@),
        ": "@.is_suffix_of(": "@),
        " join/leave messages (--keep-joins to keep them)."@ == " "@
            + " join/leave messages (--keep-joins to keep them)."@.skip(1),
        " unparseable records — this is fidelity loss. Re-run with RUST_LOG=warn for detail."@
            == " "@
            + " unparseable records — this is fidelity loss. Re-run with RUST_LOG=warn for detail."@.skip(
            1,
        ),
{
    reveal_strlit("Wrote stdout: ");
    reveal_strlit("Wrote ");
    reveal_strlit("stdout");
    reveal_strlit(": ");
    reveal_strlit(" messages (");
    reveal_strlit("(");
    reveal_strlit(" thread replies), ");
    reveal_strlit(", ");
    reveal_strlit(" reactions, ");
    reveal_strlit(" file references, ");
    reveal_strlit(" users, ");
    reveal_strlit(" ");
    reveal_strlit(" join/leave messages (--keep-joins to keep them).");
    reveal_strlit(
        " unparseable records — this is fidelity loss. Re-run with RUST_LOG=warn for detail.",
    );
}

/// What an error says where it is about the export, the import or the flags.
pub open spec fn input_words() -> Seq<Seq<char>> {
    seq![
        "as a zip archive"@,
        "from zip"@,
        "opening export"@,
        "from the export"@,
        "reading users.json"@,
        "reading channels.json"@,
        "reading groups.json"@,
        "reading mpims.json"@,
        "reading dms.json"@,
        "malformed IR record"@,
        "contains no conversations"@,
        "contains no user records"@,
        "no invitable people in this import"@,
        "no channels selected"@,
        "no channel in this export matches"@,
        "matched no conversations"@,
        "nothing selected"@,
        "no one in this import matches"@,
        "nobody selected"@,
    ]
}

/// An error ends a run as one of input where it came from reading, or where any of
/// the words that say so stand in it; else as one of another kind.
pub proof fn law_errors_are_told_by_their_words(message: Seq<char>, is_io: bool)
    ensures
        code_of(message, is_io) == 1 || code_of(message, is_io) == 4,
        code_of(message, is_io) == 1 <==> is_io || exists|i: int|
            0 <= i < input_words().len() && has_part(message, #[trigger] input_words()[i]),
{
    let ws = input_words();
    assert forall|i: int| 0 <= i < ws.len() implies (contains(message, #[trigger] ws[i])
        <==> has_part(message, ws[i])) by {
        law_finding_a_part(message, ws[i]);
    }
    if exists|i: int| 0 <= i < ws.len() && has_part(message, #[trigger] ws[i]) {
        let i = choose|i: int| 0 <= i < ws.len() && has_part(message, #[trigger] ws[i]);
        assert(contains(message, ws[i]));
        assert(input_shaped(message));
    }
    if input_shaped(message) {
        assert(contains(message, ws[0]) || contains(message, ws[1]) || contains(message, ws[2])
            || contains(message, ws[3]) || contains(message, ws[4]) || contains(message, ws[5])
            || contains(message, ws[6]) || contains(message, ws[7]) || contains(message, ws[8])
            || contains(message, ws[9]) || contains(message, ws[10]) || contains(message, ws[11])
            || contains(message, ws[12]) || contains(message, ws[13]) || contains(message, ws[14])
            || contains(message, ws[15]) || contains(message, ws[16]) || contains(message, ws[17])
            || contains(message, ws[18]));
    }
}

// ── invite ───────────────────────────────────────────────────────────────────

proof fn lemma_recipient(ps: Seq<PersonModel>, i: int)
    requires
        0 <= i < ps.len(),
    ensures
        has_part(recipient_lines(ps), " @"@ + ps[i].name + "\n"@),
        has_part(recipient_lines(ps), "  "@ + ps[i].display_name),
    decreases ps.len(),
{
    let front = ps.drop_last();
    let s = recipient_lines(ps);
    let p = ps.last();
    let padded = pad_right(p.display_name, 24);
    if i < front.len() {
        lemma_recipient(front, i);
        lemma_part(
            seq![],
            recipient_lines(front),
            "  "@ + padded + " @"@ + p.name + "\n"@,
            s,
        );
        lemma_part_of_part(s, recipient_lines(front), " @"@ + ps[i].name + "\n"@);
        lemma_part_of_part(s, recipient_lines(front), "  "@ + ps[i].display_name);
    } else {
        law_padding_fills_up(p.display_name, ' ', 24);
        let n = p.display_name.len() as int;
        assert(padded =~= p.display_name + padded.skip(n)) by {
            assert(padded.take(n) =~= p.display_name);
        }
        lemma_part(recipient_lines(front) + "  "@ + padded, " @"@ + p.name + "\n"@, seq![], s);
        lemma_part(
            recipient_lines(front),
            "  "@ + p.display_name,
            padded.skip(n) + " @"@ + p.name + "\n"@,
            s,
        );
    }
}

proof fn lemma_reason(counts: Seq<(Seq<char>, usize)>, i: int)
    requires
        0 <= i < counts.len(),
    ensures
        has_part(reason_lines(counts), dec(counts[i].1 as nat) + "  "@ + counts[i].0 + "\n"@),
    decreases counts.len(),
{
    let front = counts.drop_last();
    let s = reason_lines(counts);
    let (why, n) = counts.last();
    let padded = pad_left(dec(n as nat), ' ', 6);
    if i < front.len() {
        lemma_reason(front, i);
        lemma_part(seq![], reason_lines(front), padded + "  "@ + why + "\n"@, s);
        lemma_part_of_part(
            s,
            reason_lines(front),
            dec(counts[i].1 as nat) + "  "@ + counts[i].0 + "\n"@,
        );
    } else {
        let d = dec(n as nat);
        law_padding_fills_up(d, ' ', 6);
        let k = padded.len() - d.len();
        assert(padded =~= padded.take(k) + d) by {
            assert(padded.skip(k) =~= d);
        }
        lemma_part(reason_lines(front) + padded.take(k), d + "  "@ + why + "\n"@, seq![], s);
    }
}

/// A plan is shown with how many will be invited out of how many, each of them by
/// display name and handle, and with every reason for leaving people out, behind
/// how many it holds for.
pub proof fn law_plans_are_shown(
    plan: PlanModel,
    counts: Seq<(Seq<char>, usize)>,
    i: int,
    j: int,
)
    ensures
        ({
            let s = plan_report(plan, counts);
            &&& ("Will invite "@ + dec(plan.recipients.len()) + " of "@ + plural_text(
                plan.recipients.len() + plan.excluded.len(),
                "person"@,
            ) + ":\n"@).is_prefix_of(s)
            &&& 0 <= i < plan.recipients.len() ==> has_part(
                s,
                " @"@ + plan.recipients[i].name + "\n"@,
            ) && has_part(s, "  "@ + plan.recipients[i].display_name)
            &&& 0 <= j < counts.len() ==> has_part(s, "\nNot inviting:\n"@) && has_part(
                s,
                dec(counts[j].1 as nat) + "  "@ + counts[j].0 + "\n"@,
            )
        }),
{
    let s = plan_report(plan, counts);
    let head = "Will invite "@ + dec(plan.recipients.len()) + " of "@ + plural_text(
        plan.recipients.len() + plan.excluded.len(),
        "person"@,
    ) + ":\n"@;
    let lines = recipient_lines(plan.recipients);
    let tail = if counts.len() == 0 {
        seq![]
    } else {
        "\nNot inviting:\n"@ + reason_lines(counts)
    };
    assert(s =~= head + (lines + tail));
    lemma_part(head, lines, tail, s);
    if 0 <= i < plan.recipients.len() {
        lemma_recipient(plan.recipients, i);
        lemma_part_of_part(s, lines, " @"@ + plan.recipients[i].name + "\n"@);
        lemma_part_of_part(s, lines, "  "@ + plan.recipients[i].display_name);
    }
    if 0 <= j < counts.len() {
        lemma_reason(counts, j);
        lemma_part(head + lines, "\nNot inviting:\n"@, reason_lines(counts), s);
        lemma_part(head + lines + "\nNot inviting:\n"@, reason_lines(counts), seq![], s);
        lemma_part_of_part(
            s,
            reason_lines(counts),
            dec(counts[j].1 as nat) + "  "@ + counts[j].0 + "\n"@,
        );
    }
}

// ── pickers ──────────────────────────────────────────────────────────────────

/// What a picker shows of a conversation: its name, its kind, how many messages it
/// has, and from when to when; an archived one is marked at the end.
pub proof fn law_pickers_show_conversations(c: SummaryModel)
    ensures
        ({
            let s = crate::selection::picker_line(c);
            &&& c.label().is_prefix_of(s)
            &&& has_part(s, " "@ + c.kind.word())
            &&& has_part(s, " "@ + dec(c.figures.messages) + " msgs  "@)
            &&& c.figures.first is Some && c.figures.last is Some ==> has_part(
                s,
                "  "@ + date_text(c.figures.first->0 as int) + " → "@ + date_text(
                    c.figures.last->0 as int,
                ),
            )
            &&& c.figures.first is None || c.figures.last is None ==> has_part(s, "  no messages"@)
            &&& crate::selection::picker_line(SummaryModel { is_archived: true, ..c })
                == crate::selection::picker_line(SummaryModel { is_archived: false, ..c })
                + " [archived]"@
        }),
{
    let f = c.figures;
    let end = if c.is_archived {
        " [archived]"@
    } else {
        ""@
    };
    let (name, kind, m, u) = (
        pad_right(c.label(), 24),
        pad_right(c.kind.word(), 9),
        pad_left(dec(f.messages), ' ', 6),
        " msgs  "@,
    );
    let range = range_text(c, "no messages"@);
    lemma_picker_units();
    let t0 = name;
    let t1 = t0 + " "@;
    let t2 = t1 + kind;
    let t3 = t2 + " "@;
    let t4 = t3 + m;
    let t5 = t4 + u;
    let t6 = t5 + range;
    let t7 = t6 + end;
    assert(crate::selection::picker_line(c) == t7);
    let label = c.label();
    lemma_padded_name(seq![], label, 24);
    assert(seq![] + label =~= label);
    assert(seq![] + name =~= name);
    lemma_prefix_grows(t0, label, " "@);
    lemma_prefix_grows(t1, label, kind);
    lemma_prefix_grows(t2, label, " "@);
    lemma_prefix_grows(t3, label, m);
    lemma_prefix_grows(t4, label, u);
    lemma_prefix_grows(t5, label, range);
    lemma_prefix_grows(t6, label, end);
    let word = " "@ + c.kind.word();
    lemma_padded_name(" "@, c.kind.word(), 9);
    lemma_part(t0, " "@ + kind, seq![], t2);
    lemma_part_of_part(t2, " "@ + kind, word);
    lemma_grow_twice(t2, word, " "@, m);
    lemma_grow_twice(t4, word, u, range);
    lemma_grow(t6, word, end);
    let count = " "@ + dec(f.messages) + u;
    lemma_figure(t3, f.messages, 6, u);
    lemma_grow_twice(t5, count, range, end);
    if f.first is Some && f.last is Some {
        let dates = "  "@ + date_text(f.first->0 as int) + " → "@ + date_text(f.last->0 as int);
        assert("  "@ + range =~= dates);
        lemma_part(t4 + u.take(5), dates, seq![], t6);
        lemma_grow(t6, dates, end);
    } else {
        let none = "  no messages"@;
        assert("  "@ + range =~= none);
        lemma_part(t4 + u.take(5), none, seq![], t6);
        lemma_grow(t6, none, end);
    }
    let yes = crate::selection::picker_line(SummaryModel { is_archived: true, ..c });
    let no = crate::selection::picker_line(SummaryModel { is_archived: false, ..c });
    assert(no == t6 + ""@);
    assert(no =~= t6);
    assert(yes == t6 + " [archived]"@);
}

proof fn lemma_picker_units()
    ensures
        " "@.len() == 1 && " "@[0] == ' ',
        ""@ == Seq::<char>::empty(),
        " msgs  "@.len() == 7 && " msgs  "@ == " msgs  "@.take(5) + "  "@,
        "  no messages"@ == "  "@ + "no messages"@,
{
    reveal_strlit("no messages");
    reveal_strlit("  no messages");
    reveal_strlit(" ");
    reveal_strlit("  ");
    reveal_strlit("");
    reveal_strlit(" msgs  ");
}

/// What a picker shows of a person: the display name, the handle, how many messages
/// they wrote and in how many channels they are.
pub proof fn law_pickers_show_people(p: PersonModel)
    ensures
        ({
            let s = crate::invite::picker_line(p);
            &&& p.display_name.is_prefix_of(s)
            &&& has_part(s, " @"@ + p.name)
            &&& has_part(s, " "@ + dec(p.message_count) + " msgs  "@)
            &&& ("  "@ + dec(p.channels.len()) + " channels"@).is_suffix_of(s)
        }),
{
    let (shown, name, m, u, c) = (
        pad_right(p.display_name, 24),
        pad_right(p.name, 18),
        pad_left(dec(p.message_count), ' ', 5),
        " msgs  "@,
        dec(p.channels.len()),
    );
    lemma_picker_units();
    let t0 = shown;
    let t1 = t0 + " @"@;
    let t2 = t1 + name;
    let t3 = t2 + " "@;
    let t4 = t3 + m;
    let t5 = t4 + u;
    let t6 = t5 + c;
    let t7 = t6 + " channels"@;
    assert(crate::invite::picker_line(p) == t7);
    let label = p.display_name;
    lemma_padded_name(seq![], label, 24);
    assert(seq![] + label =~= label);
    assert(seq![] + shown =~= shown);
    lemma_prefix_grows(t0, label, " @"@);
    lemma_prefix_grows(t1, label, name);
    lemma_prefix_grows(t2, label, " "@);
    lemma_prefix_grows(t3, label, m);
    lemma_prefix_grows(t4, label, u);
    lemma_prefix_grows(t5, label, c);
    lemma_prefix_grows(t6, label, " channels"@);
    let handle = " @"@ + p.name;
    lemma_padded_name(" @"@, p.name, 18);
    lemma_part(t0, " @"@ + name, seq![], t2);
    lemma_part_of_part(t2, " @"@ + name, handle);
    lemma_grow_twice(t2, handle, " "@, m);
    lemma_grow_twice(t4, handle, u, c);
    lemma_grow(t6, handle, " channels"@);
    let count = " "@ + dec(p.message_count) + u;
    lemma_figure(t3, p.message_count, 5, u);
    lemma_grow_twice(t5, count, c, " channels"@);
    let tail = "  "@ + c + " channels"@;
    assert(t7 =~= (t4 + u.take(5)) + tail);
    lemma_suffix(t4 + u.take(5), tail);
}

/// What is ticked is what is named, and nothing else is asked for; where nothing is
/// ticked, that is refused. So for conversations and for people.
pub proof fn law_pickers_name_what_is_ticked(ids: Seq<Seq<char>>, picked: Seq<usize>, i: int)
    requires
        forall|k: int| 0 <= k < picked.len() ==> #[trigger] picked[k] < ids.len(),
    ensures
        picked.len() == 0 ==> (crate::selection::picked_model(ids, picked) matches Err(f)
            && f is NothingSelected),
        picked.len() == 0 ==> (crate::invite::picked_model(ids, picked) matches Err(f)
            && f is NobodySelected),
        0 <= i < picked.len() ==> (crate::selection::picked_model(ids, picked) matches Ok(f) && {
            &&& f.included.len() == picked.len()
            &&& f.included[i] == ids[picked[i] as int]
            &&& f.exclude.len() == 0
            &&& !f.all && !f.all_public && !f.all_private && !f.all_dms
        }),
        0 <= i < picked.len() ==> (crate::invite::picked_model(ids, picked) matches Ok(f) && {
            &&& f.included.len() == picked.len()
            &&& f.included[i] == ids[picked[i] as int]
            &&& f.exclude.len() == 0
        }),
{
}

} // verus!
