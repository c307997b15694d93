//! What a filter comes to, flag by flag and name by name.

use vstd::prelude::*;

use crate::error::Failure;
use crate::ir::ChannelKind;
use crate::order::lemma_kept;
use crate::probe::SummaryModel;
use crate::selection::{
    all_listed, asked_by_kind, first_unknown, ids, law_exclusion_wins,
    law_naming_overrides_the_defaults, law_selected_and_skipped_partition, named_id, names,
    names_any, offerable, picks, preset_model, preticked, resolution, tidied, without_comments,
    FilterModel, ResolvedModel,
};
use crate::text::laws::{
    all_white, hugged, law_case_is_that_of_ascii, law_leading_marks_are_dropped,
    law_splitting_gives_the_pieces, law_trimming_takes_off_blanks, none_holds, same_letters,
    with_between,
};
use crate::text::{split, trimmed};

verus! {

// ── selectors ────────────────────────────────────────────────────────────────

/// Whether a selector is written plainly: no blanks around it, no `#` ahead.
pub open spec fn plain(selector: Seq<char>) -> bool {
    hugged(selector) && selector[0] != '#'
}

/// Whether a conversation goes by an id or a name: the id as it is, the name in
/// whatever case.
pub open spec fn goes_by(c: SummaryModel, called: Seq<char>) -> bool {
    c.slack_id == called || (c.name matches Some(n) && same_letters(n, called))
}

/// A selector names a conversation by its id, or by its name in whatever case.
/// Blanks around it and any number of `#` ahead make no difference.
pub proof fn law_selectors_name_by_id_or_name(
    c: SummaryModel,
    selector: Seq<char>,
    before: Seq<char>,
    hashes: nat,
    behind: Seq<char>,
)
    requires
        plain(selector),
        all_white(before),
        all_white(behind),
    ensures
        names(selector, c) <==> goes_by(c, selector),
        names(before + (Seq::new(hashes, |i: int| '#') + selector) + behind, c) <==> goes_by(
            c,
            selector,
        ),
{
    let marked = Seq::new(hashes, |i: int| '#') + selector;
    law_leading_marks_are_dropped('#', hashes, selector);
    law_leading_marks_are_dropped('#', 0, selector);
    assert(Seq::new(0nat, |i: int| '#') + selector =~= selector);
    crate::text::laws::law_blanks_are_white_space('#');
    assert(marked.last() == selector.last());
    law_trimming_takes_off_blanks(before, marked, behind);
    law_trimming_takes_off_blanks(seq![], selector, seq![]);
    assert(seq![] + selector + seq![] =~= selector);
    if let Some(n) = c.name {
        law_case_is_that_of_ascii(n, selector);
    }
}

// ── flags ────────────────────────────────────────────────────────────────────

/// Whether the flags of a filter cover a kind.
pub open spec fn flags_cover(f: FilterModel, kind: ChannelKind) -> bool {
    ||| f.all
    ||| kind is Public && f.all_public
    ||| kind is Private && f.all_private
    ||| kind is Dm && f.all_dms
    ||| kind is GroupDm && f.all_dms
}

proof fn lemma_selected(f: FilterModel, cs: Seq<SummaryModel>, i: int)
    requires
        resolution(f, cs) is Ok,
        0 <= i < cs.len(),
        picks(f, cs, cs[i]),
    ensures
        resolution(f, cs)->Ok_0.selected.contains(cs[i].slack_id),
{
    let pick = |c: SummaryModel| picks(f, cs, c);
    lemma_kept(cs, pick);
    assert(pick(cs[i]));
    let kept = cs.filter(pick);
    let k = kept.index_of(cs[i]);
    assert(ids(kept)[k] == cs[i].slack_id);
}

proof fn lemma_picked(f: FilterModel, cs: Seq<SummaryModel>, i: int)
    requires
        resolution(f, cs) is Ok,
        ids(cs).no_duplicates(),
        0 <= i < cs.len(),
        resolution(f, cs)->Ok_0.selected.contains(cs[i].slack_id),
    ensures
        picks(f, cs, cs[i]),
{
    let pick = |c: SummaryModel| picks(f, cs, c);
    lemma_kept(cs, pick);
    let kept = cs.filter(pick);
    let k = ids(kept).index_of(cs[i].slack_id);
    assert(pick(kept[k]));
    assert(cs.contains(kept[k]));
    let j = cs.index_of(kept[k]);
    assert(ids(cs)[j] == ids(cs)[i]);
}

proof fn lemma_not_named(selectors: Seq<Seq<char>>, cs: Seq<SummaryModel>, i: int)
    requires
        ids(cs).no_duplicates(),
        0 <= i < cs.len(),
        forall|s: int| 0 <= s < selectors.len() ==> !names(#[trigger] selectors[s], cs[i]),
    ensures
        !named_id(selectors, cs, cs[i].slack_id),
{
    if named_id(selectors, cs, cs[i].slack_id) {
        let (s, k) = choose|s: int, k: int|
            0 <= s < selectors.len() && 0 <= k < cs.len() && #[trigger] names(selectors[s], cs[k])
                && cs[k].slack_id == cs[i].slack_id;
        assert(ids(cs)[k] == ids(cs)[i]);
    }
}

/// A flag selects every conversation of its kind that has messages and is not
/// archived, unless it is excluded: `--all` of every kind, `--all-public` the
/// public channels, `--all-private` the private ones, and `--all-dms` the DMs and
/// the group DMs. Archived and empty ones come along where that is asked for.
pub proof fn law_flags_select_their_kinds(f: FilterModel, cs: Seq<SummaryModel>, i: int)
    requires
        resolution(f, cs) is Ok,
        ids(cs).no_duplicates(),
        0 <= i < cs.len(),
        flags_cover(f, cs[i].kind),
        cs[i].figures.messages > 0 || f.include_empty,
        !cs[i].is_archived || f.include_archived,
        forall|s: int| 0 <= s < f.exclude.len() ==> !names(#[trigger] f.exclude[s], cs[i]),
    ensures
        resolution(f, cs)->Ok_0.selected.contains(cs[i].slack_id),
        !resolution(f, cs)->Ok_0.skipped.contains(cs[i].slack_id),
{
    lemma_not_named(f.exclude, cs, i);
    assert(f.asks_kind(cs[i].kind));
    lemma_selected(f, cs, i);
    law_selected_and_skipped_partition(f, cs);
}

/// What no selector names is selected only where a flag covers its kind, and then
/// it has messages and is not archived, unless such were asked for.
pub proof fn law_flags_select_nothing_else(f: FilterModel, cs: Seq<SummaryModel>, i: int)
    requires
        resolution(f, cs) is Ok,
        ids(cs).no_duplicates(),
        0 <= i < cs.len(),
        forall|s: int| 0 <= s < f.included.len() ==> !names(#[trigger] f.included[s], cs[i]),
        resolution(f, cs)->Ok_0.selected.contains(cs[i].slack_id),
    ensures
        flags_cover(f, cs[i].kind),
        cs[i].figures.messages > 0 || f.include_empty,
        !cs[i].is_archived || f.include_archived,
{
    lemma_picked(f, cs, i);
    lemma_not_named(f.included, cs, i);
    let id = cs[i].slack_id;
    let k = choose|k: int|
        0 <= k < cs.len() && f.asks_kind((#[trigger] cs[k]).kind) && cs[k].slack_id == id;
    assert(ids(cs)[k] == ids(cs)[i]);
}

// ── names ────────────────────────────────────────────────────────────────────

/// Naming a conversation selects it, though it is archived or empty; excluding it
/// by any of its names keeps it out, however it was asked for.
pub proof fn law_names_select_and_exclude(f: FilterModel, cs: Seq<SummaryModel>, s: int, i: int)
    requires
        resolution(f, cs) is Ok,
        0 <= i < cs.len(),
    ensures
        0 <= s < f.exclude.len() && plain(f.exclude[s]) && goes_by(cs[i], f.exclude[s])
            ==> !resolution(f, cs)->Ok_0.selected.contains(cs[i].slack_id) && resolution(
            f,
            cs,
        )->Ok_0.skipped.contains(cs[i].slack_id),
        0 <= s < f.included.len() && plain(f.included[s]) && goes_by(cs[i], f.included[s])
            && f.exclude.len() == 0 ==> resolution(f, cs)->Ok_0.selected.contains(cs[i].slack_id),
{
    law_selected_and_skipped_partition(f, cs);
    if 0 <= s < f.exclude.len() && plain(f.exclude[s]) && goes_by(cs[i], f.exclude[s]) {
        law_selectors_name_by_id_or_name(cs[i], f.exclude[s], seq![], 0, seq![]);
        assert(names(f.exclude[s], cs[i]));
        law_exclusion_wins(f, cs, cs[i].slack_id);
    }
    if 0 <= s < f.included.len() && plain(f.included[s]) && goes_by(cs[i], f.included[s])
        && f.exclude.len() == 0 {
        law_selectors_name_by_id_or_name(cs[i], f.included[s], seq![], 0, seq![]);
        assert(names(f.included[s], cs[i]));
        law_naming_overrides_the_defaults(f, cs, i);
    }
}

proof fn lemma_unknown_is_listed(selectors: Seq<Seq<char>>, cs: Seq<SummaryModel>, from: int)
    requires
        0 <= from,
    ensures
        first_unknown(selectors, cs, from) matches Some(x) ==> exists|s: int|
            from <= s < selectors.len() && #[trigger] selectors[s] == x && !names_any(x, cs),
        first_unknown(selectors, cs, from) is None ==> forall|s: int|
            from <= s < selectors.len() ==> names_any(#[trigger] selectors[s], cs),
    decreases selectors.len() - from,
{
    if from < selectors.len() {
        lemma_unknown_is_listed(selectors, cs, from + 1);
    }
}

proof fn lemma_known(f: FilterModel, cs: Seq<SummaryModel>, called: Seq<char>)
    requires
        plain(called),
    ensures
        names_any(called, cs) <==> exists|i: int|
            0 <= i < cs.len() && goes_by(#[trigger] cs[i], called),
{
    assert forall|i: int| 0 <= i < cs.len() implies names(called, #[trigger] cs[i]) == goes_by(
        cs[i],
        called,
    ) by {
        law_selectors_name_by_id_or_name(cs[i], called, seq![], 0, seq![]);
    }
    if names_any(called, cs) {
        let i = choose|i: int| 0 <= i < cs.len() && names(called, #[trigger] cs[i]);
        assert(goes_by(cs[i], called));
    }
    if exists|i: int| 0 <= i < cs.len() && goes_by(#[trigger] cs[i], called) {
        let i = choose|i: int| 0 <= i < cs.len() && goes_by(#[trigger] cs[i], called);
        assert(names(called, cs[i]));
    }
}

/// A selector that no conversation goes by is refused, and the refusal quotes such
/// a selector. Asking for nothing is refused too; asking for what is not there to
/// import is another matter.
pub proof fn law_unknown_names_are_refused(f: FilterModel, cs: Seq<SummaryModel>, s: int)
    requires
        forall|s: int| 0 <= s < f.included.len() ==> plain(#[trigger] f.included[s]),
        forall|s: int| 0 <= s < f.exclude.len() ==> plain(#[trigger] f.exclude[s]),
    ensures
        resolution(f, cs) matches Err(Failure::UnknownChannel { selector }) ==> f.included.contains(
            selector,
        ) && forall|i: int| 0 <= i < cs.len() ==> !goes_by(#[trigger] cs[i], selector),
        resolution(f, cs) matches Err(Failure::UnknownExcludedChannel { selector })
            ==> f.exclude.contains(selector) && forall|i: int|
            0 <= i < cs.len() ==> !goes_by(#[trigger] cs[i], selector),
        0 <= s < f.included.len() && (forall|i: int|
            0 <= i < cs.len() ==> !goes_by(#[trigger] cs[i], f.included[s])) ==> (resolution(f, cs)
            matches Err(Failure::UnknownChannel { .. })),
        0 <= s < f.exclude.len() && (forall|i: int|
            0 <= i < cs.len() ==> !goes_by(#[trigger] cs[i], f.exclude[s])) ==> resolution(
            f,
            cs,
        ) is Err,
        resolution(f, cs) == Err::<ResolvedModel, Failure>(Failure::NoChannelsSelected) <==> !f.all
            && !f.all_public && !f.all_private && !f.all_dms && f.included.len() == 0,
{
    lemma_unknown_is_listed(f.included, cs, 0);
    lemma_unknown_is_listed(f.exclude, cs, 0);
    if let Err(Failure::UnknownChannel { selector }) = resolution(f, cs) {
        lemma_known(f, cs, selector);
    }
    if let Err(Failure::UnknownExcludedChannel { selector }) = resolution(f, cs) {
        lemma_known(f, cs, selector);
    }
    if 0 <= s < f.included.len() {
        lemma_known(f, cs, f.included[s]);
    }
    if 0 <= s < f.exclude.len() {
        lemma_known(f, cs, f.exclude[s]);
    }
}

/// A filter that covers something there is to import, and whose selectors each
/// have a conversation that goes by them, is not refused.
pub proof fn law_what_is_there_is_not_refused(f: FilterModel, cs: Seq<SummaryModel>, i: int)
    requires
        forall|s: int|
            0 <= s < f.included.len() ==> plain(#[trigger] f.included[s]) && exists|k: int|
                0 <= k < cs.len() && goes_by(#[trigger] cs[k], f.included[s]),
        f.exclude.len() == 0,
        0 <= i < cs.len(),
        (flags_cover(f, cs[i].kind) && cs[i].figures.messages > 0 && !cs[i].is_archived) || exists|
            s: int,
        |
            0 <= s < f.included.len() && goes_by(cs[i], #[trigger] f.included[s]),
    ensures
        resolution(f, cs) is Ok,
        resolution(f, cs)->Ok_0.selected.contains(cs[i].slack_id),
{
    lemma_unknown_is_listed(f.included, cs, 0);
    lemma_unknown_is_listed(f.exclude, cs, 0);
    if let Some(x) = first_unknown(f.included, cs, 0) {
        let s = choose|s: int| 0 <= s < f.included.len() && #[trigger] f.included[s] == x;
        lemma_known(f, cs, f.included[s]);
    }
    let id = cs[i].slack_id;
    if exists|s: int| 0 <= s < f.included.len() && goes_by(cs[i], #[trigger] f.included[s]) {
        let s = choose|s: int|
            0 <= s < f.included.len() && goes_by(cs[i], #[trigger] f.included[s]);
        law_selectors_name_by_id_or_name(cs[i], f.included[s], seq![], 0, seq![]);
        assert(names(f.included[s], cs[i]));
        assert(named_id(f.included, cs, id));
    } else {
        assert(f.asks_kind(cs[i].kind));
        assert(asked_by_kind(f, cs, id));
    }
    assert(!named_id(f.exclude, cs, id));
    let pick = |c: SummaryModel| picks(f, cs, c);
    lemma_kept(cs, pick);
    assert(pick(cs[i]));
    let kept = cs.filter(pick);
    assert(kept.contains(cs[i]));
    assert(ids(kept).len() == kept.len());
    assert(!f.asks_nothing());
    lemma_selected(f, cs, i);
}

// ── order ────────────────────────────────────────────────────────────────────

proof fn lemma_filter_order(cs: Seq<SummaryModel>, p: spec_fn(SummaryModel) -> bool, a: int, b: int)
    requires
        0 <= a < b < cs.filter(p).len(),
    ensures
        exists|i: int, j: int|
            0 <= i < j < cs.len() && #[trigger] cs[i] == cs.filter(p)[a] && #[trigger] cs[j]
                == cs.filter(p)[b],
    decreases cs.len(),
{
    reveal(Seq::filter);
    if cs.len() > 0 {
        let front = cs.drop_last();
        let kept = front.filter(p);
        if b < kept.len() {
            lemma_filter_order(front, p, a, b);
            let (i, j) = choose|i: int, j: int|
                0 <= i < j < front.len() && #[trigger] front[i] == kept[a] && #[trigger] front[j]
                    == kept[b];
            assert(cs[i] == front[i] && cs[j] == front[j]);
        } else {
            lemma_kept(front, p);
            assert(front.contains(kept[a]));
            let i = front.index_of(kept[a]);
            assert(cs[i] == kept[a]);
            assert(cs[cs.len() - 1] == cs.filter(p)[b]);
        }
    }
}

/// What is selected, and what is skipped, comes in the order of the inventory.
pub proof fn law_selection_keeps_the_order(f: FilterModel, cs: Seq<SummaryModel>, a: int, b: int)
    requires
        resolution(f, cs) is Ok,
        0 <= a < b,
    ensures
        b < resolution(f, cs)->Ok_0.selected.len() ==> exists|i: int, j: int|
            0 <= i < j < cs.len() && (#[trigger] cs[i]).slack_id == resolution(
                f,
                cs,
            )->Ok_0.selected[a] && (#[trigger] cs[j]).slack_id == resolution(
                f,
                cs,
            )->Ok_0.selected[b],
        b < resolution(f, cs)->Ok_0.skipped.len() ==> exists|i: int, j: int|
            0 <= i < j < cs.len() && (#[trigger] cs[i]).slack_id == resolution(
                f,
                cs,
            )->Ok_0.skipped[a] && (#[trigger] cs[j]).slack_id == resolution(
                f,
                cs,
            )->Ok_0.skipped[b],
{
    let r = resolution(f, cs)->Ok_0;
    let pick = |c: SummaryModel| picks(f, cs, c);
    let skip = |c: SummaryModel| !r.selected.contains(c.slack_id);
    if b < r.selected.len() {
        assert(r.selected == ids(cs.filter(pick)));
        lemma_filter_order(cs, pick, a, b);
    }
    if b < r.skipped.len() {
        assert(r.skipped == ids(cs.filter(skip)));
        lemma_filter_order(cs, skip, a, b);
    }
}

// ── the picker ───────────────────────────────────────────────────────────────

/// The first preset ticks the public channels, the second everything, the third
/// nothing: of what has messages and is not archived.
pub proof fn law_presets_tick_what_they_say(cs: Seq<SummaryModel>, i: int)
    requires
        ids(cs).no_duplicates(),
        0 <= i < cs.len(),
        cs[i].figures.messages > 0,
        !cs[i].is_archived,
    ensures
        preticked(cs, 0, cs[i].slack_id) <==> cs[i].kind is Public,
        preticked(cs, 1, cs[i].slack_id),
        !preticked(cs, 2, cs[i].slack_id),
{
    let public = preset_model(0);
    let all = preset_model(1);
    law_what_is_there_is_not_refused(all, cs, i);
    if cs[i].kind is Public {
        law_what_is_there_is_not_refused(public, cs, i);
    } else if preticked(cs, 0, cs[i].slack_id) {
        law_flags_select_nothing_else(public, cs, i);
    }
}

/// The picker offers every conversation that has messages, and no other, in the
/// order of the inventory.
pub proof fn law_picker_offers_what_has_messages(cs: Seq<SummaryModel>, i: int)
    requires
        0 <= i < cs.len(),
    ensures
        cs[i].figures.messages > 0 ==> offerable(cs).contains(cs[i]),
        offerable(cs).contains(cs[i]) ==> cs[i].figures.messages > 0,
        offerable(cs) == cs.filter(|c: SummaryModel| c.figures.messages != 0),
{
    let p = |c: SummaryModel| c.figures.messages > 0;
    assert(p =~= (|c: SummaryModel| c.figures.messages != 0));
    lemma_kept(cs, p);
    if offerable(cs).contains(cs[i]) {
        let k = offerable(cs).index_of(cs[i]);
        assert(p(cs.filter(p)[k]));
    }
}

// ── lists ────────────────────────────────────────────────────────────────────

/// Pieces with blanks put around them.
pub open spec fn padded(pieces: Seq<Seq<char>>, before: Seq<char>, behind: Seq<char>) -> Seq<
    Seq<char>,
> {
    Seq::new(pieces.len(), |i: int| before + pieces[i] + behind)
}

proof fn lemma_tidied(pieces: Seq<Seq<char>>, before: Seq<char>, behind: Seq<char>)
    requires
        forall|i: int| 0 <= i < pieces.len() ==> hugged(#[trigger] pieces[i]),
        all_white(before),
        all_white(behind),
    ensures
        tidied(padded(pieces, before, behind)) == pieces,
        tidied(padded(pieces, before, behind).push(before)) == pieces,
    decreases pieces.len(),
{
    let all = padded(pieces, before, behind);
    law_trimming_takes_off_blanks(before, seq![], seq![]);
    assert(before + seq![] + seq![] =~= before);
    assert(all.push(before).drop_last() =~= all);
    if pieces.len() > 0 {
        let ahead = pieces.drop_last();
        assert forall|i: int| 0 <= i < ahead.len() implies hugged(#[trigger] ahead[i]) by {
            assert(hugged(pieces[i]));
        }
        lemma_tidied(ahead, before, behind);
        assert(all.drop_last() =~= padded(ahead, before, behind));
        assert(hugged(pieces[pieces.len() - 1]));
        law_trimming_takes_off_blanks(before, pieces.last(), behind);
        assert(ahead.push(pieces.last()) =~= pieces);
    } else {
        assert(all =~= seq![]);
        assert(tidied(all) =~= pieces);
    }
}

/// A list of selectors is read from between its commas, without the blanks around
/// each; a comma at the end, or blanks behind it, add nothing.
pub proof fn law_lists_are_read_between_commas(
    pieces: Seq<Seq<char>>,
    before: Seq<char>,
    behind: Seq<char>,
)
    requires
        pieces.len() > 0,
        forall|i: int| 0 <= i < pieces.len() ==> hugged(#[trigger] pieces[i]),
        none_holds(pieces, ','),
        all_white(before),
        all_white(behind),
    ensures
        tidied(split(with_between(padded(pieces, before, behind), ','), ',')) == pieces,
        tidied(split(with_between(padded(pieces, before, behind).push(before), ','), ','))
            == pieces,
{
    let all = padded(pieces, before, behind);
    crate::text::laws::law_blanks_are_white_space(',');
    assert forall|i: int| 0 <= i < all.len() implies !(#[trigger] all[i]).contains(',') by {
        if all[i].contains(',') {
            let k = choose|k: int| 0 <= k < all[i].len() && all[i][k] == ',';
            let p = pieces[i];
            if k < before.len() {
                assert(before[k] == ',');
            } else if k < before.len() + p.len() {
                assert(p[k - before.len()] == ',');
                assert(p.contains(','));
            } else {
                assert(behind[k - before.len() - p.len()] == ',');
            }
        }
    }
    assert(!before.contains(',')) by {
        if before.contains(',') {
            let k = choose|k: int| 0 <= k < before.len() && before[k] == ',';
            assert(white_at(before, k));
        }
    }
    let more = all.push(before);
    assert forall|i: int| 0 <= i < more.len() implies !(#[trigger] more[i]).contains(',') by {
        if i < all.len() {
            assert(more[i] == all[i]);
        }
    }
    law_splitting_gives_the_pieces(all, ',');
    law_splitting_gives_the_pieces(more, ',');
    lemma_tidied(pieces, before, behind);
}

spec fn white_at(s: Seq<char>, k: int) -> bool {
    crate::text::white(s[k])
}

/// Of the lines of a list file, those that are blank or start with a `#` are left
/// out, and the others count without the blanks around them.
pub proof fn law_comments_are_left_out(lines: Seq<Seq<char>>, line: Seq<char>)
    ensures
        trimmed(line).len() > 0 && trimmed(line)[0] != '#' ==> without_comments(lines.push(line))
            == without_comments(lines).push(trimmed(line)),
        trimmed(line).len() == 0 || trimmed(line)[0] == '#' ==> without_comments(lines.push(line))
            == without_comments(lines),
        without_comments(seq![]) == Seq::<Seq<char>>::empty(),
{
    assert(lines.push(line).drop_last() =~= lines);
}

/// Lists given one after the other add up.
pub proof fn law_lists_add_up(raws: Seq<Seq<char>>, raw: Seq<char>)
    ensures
        all_listed(raws.push(raw)) == all_listed(raws) + tidied(split(raw, ',')),
        all_listed(seq![]) == Seq::<Seq<char>>::empty(),
{
    assert(raws.push(raw).drop_last() =~= raws);
}

} // verus!
