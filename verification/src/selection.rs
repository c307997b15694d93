//! Choosing which conversations to import.
//!
//! Selection is deliberately split in two. [`Filter`] is pure — it turns flags
//! plus an [`Inventory`] into a concrete list of Slack ids. The interactive
//! picker does nothing but build a `Filter`, from an [`Offer`] and what was
//! ticked in it.
//!
//! Two rules that exist to stop quiet mistakes:
//!
//! - **An unknown selector is an error.** `--channels genral` (typo) fails
//!   loudly rather than importing nothing under that name. Silently skipping a
//!   misspelled channel is indistinguishable from success until the archive is
//!   already published.
//! - **Non-interactive runs never default to everything.** With no TTY and no
//!   explicit scope flag, `parse` refuses. Importing a workspace is not
//!   something to do by accident, and private channels and DMs are in scope for
//!   exactly the operators least likely to want them.

use vstd::prelude::*;

use crate::error::{Error, Failure};
use crate::fmt;
use crate::ir::ChannelKind;
use crate::order::lemma_kept;
use crate::probe::{ConversationSummary, Inventory, SummaryModel};
use crate::text;
use crate::text::{fold_eq, holds, lines, lines_of, pad_left, pad_right, same_ignoring_case, split, split_char, strip_leading, trim, trim_start_char, trimmed};

pub mod laws;

verus! {

/// A pure description of which conversations to include.
#[derive(Debug, Clone, PartialEq)]
pub struct Filter {
    /// Include every conversation the export contains, of every kind.
    pub all: bool,
    /// Include all public channels.
    pub all_public: bool,
    /// Include all private channels.
    pub all_private: bool,
    /// Include all DMs and group DMs.
    pub all_dms: bool,
    /// Explicit picks, by channel name or Slack id.
    pub included: Vec<String>,
    /// Removed after everything else is resolved, so `--all --exclude x`
    /// reads the way it looks.
    pub exclude: Vec<String>,
    /// Include channels Slack has archived. Off by default: an archived
    /// channel is usually noise the operator has already decided against.
    pub include_archived: bool,
    /// Include conversations that have no messages in the export.
    pub include_empty: bool,
}

/// The model of a [`Filter`].
#[verifier::ext_equal]
pub struct FilterModel {
    pub all: bool,
    pub all_public: bool,
    pub all_private: bool,
    pub all_dms: bool,
    pub included: Seq<Seq<char>>,
    pub exclude: Seq<Seq<char>>,
    pub include_archived: bool,
    pub include_empty: bool,
}

impl DeepView for Filter {
    type V = FilterModel;

    open spec fn deep_view(&self) -> FilterModel {
        FilterModel {
            all: self.all,
            all_public: self.all_public,
            all_private: self.all_private,
            all_dms: self.all_dms,
            included: self.included.deep_view(),
            exclude: self.exclude.deep_view(),
            include_archived: self.include_archived,
            include_empty: self.include_empty,
        }
    }
}

/// The filter that asks for nothing.
pub open spec fn no_filter() -> FilterModel {
    FilterModel {
        all: false,
        all_public: false,
        all_private: false,
        all_dms: false,
        included: seq![],
        exclude: seq![],
        include_archived: false,
        include_empty: false,
    }
}

impl FilterModel {
    /// Whether no scope is asked for.
    pub open spec fn asks_nothing(self) -> bool {
        !self.all && !self.all_public && !self.all_private && !self.all_dms && self.included.len()
            == 0
    }

    /// Whether the flags ask for conversations of this kind.
    pub open spec fn asks_kind(self, kind: ChannelKind) -> bool {
        self.all || match kind {
            ChannelKind::Public => self.all_public,
            ChannelKind::Private => self.all_private,
            ChannelKind::Dm | ChannelKind::GroupDm => self.all_dms,
        }
    }
}

impl Default for Filter {
    fn default() -> (r: Self)
        ensures
            r.deep_view() == no_filter(),
    {
        let r = Filter {
            all: false,
            all_public: false,
            all_private: false,
            all_dms: false,
            included: Vec::new(),
            exclude: Vec::new(),
            include_archived: false,
            include_empty: false,
        };
        assert(r.deep_view() =~= no_filter());
        r
    }
}

impl Filter {
    /// Whether the operator expressed any scope at all.
    pub fn is_empty(&self) -> (r: bool)
        ensures
            r == self.deep_view().asks_nothing(),
    {
        !self.all && !self.all_public && !self.all_private && !self.all_dms && self.included.len()
            == 0
    }

    pub fn everything() -> (r: Self)
        ensures
            r.deep_view() == (FilterModel { all: true, ..no_filter() }),
    {
        let mut r = Filter::default();
        r.all = true;
        r
    }

    pub fn public_only() -> (r: Self)
        ensures
            r.deep_view() == (FilterModel { all_public: true, ..no_filter() }),
    {
        let mut r = Filter::default();
        r.all_public = true;
        r
    }
}

/// The outcome of applying a [`Filter`].
#[derive(Debug, Clone, PartialEq)]
pub struct Resolved {
    /// Slack ids to import, in inventory order.
    pub selected: Vec<String>,
    /// Slack ids present in the export but not selected.
    pub skipped: Vec<String>,
}

/// The model of a [`Resolved`].
#[verifier::ext_equal]
pub struct ResolvedModel {
    pub selected: Seq<Seq<char>>,
    pub skipped: Seq<Seq<char>>,
}

impl DeepView for Resolved {
    type V = ResolvedModel;

    open spec fn deep_view(&self) -> ResolvedModel {
        ResolvedModel { selected: self.selected.deep_view(), skipped: self.skipped.deep_view() }
    }
}

// ── selectors ────────────────────────────────────────────────────────────────

/// What a selector looks for: itself, trimmed, without leading `#`.
pub open spec fn sought(selector: Seq<char>) -> Seq<char> {
    strip_leading(trimmed(selector), '#')
}

/// Whether a selector names a conversation: by exact Slack id or by
/// case-insensitive channel name.
pub open spec fn names(selector: Seq<char>, c: SummaryModel) -> bool {
    c.slack_id == sought(selector) || (c.name is Some && fold_eq(c.name->0, sought(selector)))
}

/// Whether a selector names any of the conversations.
pub open spec fn names_any(selector: Seq<char>, cs: Seq<SummaryModel>) -> bool {
    exists|i: int| 0 <= i < cs.len() && names(selector, #[trigger] cs[i])
}

/// Whether one of the selectors names a conversation with this id.
pub open spec fn named_id(selectors: Seq<Seq<char>>, cs: Seq<SummaryModel>, id: Seq<char>) -> bool {
    exists|s: int, i: int|
        0 <= s < selectors.len() && 0 <= i < cs.len() && #[trigger] names(selectors[s], cs[i])
            && cs[i].slack_id == id
}

/// The first selector at or after `from` that names nothing.
pub open spec fn first_unknown(
    selectors: Seq<Seq<char>>,
    cs: Seq<SummaryModel>,
    from: int,
) -> Option<Seq<char>>
    decreases selectors.len() - from,
{
    if !(0 <= from < selectors.len()) {
        None
    } else if !names_any(selectors[from], cs) {
        Some(selectors[from])
    } else {
        first_unknown(selectors, cs, from + 1)
    }
}

/// Whether the flags ask for a conversation with this id by its kind.
pub open spec fn asked_by_kind(f: FilterModel, cs: Seq<SummaryModel>, id: Seq<char>) -> bool {
    exists|i: int|
        0 <= i < cs.len() && f.asks_kind((#[trigger] cs[i]).kind) && cs[i].slack_id == id
}

/// Whether a conversation is selected: asked for by its kind or by name, not
/// excluded, and neither archived nor empty unless that was asked for or the
/// conversation was named.
pub open spec fn picks(f: FilterModel, cs: Seq<SummaryModel>, c: SummaryModel) -> bool {
    let id = c.slack_id;
    let named = named_id(f.included, cs, id);
    &&& asked_by_kind(f, cs, id) || named
    &&& !named_id(f.exclude, cs, id)
    &&& f.include_archived || !c.is_archived || named
    &&& f.include_empty || c.figures.messages > 0 || named
}

/// The ids of some conversations.
pub open spec fn ids(cs: Seq<SummaryModel>) -> Seq<Seq<char>> {
    Seq::new(cs.len(), |i: int| cs[i].slack_id)
}

/// The ids that a filter selects, in inventory order.
pub open spec fn selected_ids(f: FilterModel, cs: Seq<SummaryModel>) -> Seq<Seq<char>> {
    ids(cs.filter(|c: SummaryModel| picks(f, cs, c)))
}

/// The ids of the conversations that are not among `selected`.
pub open spec fn skipped_ids(selected: Seq<Seq<char>>, cs: Seq<SummaryModel>) -> Seq<Seq<char>> {
    ids(cs.filter(|c: SummaryModel| !selected.contains(c.slack_id)))
}

/// What applying a filter comes to.
pub open spec fn resolution(f: FilterModel, cs: Seq<SummaryModel>) -> Result<
    ResolvedModel,
    Failure,
> {
    if f.asks_nothing() {
        Err(Failure::NoChannelsSelected)
    } else if first_unknown(f.included, cs, 0) is Some {
        Err(Failure::UnknownChannel { selector: first_unknown(f.included, cs, 0)->0 })
    } else if first_unknown(f.exclude, cs, 0) is Some {
        Err(Failure::UnknownExcludedChannel { selector: first_unknown(f.exclude, cs, 0)->0 })
    } else if selected_ids(f, cs).len() == 0 {
        Err(Failure::NoConversationsMatched)
    } else {
        let selected = selected_ids(f, cs);
        Ok(ResolvedModel { selected, skipped: skipped_ids(selected, cs) })
    }
}

/// The model of a result.
pub open spec fn outcome<T: DeepView>(r: Result<T, Error>) -> Result<T::V, Failure> {
    match r {
        Ok(x) => Ok(x.deep_view()),
        Err(e) => Err(e.deep_view()),
    }
}

/// Match one selector against the inventory, by exact Slack id or by
/// case-insensitive channel name. A leading `#` is accepted and ignored so
/// `--channels '#general'` works.
fn match_selector(conversations: &Vec<ConversationSummary>, selector: &str) -> (r: Vec<String>)
    ensures
        r@.len() > 0 <==> names_any(selector@, conversations.deep_view()),
        forall|id: Seq<char>|
            #![trigger r.deep_view().contains(id)]
            r.deep_view().contains(id) <==> exists|i: int|
                0 <= i < conversations.deep_view().len() && #[trigger] names(
                    selector@,
                    conversations.deep_view()[i],
                ) && conversations.deep_view()[i].slack_id == id,
{
    let ghost cs = conversations.deep_view();
    let trimmed_selector = trim(selector);
    let needle = trim_start_char(trimmed_selector.as_str(), '#');
    let mut r: Vec<String> = Vec::new();
    let mut i: usize = 0;
    while i < conversations.len()
        invariant
            i <= conversations@.len(),
            cs == conversations.deep_view(),
            needle@ == sought(selector@),
            r@.len() > 0 <==> exists|k: int| 0 <= k < i && names(selector@, #[trigger] cs[k]),
            forall|id: Seq<char>|
                #![trigger r.deep_view().contains(id)]
                r.deep_view().contains(id) <==> exists|k: int|
                    0 <= k < i && #[trigger] names(selector@, cs[k]) && cs[k].slack_id == id,
        decreases conversations@.len() - i,
    {
        let ghost was = r.deep_view();
        let c = &conversations[i];
        assert(cs[i as int] == conversations@[i as int].deep_view());
        let hit = c.slack_id == needle || match &c.name {
            Some(n) => same_ignoring_case(n.as_str(), needle.as_str()),
            None => false,
        };
        assert(hit == names(selector@, cs[i as int]));
        if hit {
            r.push(c.slack_id.clone());
            assert(r.deep_view() =~= was.push(c.slack_id@));
            assert(names(selector@, cs[i as int]));
        }
        proof {
            assert forall|id: Seq<char>|
                #![trigger r.deep_view().contains(id)]
                r.deep_view().contains(id) <==> exists|k: int|
                    0 <= k < i + 1 && #[trigger] names(selector@, cs[k]) && cs[k].slack_id == id by {
                lemma_push_contains(was, cs[i as int].slack_id, id);
                if hit && id == cs[i as int].slack_id {
                    assert(names(selector@, cs[i as int]) && cs[i as int].slack_id == id);
                }
                if was.contains(id) {
                    let k = choose|k: int|
                        0 <= k < i && #[trigger] names(selector@, cs[k]) && cs[k].slack_id == id;
                    assert(names(selector@, cs[k]));
                }
            }
        }
        i += 1;
    }
    r
}

proof fn lemma_push_contains(s: Seq<Seq<char>>, x: Seq<char>, y: Seq<char>)
    ensures
        s.push(x).contains(y) <==> s.contains(y) || x == y,
{
    if s.contains(y) {
        let i = s.index_of(y);
        assert(s.push(x)[i] == y);
    }
    if x == y {
        assert(s.push(x)[s.len() as int] == y);
    }
    if s.push(x).contains(y) {
        let i = s.push(x).index_of(y);
        if i < s.len() {
            assert(s[i] == y);
        }
    }
}

proof fn lemma_add_contains(a: Seq<Seq<char>>, b: Seq<Seq<char>>, y: Seq<char>)
    ensures
        (a + b).contains(y) <==> a.contains(y) || b.contains(y),
{
    if a.contains(y) {
        let i = a.index_of(y);
        assert((a + b)[i] == y);
    }
    if b.contains(y) {
        let i = b.index_of(y);
        assert((a + b)[a.len() + i] == y);
    }
    if (a + b).contains(y) {
        let i = (a + b).index_of(y);
        if i < a.len() {
            assert(a[i] == y);
        } else {
            assert(b[i - a.len()] == y);
        }
    }
}

/// The ids that the selectors name; the first selector that names nothing where
/// there is one.
fn match_all(conversations: &Vec<ConversationSummary>, selectors: &Vec<String>) -> (r: Result<
    Vec<String>,
    String,
>)
    ensures
        match r {
            Ok(v) => {
                &&& first_unknown(selectors.deep_view(), conversations.deep_view(), 0) is None
                &&& forall|id: Seq<char>|
                    #![trigger v.deep_view().contains(id)]
                    v.deep_view().contains(id) <==> named_id(
                        selectors.deep_view(),
                        conversations.deep_view(),
                        id,
                    )
            },
            Err(s) => first_unknown(selectors.deep_view(), conversations.deep_view(), 0) == Some(
                s@,
            ),
        },
{
    let ghost cs = conversations.deep_view();
    let ghost ss = selectors.deep_view();
    let mut v: Vec<String> = Vec::new();
    let mut s: usize = 0;
    while s < selectors.len()
        invariant
            s <= selectors@.len(),
            cs == conversations.deep_view(),
            ss == selectors.deep_view(),
            first_unknown(ss, cs, 0) == first_unknown(ss, cs, s as int),
            forall|id: Seq<char>|
                #![trigger v.deep_view().contains(id)]
                v.deep_view().contains(id) <==> named_id(ss.take(s as int), cs, id),
        decreases selectors@.len() - s,
    {
        assert(ss[s as int] == selectors@[s as int]@);
        let mut hits = match_selector(conversations, selectors[s].as_str());
        if hits.len() == 0 {
            return Err(selectors[s].clone());
        }
        let ghost was = v.deep_view();
        let ghost new = hits.deep_view();
        v.append(&mut hits);
        assert(v.deep_view() =~= was + new);
        proof {
            assert forall|id: Seq<char>|
                #![trigger v.deep_view().contains(id)]
                v.deep_view().contains(id) <==> named_id(ss.take(s + 1), cs, id) by {
                lemma_add_contains(was, new, id);
                lemma_named_step(ss, cs, id, s as int);
            }
        }
        s += 1;
    }
    assert(ss.take(s as int) =~= ss);
    Ok(v)
}

proof fn lemma_named_step(ss: Seq<Seq<char>>, cs: Seq<SummaryModel>, id: Seq<char>, s: int)
    requires
        0 <= s < ss.len(),
    ensures
        named_id(ss.take(s + 1), cs, id) <==> named_id(ss.take(s), cs, id) || exists|i: int|
            0 <= i < cs.len() && #[trigger] names(ss[s], cs[i]) && cs[i].slack_id == id,
{
    let a = ss.take(s);
    let b = ss.take(s + 1);
    if named_id(b, cs, id) {
        let (t, i) = choose|t: int, i: int|
            0 <= t < b.len() && 0 <= i < cs.len() && #[trigger] names(b[t], cs[i])
                && cs[i].slack_id == id;
        if t < s {
            assert(names(a[t], cs[i]));
        } else {
            assert(names(ss[s], cs[i]));
        }
    }
    if named_id(a, cs, id) {
        let (t, i) = choose|t: int, i: int|
            0 <= t < a.len() && 0 <= i < cs.len() && #[trigger] names(a[t], cs[i])
                && cs[i].slack_id == id;
        assert(names(b[t], cs[i]));
    }
    if exists|i: int| 0 <= i < cs.len() && #[trigger] names(ss[s], cs[i]) && cs[i].slack_id == id {
        let i = choose|i: int|
            0 <= i < cs.len() && #[trigger] names(ss[s], cs[i]) && cs[i].slack_id == id;
        assert(names(b[s], cs[i]));
    }
}

/// The ids that the flags ask for by kind.
fn ids_by_kind(conversations: &Vec<ConversationSummary>, filter: &Filter) -> (r: Vec<String>)
    ensures
        forall|id: Seq<char>|
            #![trigger r.deep_view().contains(id)]
            r.deep_view().contains(id) <==> asked_by_kind(
                filter.deep_view(),
                conversations.deep_view(),
                id,
            ),
{
    let ghost cs = conversations.deep_view();
    let ghost f = filter.deep_view();
    let mut r: Vec<String> = Vec::new();
    let mut i: usize = 0;
    while i < conversations.len()
        invariant
            i <= conversations@.len(),
            cs == conversations.deep_view(),
            f == filter.deep_view(),
            forall|id: Seq<char>|
                #![trigger r.deep_view().contains(id)]
                r.deep_view().contains(id) <==> exists|k: int|
                    0 <= k < i && f.asks_kind((#[trigger] cs[k]).kind) && cs[k].slack_id == id,
        decreases conversations@.len() - i,
    {
        let ghost was = r.deep_view();
        let c = &conversations[i];
        assert(cs[i as int] == conversations@[i as int].deep_view());
        let by_kind = filter.all || match c.kind {
            ChannelKind::Public => filter.all_public,
            ChannelKind::Private => filter.all_private,
            ChannelKind::Dm | ChannelKind::GroupDm => filter.all_dms,
        };
        if by_kind {
            r.push(c.slack_id.clone());
            assert(r.deep_view() =~= was.push(c.slack_id@));
        }
        proof {
            assert forall|id: Seq<char>|
                #![trigger r.deep_view().contains(id)]
                r.deep_view().contains(id) <==> exists|k: int|
                    0 <= k < i + 1 && f.asks_kind((#[trigger] cs[k]).kind) && cs[k].slack_id == id by {
                lemma_push_contains(was, cs[i as int].slack_id, id);
                if was.contains(id) {
                    let k = choose|k: int|
                        0 <= k < i && f.asks_kind((#[trigger] cs[k]).kind) && cs[k].slack_id == id;
                    assert(cs[k].slack_id == id);
                }
                if by_kind && id == cs[i as int].slack_id {
                    assert(f.asks_kind(cs[i as int].kind));
                }
            }
        }
        i += 1;
    }
    r
}

/// The conversations that are not among `selected`, by id.
pub fn complement(conversations: &Vec<ConversationSummary>, selected: &Vec<String>) -> (r: Vec<
    String,
>)
    ensures
        r.deep_view() == skipped_ids(selected.deep_view(), conversations.deep_view()),
{
    let ghost cs = conversations.deep_view();
    let ghost chosen = selected.deep_view();
    let ghost pred = |c: SummaryModel| !chosen.contains(c.slack_id);
    let mut r: Vec<String> = Vec::new();
    assert(r.deep_view() =~= ids(cs.take(0).filter(pred))) by {
        reveal(Seq::filter);
    }
    let mut i: usize = 0;
    while i < conversations.len()
        invariant
            i <= conversations@.len(),
            cs == conversations.deep_view(),
            chosen == selected.deep_view(),
            pred == (|c: SummaryModel| !chosen.contains(c.slack_id)),
            r.deep_view() == ids(cs.take(i as int).filter(pred)),
        decreases conversations@.len() - i,
    {
        let ghost was = r.deep_view();
        let ghost upto = cs.take(i + 1);
        let ghost ahead = cs.take(i as int).filter(pred);
        assert(upto.drop_last() =~= cs.take(i as int));
        assert(upto.last() == conversations@[i as int].deep_view());
        assert(upto.filter(pred) == if pred(upto.last()) {
            ahead.push(upto.last())
        } else {
            ahead
        }) by {
            reveal(Seq::filter);
        }
        if !holds(selected, &conversations[i].slack_id) {
            r.push(conversations[i].slack_id.clone());
            assert(r.deep_view() =~= was.push(upto.last().slack_id));
            assert(was.push(upto.last().slack_id) =~= ids(ahead.push(upto.last())));
        }
        i += 1;
    }
    assert(cs.take(i as int) =~= cs);
    r
}

/// Apply a filter to an inventory.
///
/// Errors when a selector matches nothing, or when the result is empty — both
/// mean the operator asked for something they are not going to get.
pub fn resolve(inventory: &Inventory, filter: &Filter) -> (r: Result<Resolved, Error>)
    ensures
        outcome(r) == resolution(filter.deep_view(), inventory.models()),
{
    let ghost cs = inventory.models();
    let ghost f = filter.deep_view();
    if filter.is_empty() {
        return Err(Error::NoChannelsSelected);
    }
    let conversations = &inventory.conversations;
    let by_kind = ids_by_kind(conversations, filter);
    // Explicit picks bypass the archived/empty defaults — naming a channel is
    // a clearer signal of intent than a blanket flag.
    let explicit = match match_all(conversations, &filter.included) {
        Ok(v) => v,
        Err(selector) => {
            return Err(Error::UnknownChannel { selector });
        },
    };
    let excluded = match match_all(conversations, &filter.exclude) {
        Ok(v) => v,
        Err(selector) => {
            return Err(Error::UnknownExcludedChannel { selector });
        },
    };
    let ghost pred = |c: SummaryModel| picks(f, cs, c);
    let mut selected: Vec<String> = Vec::new();
    assert(selected.deep_view() =~= ids(cs.take(0).filter(pred))) by {
        reveal(Seq::filter);
    }
    let mut i: usize = 0;
    while i < conversations.len()
        invariant
            i <= conversations@.len(),
            *conversations == inventory.conversations,
            cs == conversations.deep_view(),
            f == filter.deep_view(),
            pred == (|c: SummaryModel| picks(f, cs, c)),
            forall|id: Seq<char>|
                #![trigger by_kind.deep_view().contains(id)]
                by_kind.deep_view().contains(id) <==> asked_by_kind(f, cs, id),
            forall|id: Seq<char>|
                #![trigger explicit.deep_view().contains(id)]
                explicit.deep_view().contains(id) <==> named_id(f.included, cs, id),
            forall|id: Seq<char>|
                #![trigger excluded.deep_view().contains(id)]
                excluded.deep_view().contains(id) <==> named_id(f.exclude, cs, id),
            selected.deep_view() == ids(cs.take(i as int).filter(pred)),
        decreases conversations@.len() - i,
    {
        let ghost was = selected.deep_view();
        let ghost upto = cs.take(i + 1);
        let ghost ahead = cs.take(i as int).filter(pred);
        assert(upto.drop_last() =~= cs.take(i as int));
        assert(upto.last() == conversations@[i as int].deep_view());
        assert(upto.filter(pred) == if pred(upto.last()) {
            ahead.push(upto.last())
        } else {
            ahead
        }) by {
            reveal(Seq::filter);
        }
        let c = &conversations[i];
        let named = holds(&explicit, &c.slack_id);
        let chosen = (holds(&by_kind, &c.slack_id) || named) && !holds(&excluded, &c.slack_id);
        // Apply the archived/empty defaults, but never to an explicit pick.
        let archived_ok = filter.include_archived || !c.is_archived || named;
        let empty_ok = filter.include_empty || c.message_count > 0 || named;
        if chosen && archived_ok && empty_ok {
            selected.push(c.slack_id.clone());
            assert(selected.deep_view() =~= was.push(upto.last().slack_id));
            assert(was.push(upto.last().slack_id) =~= ids(ahead.push(upto.last())));
        }
        i += 1;
    }
    assert(cs.take(i as int) =~= cs);
    assert(selected.deep_view().len() == selected@.len());
    if selected.len() == 0 {
        return Err(Error::NoConversationsMatched);
    }
    let skipped = complement(conversations, &selected);
    Ok(Resolved { selected, skipped })
}

// ── selector lists ───────────────────────────────────────────────────────────

/// The pieces that hold something, trimmed.
pub open spec fn tidied(pieces: Seq<Seq<char>>) -> Seq<Seq<char>>
    decreases pieces.len(),
{
    if pieces.len() == 0 {
        seq![]
    } else {
        let ahead = tidied(pieces.drop_last());
        let piece = trimmed(pieces.last());
        if piece.len() == 0 {
            ahead
        } else {
            ahead.push(piece)
        }
    }
}

/// The pieces that hold something other than a `#` comment, trimmed.
pub open spec fn without_comments(pieces: Seq<Seq<char>>) -> Seq<Seq<char>>
    decreases pieces.len(),
{
    if pieces.len() == 0 {
        seq![]
    } else {
        let ahead = without_comments(pieces.drop_last());
        let piece = trimmed(pieces.last());
        if piece.len() == 0 || piece[0] == '#' {
            ahead
        } else {
            ahead.push(piece)
        }
    }
}

/// Parse a comma-separated selector list, ignoring blanks so a trailing comma
/// is harmless.
pub fn parse_list(raw: &str) -> (r: Vec<String>)
    ensures
        r.deep_view() == tidied(split(raw@, ',')),
{
    let pieces = split_char(raw, ',');
    let ghost all = pieces.deep_view();
    let mut r: Vec<String> = Vec::new();
    assert(r.deep_view() =~= seq![]);
    let mut i: usize = 0;
    while i < pieces.len()
        invariant
            i <= pieces@.len(),
            all == pieces.deep_view(),
            r.deep_view() == tidied(all.take(i as int)),
        decreases pieces@.len() - i,
    {
        let ghost was = r.deep_view();
        let ghost upto = all.take(i + 1);
        assert(upto.drop_last() =~= all.take(i as int));
        assert(upto.last() == pieces@[i as int]@);
        let piece = trim(pieces[i].as_str());
        if !piece.as_str().is_empty() {
            r.push(piece);
            assert(r.deep_view() =~= was.push(piece@));
        }
        i += 1;
    }
    assert(all.take(i as int) =~= all);
    r
}

/// What several comma-separated lists hold, one list after the other.
pub open spec fn all_listed(raws: Seq<Seq<char>>) -> Seq<Seq<char>>
    decreases raws.len(),
{
    if raws.len() == 0 {
        seq![]
    } else {
        all_listed(raws.drop_last()) + tidied(split(raws.last(), ','))
    }
}

/// Parse several comma-separated selector lists, one after the other.
pub fn parse_lists(raws: &Vec<String>) -> (r: Vec<String>)
    ensures
        r.deep_view() == all_listed(raws.deep_view()),
{
    let ghost all = raws.deep_view();
    let mut r: Vec<String> = Vec::new();
    assert(r.deep_view() =~= seq![]);
    let mut i: usize = 0;
    while i < raws.len()
        invariant
            i <= raws@.len(),
            all == raws.deep_view(),
            r.deep_view() == all_listed(all.take(i as int)),
        decreases raws@.len() - i,
    {
        let ghost was = r.deep_view();
        let ghost upto = all.take(i + 1);
        assert(upto.drop_last() =~= all.take(i as int));
        assert(upto.last() == raws@[i as int]@);
        let mut more = parse_list(raws[i].as_str());
        let ghost new = more.deep_view();
        r.append(&mut more);
        assert(r.deep_view() =~= was + new);
        i += 1;
    }
    assert(all.take(i as int) =~= all);
    r
}

/// One selector per line of a list file, ignoring blanks and `#` comments.
pub fn list_of_lines(contents: &str) -> (r: Vec<String>)
    ensures
        r.deep_view() == without_comments(lines(contents@)),
{
    let pieces = lines_of(contents);
    let ghost all = pieces.deep_view();
    let mut r: Vec<String> = Vec::new();
    assert(r.deep_view() =~= seq![]);
    let mut i: usize = 0;
    while i < pieces.len()
        invariant
            i <= pieces@.len(),
            all == pieces.deep_view(),
            r.deep_view() == without_comments(all.take(i as int)),
        decreases pieces@.len() - i,
    {
        let ghost was = r.deep_view();
        let ghost upto = all.take(i + 1);
        assert(upto.drop_last() =~= all.take(i as int));
        assert(upto.last() == pieces@[i as int]@);
        let piece = trim(pieces[i].as_str());
        if !piece.as_str().is_empty() && piece.as_str().get_char(0) != '#' {
            r.push(piece);
            assert(r.deep_view() =~= was.push(piece@));
        }
        i += 1;
    }
    assert(all.take(i as int) =~= all);
    r
}

// ── interactive picker ───────────────────────────────────────────────────────

/// Presets offered before the per-channel list, so "select all" and "deselect
/// all" are single keystrokes rather than N toggles.
pub fn presets() -> (r: Vec<&'static str>)
    ensures
        r.deep_view() == seq![
            "All public channels (recommended)"@,
            "Everything — public, private and DMs"@,
            "Nothing preselected — choose individually"@,
        ],
{
    let mut r: Vec<&'static str> = Vec::new();
    r.push("All public channels (recommended)");
    r.push("Everything — public, private and DMs");
    r.push("Nothing preselected — choose individually");
    assert(r.deep_view() =~= seq![
        "All public channels (recommended)"@,
        "Everything — public, private and DMs"@,
        "Nothing preselected — choose individually"@,
    ]);
    r
}

/// The filter that a preset stands for.
pub open spec fn preset_model(preset: nat) -> FilterModel {
    if preset == 0 {
        FilterModel { all_public: true, ..no_filter() }
    } else if preset == 1 {
        FilterModel { all: true, ..no_filter() }
    } else {
        no_filter()
    }
}

/// The filter that a preset stands for.
pub fn preset_filter(preset: usize) -> (r: Filter)
    ensures
        r.deep_view() == preset_model(preset as nat),
{
    match preset {
        0 => Filter::public_only(),
        1 => Filter::everything(),
        _ => Filter::default(),
    }
}

/// The dates a conversation covers, or a word for none.
pub open spec fn range_text(c: SummaryModel, none: Seq<char>) -> Seq<char> {
    match (c.figures.first, c.figures.last) {
        (Some(f), Some(l)) => fmt::date_text(f as int) + " → "@ + fmt::date_text(l as int),
        _ => none,
    }
}

/// The dates a conversation covers, or a word for none.
pub fn date_range(c: &ConversationSummary, none: &str) -> (r: String)
    ensures
        r@ == range_text(c.deep_view(), none@),
{
    match (c.first_ts, c.last_ts) {
        (Some(f), Some(l)) => text::join3(fmt::date(f).as_str(), " → ", fmt::date(l).as_str()),
        _ => none.to_string(),
    }
}

/// A conversation's line in the picker.
pub open spec fn picker_line(c: SummaryModel) -> Seq<char> {
    pad_right(c.label(), 24) + " "@ + pad_right(c.kind.word(), 9) + " "@ + pad_left(
        text::dec(c.figures.messages),
        ' ',
        6,
    ) + " msgs  "@ + range_text(c, "no messages"@) + if c.is_archived {
        " [archived]"@
    } else {
        ""@
    }
}

/// One line in the picker: what it is, how big, and when it ran.
pub fn describe(c: &ConversationSummary) -> (r: String)
    ensures
        r@ == picker_line(c.deep_view()),
{
    let mut r = text::left_aligned(c.label().as_str(), 24);
    r.append(" ");
    r.append(text::left_aligned(c.kind.as_str(), 9).as_str());
    r.append(" ");
    r.append(text::right_aligned(text::decimal(c.message_count as u64).as_str(), ' ', 6).as_str());
    r.append(" msgs  ");
    r.append(date_range(c, "no messages").as_str());
    r.append(
        if c.is_archived {
            " [archived]"
        } else {
            ""
        },
    );
    r
}

/// What the picker offers: conversations with messages, and what is ticked
/// before the operator touches anything.
#[derive(Debug, Clone, PartialEq)]
pub struct Offer {
    pub ids: Vec<String>,
    pub items: Vec<String>,
    pub ticked: Vec<bool>,
}

/// The conversations that can be offered.
pub open spec fn offerable(cs: Seq<SummaryModel>) -> Seq<SummaryModel> {
    cs.filter(|c: SummaryModel| c.figures.messages > 0)
}

/// Whether a preset starts with a conversation ticked.
pub open spec fn preticked(cs: Seq<SummaryModel>, preset: nat, id: Seq<char>) -> bool {
    resolution(preset_model(preset), cs) matches Ok(r) && r.selected.contains(id)
}

/// What to offer after a preset was chosen. Everything with messages is
/// offerable; the preset decides what starts ticked. Archived channels are shown
/// but never pre-ticked, so the operator sees they exist without having to opt
/// out.
pub fn offer(inventory: &Inventory, preset: usize) -> (r: Result<Offer, Error>)
    ensures
        match r {
            Ok(o) => {
                let shown = offerable(inventory.models());
                &&& shown.len() > 0
                &&& o.ids.deep_view() == ids(shown)
                &&& o.items.deep_view() == Seq::new(shown.len(), |i: int| picker_line(shown[i]))
                &&& o.ticked@ == Seq::new(
                    shown.len(),
                    |i: int| preticked(inventory.models(), preset as nat, shown[i].slack_id),
                )
            },
            Err(e) => offerable(inventory.models()).len() == 0 && e.deep_view()
                == Failure::NoConversations,
        },
{
    let ghost cs = inventory.models();
    let preselected = match resolve(inventory, &preset_filter(preset)) {
        Ok(r) => r.selected,
        // "Nothing preselected" resolves to an error by design.
        Err(_) => Vec::new(),
    };
    assert forall|id: Seq<char>| #[trigger]
        preselected.deep_view().contains(id) == preticked(cs, preset as nat, id) by {}
    let mut ids_shown: Vec<String> = Vec::new();
    let mut items: Vec<String> = Vec::new();
    let mut ticked: Vec<bool> = Vec::new();
    let ghost pred = |c: SummaryModel| c.figures.messages > 0;
    let mut i: usize = 0;
    proof {
        reveal(Seq::filter);
        assert(cs.take(0).filter(pred) =~= seq![]);
        assert(ids_shown.deep_view() =~= ids(seq![]));
    }
    while i < inventory.conversations.len()
        invariant
            i <= inventory.conversations@.len(),
            cs == inventory.models(),
            pred == (|c: SummaryModel| c.figures.messages > 0),
            forall|id: Seq<char>| #[trigger]
                preselected.deep_view().contains(id) == preticked(cs, preset as nat, id),
            ({
                let shown = cs.take(i as int).filter(pred);
                &&& ids_shown.deep_view() == ids(shown)
                &&& items.deep_view() == Seq::new(shown.len(), |i: int| picker_line(shown[i]))
                &&& ticked@ == Seq::new(
                    shown.len(),
                    |i: int| preticked(cs, preset as nat, shown[i].slack_id),
                )
            }),
        decreases inventory.conversations@.len() - i,
    {
        let ghost upto = cs.take(i + 1);
        let ghost ahead = cs.take(i as int).filter(pred);
        let ghost was_ids = ids_shown.deep_view();
        let ghost was_items = items.deep_view();
        let ghost was_ticked = ticked@;
        assert(upto.drop_last() =~= cs.take(i as int));
        assert(upto.last() == inventory.conversations@[i as int].deep_view());
        assert(upto.filter(pred) == if pred(upto.last()) {
            ahead.push(upto.last())
        } else {
            ahead
        }) by {
            reveal(Seq::filter);
        }
        let c = &inventory.conversations[i];
        if c.message_count > 0 {
            let ghost shown = ahead.push(upto.last());
            ids_shown.push(c.slack_id.clone());
            let line = describe(c);
            items.push(line);
            let tick = holds(&preselected, &c.slack_id);
            ticked.push(tick);
            assert(ids_shown.deep_view() =~= was_ids.push(c.slack_id@));
            assert(ids_shown.deep_view() =~= ids(shown));
            assert(items.deep_view() =~= was_items.push(line@));
            assert(items.deep_view() =~= Seq::new(shown.len(), |i: int| picker_line(shown[i])));
            assert(ticked@ =~= Seq::new(
                shown.len(),
                |i: int| preticked(cs, preset as nat, shown[i].slack_id),
            ));
        }
        i += 1;
    }
    assert(cs.take(i as int) =~= cs);
    assert(ids_shown.deep_view().len() == ids_shown@.len());
    if ids_shown.len() == 0 {
        return Err(Error::NoConversations);
    }
    Ok(Offer { ids: ids_shown, items, ticked })
}

/// The filter for what was ticked of the ids that were offered.
pub open spec fn picked_model(ids: Seq<Seq<char>>, picked: Seq<usize>) -> Result<
    FilterModel,
    Failure,
> {
    if picked.len() == 0 {
        Err(Failure::NothingSelected)
    } else {
        Ok(
            FilterModel {
                included: Seq::new(picked.len(), |i: int| ids[picked[i] as int]),
                ..no_filter()
            },
        )
    }
}

/// The filter for what was ticked: explicit ids only — the picker's output is
/// the whole truth.
pub fn picked_filter(offer: &Offer, picked: &Vec<usize>) -> (r: Result<Filter, Error>)
    requires
        forall|i: int| 0 <= i < picked@.len() ==> #[trigger] picked@[i] < offer.ids@.len(),
    ensures
        outcome(r) == picked_model(offer.ids.deep_view(), picked@),
{
    if picked.len() == 0 {
        return Err(Error::NothingSelected);
    }
    let mut filter = Filter::default();
    let mut i: usize = 0;
    while i < picked.len()
        invariant
            i <= picked@.len(),
            forall|k: int| 0 <= k < picked@.len() ==> #[trigger] picked@[k] < offer.ids@.len(),
            filter.deep_view() == (FilterModel {
                included: Seq::new(i as nat, |k: int| offer.ids.deep_view()[picked@[k] as int]),
                ..no_filter()
            }),
        decreases picked@.len() - i,
    {
        let ghost was = filter.included.deep_view();
        filter.included.push(offer.ids[picked[i]].clone());
        assert(filter.included.deep_view() =~= was.push(
            offer.ids.deep_view()[picked@[i as int] as int],
        ));
        i += 1;
        assert(filter.included.deep_view() =~= Seq::new(
            i as nat,
            |k: int| offer.ids.deep_view()[picked@[k] as int],
        ));
    }
    Ok(filter)
}

// ── laws ─────────────────────────────────────────────────────────────────────

/// A filter that asks for nothing is refused rather than read as everything.
pub proof fn law_nothing_asked_is_refused(f: FilterModel, cs: Seq<SummaryModel>)
    requires
        f.asks_nothing(),
    ensures
        resolution(f, cs) == Err::<ResolvedModel, Failure>(Failure::NoChannelsSelected),
{
}

/// A selector that names nothing is an error, whatever else was asked for.
pub proof fn law_unknown_selector_is_an_error(f: FilterModel, cs: Seq<SummaryModel>, s: int)
    requires
        (0 <= s < f.included.len() && !names_any(f.included[s], cs)) || (0 <= s < f.exclude.len()
            && !names_any(f.exclude[s], cs)),
    ensures
        resolution(f, cs) is Err,
{
    if 0 <= s < f.included.len() && !names_any(f.included[s], cs) {
        lemma_first_unknown(f.included, cs, 0, s);
    }
    if 0 <= s < f.exclude.len() && !names_any(f.exclude[s], cs) {
        lemma_first_unknown(f.exclude, cs, 0, s);
    }
}

proof fn lemma_first_unknown(
    selectors: Seq<Seq<char>>,
    cs: Seq<SummaryModel>,
    from: int,
    s: int,
)
    requires
        0 <= from <= s < selectors.len(),
        !names_any(selectors[s], cs),
    ensures
        first_unknown(selectors, cs, from) is Some,
    decreases s - from,
{
    if names_any(selectors[from], cs) {
        lemma_first_unknown(selectors, cs, from + 1, s);
    }
}

/// Every conversation's id is either selected or skipped, never both, and never
/// neither; nothing else is.
pub proof fn law_selected_and_skipped_partition(f: FilterModel, cs: Seq<SummaryModel>)
    requires
        resolution(f, cs) is Ok,
    ensures
        ({
            let r = resolution(f, cs)->Ok_0;
            &&& forall|i: int|
                0 <= i < cs.len() ==> (r.selected.contains((#[trigger] cs[i]).slack_id)
                    != r.skipped.contains(cs[i].slack_id))
            &&& forall|id: Seq<char>| #[trigger]
                r.selected.contains(id) ==> ids(cs).contains(id)
            &&& forall|id: Seq<char>| #[trigger] r.skipped.contains(id) ==> ids(cs).contains(id)
        }),
{
    let r = resolution(f, cs)->Ok_0;
    let skip = |c: SummaryModel| !r.selected.contains(c.slack_id);
    let pick = |c: SummaryModel| picks(f, cs, c);
    lemma_kept(cs, skip);
    lemma_kept(cs, pick);
    assert forall|i: int| 0 <= i < cs.len() implies (r.selected.contains((#[trigger] cs[i]).slack_id)
        != r.skipped.contains(cs[i].slack_id)) by {
        let id = cs[i].slack_id;
        let rest = cs.filter(skip);
        if !r.selected.contains(id) {
            assert(skip(cs[i]));
            assert(rest.contains(cs[i]));
            let k = rest.index_of(cs[i]);
            assert(ids(rest)[k] == id);
            assert(r.skipped.contains(id));
        } else if r.skipped.contains(id) {
            let k = r.skipped.index_of(id);
            assert(skip(rest[k]));
        }
    }
    assert forall|id: Seq<char>| #[trigger] r.selected.contains(id) implies ids(cs).contains(id) by {
        lemma_filtered_id(cs, pick, id);
    }
    assert forall|id: Seq<char>| #[trigger] r.skipped.contains(id) implies ids(cs).contains(id) by {
        lemma_filtered_id(cs, skip, id);
    }
}

proof fn lemma_filtered_id(cs: Seq<SummaryModel>, pred: spec_fn(SummaryModel) -> bool, id: Seq<char>)
    requires
        ids(cs.filter(pred)).contains(id),
    ensures
        ids(cs).contains(id),
{
    lemma_kept(cs, pred);
    let kept = cs.filter(pred);
    let k = ids(kept).index_of(id);
    assert(cs.contains(kept[k]));
    let i = cs.index_of(kept[k]);
    assert(ids(cs)[i] == id);
}

/// Where no two conversations share an id, selected and skipped add up to the
/// inventory.
pub proof fn law_selected_and_skipped_add_up(f: FilterModel, cs: Seq<SummaryModel>)
    requires
        resolution(f, cs) is Ok,
        ids(cs).no_duplicates(),
    ensures
        ({
            let r = resolution(f, cs)->Ok_0;
            r.selected.len() + r.skipped.len() == cs.len()
        }),
{
    let r = resolution(f, cs)->Ok_0;
    let pick = |c: SummaryModel| picks(f, cs, c);
    let skip = |c: SummaryModel| !r.selected.contains(c.slack_id);
    assert forall|i: int| 0 <= i < cs.len() implies pick(#[trigger] cs[i]) != skip(cs[i]) by {
        lemma_kept(cs, pick);
        let kept = cs.filter(pick);
        if pick(cs[i]) {
            assert(kept.contains(cs[i]));
            let k = kept.index_of(cs[i]);
            assert(ids(kept)[k] == cs[i].slack_id);
        } else if r.selected.contains(cs[i].slack_id) {
            let k = ids(kept).index_of(cs[i].slack_id);
            assert(pick(kept[k]));
            assert(cs.contains(kept[k]));
            let j = cs.index_of(kept[k]);
            assert(ids(cs)[j] == ids(cs)[i]);
        }
    }
    lemma_filters_add_up(cs, pick, skip);
}

proof fn lemma_filters_add_up(
    cs: Seq<SummaryModel>,
    a: spec_fn(SummaryModel) -> bool,
    b: spec_fn(SummaryModel) -> bool,
)
    requires
        forall|i: int| 0 <= i < cs.len() ==> a(#[trigger] cs[i]) != b(cs[i]),
    ensures
        cs.filter(a).len() + cs.filter(b).len() == cs.len(),
    decreases cs.len(),
{
    reveal(Seq::filter);
    if cs.len() > 0 {
        assert forall|i: int| 0 <= i < cs.drop_last().len() implies a(#[trigger] cs.drop_last()[i])
            != b(cs.drop_last()[i]) by {
            assert(cs.drop_last()[i] == cs[i]);
        }
        lemma_filters_add_up(cs.drop_last(), a, b);
        assert(a(cs[cs.len() - 1]) != b(cs[cs.len() - 1]));
    }
}

/// Naming a conversation selects it even when it is archived or empty, unless it
/// was also excluded.
pub proof fn law_naming_overrides_the_defaults(f: FilterModel, cs: Seq<SummaryModel>, i: int)
    requires
        resolution(f, cs) is Ok,
        0 <= i < cs.len(),
        named_id(f.included, cs, cs[i].slack_id),
        !named_id(f.exclude, cs, cs[i].slack_id),
    ensures
        resolution(f, cs)->Ok_0.selected.contains(cs[i].slack_id),
{
    let pick = |c: SummaryModel| picks(f, cs, c);
    lemma_kept(cs, pick);
    assert(pick(cs[i]));
    let kept = cs.filter(pick);
    let k = kept.index_of(cs[i]);
    assert(ids(kept)[k] == cs[i].slack_id);
}

/// What is excluded is not selected, however it was asked for.
pub proof fn law_exclusion_wins(f: FilterModel, cs: Seq<SummaryModel>, id: Seq<char>)
    requires
        resolution(f, cs) is Ok,
        named_id(f.exclude, cs, id),
    ensures
        !resolution(f, cs)->Ok_0.selected.contains(id),
{
    let pick = |c: SummaryModel| picks(f, cs, c);
    lemma_kept(cs, pick);
    let kept = cs.filter(pick);
    if ids(kept).contains(id) {
        let k = ids(kept).index_of(id);
        assert(pick(kept[k]));
    }
}

/// Asking for public channels only never selects anything but public channels,
/// so long as no conversation of another kind shares a public channel's id.
pub proof fn law_public_only_stays_public(cs: Seq<SummaryModel>, i: int)
    requires
        resolution(FilterModel { all_public: true, ..no_filter() }, cs) is Ok,
        ids(cs).no_duplicates(),
        0 <= i < cs.len(),
        resolution(FilterModel { all_public: true, ..no_filter() }, cs)->Ok_0.selected.contains(
            cs[i].slack_id,
        ),
    ensures
        cs[i].kind is Public,
        !cs[i].is_archived,
        cs[i].figures.messages > 0,
{
    let f = FilterModel { all_public: true, ..no_filter() };
    let pick = |c: SummaryModel| picks(f, cs, c);
    lemma_kept(cs, pick);
    let kept = cs.filter(pick);
    let k = ids(kept).index_of(cs[i].slack_id);
    assert(pick(kept[k]));
    assert(cs.contains(kept[k]));
    let j = cs.index_of(kept[k]);
    assert(ids(cs)[j] == ids(cs)[i]);
    assert(asked_by_kind(f, cs, cs[i].slack_id));
    let m = choose|m: int|
        0 <= m < cs.len() && f.asks_kind((#[trigger] cs[m]).kind) && cs[m].slack_id == cs[i].slack_id;
    assert(ids(cs)[m] == ids(cs)[i]);
}

/// Archived and empty conversations are left out unless they are named or the
/// flags ask for them, so long as no two conversations share an id.
pub proof fn law_archived_and_empty_are_left_out(f: FilterModel, cs: Seq<SummaryModel>, i: int)
    requires
        resolution(f, cs) is Ok,
        ids(cs).no_duplicates(),
        0 <= i < cs.len(),
        !named_id(f.included, cs, cs[i].slack_id),
        (cs[i].is_archived && !f.include_archived) || (cs[i].figures.messages == 0
            && !f.include_empty),
    ensures
        !resolution(f, cs)->Ok_0.selected.contains(cs[i].slack_id),
        resolution(f, cs)->Ok_0.skipped.contains(cs[i].slack_id),
{
    let pick = |c: SummaryModel| picks(f, cs, c);
    lemma_kept(cs, pick);
    let kept = cs.filter(pick);
    if ids(kept).contains(cs[i].slack_id) {
        let k = ids(kept).index_of(cs[i].slack_id);
        assert(pick(kept[k]));
        assert(cs.contains(kept[k]));
        let j = cs.index_of(kept[k]);
        assert(ids(cs)[j] == ids(cs)[i]);
    }
    law_selected_and_skipped_partition(f, cs);
}

} // verus!
