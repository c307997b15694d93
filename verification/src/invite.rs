//! `invite` — work out who to invite, then DM each of them a join link.
//!
//! Split the same way as the rest of the tool: planning needs no network at
//! all. The network half lives behind the traits in [`slack`] and [`buzz`], so
//! the planner can be exercised end to end without a token.
//!
//! # Planning needs no Slack API
//!
//! The obvious design is `conversations.members` → `users.list` → invite. It
//! turns out neither call is needed to *plan*: the export already contains
//! channel membership and the user table, and `chat.postMessage` accepts a user
//! id directly as its `channel`, opening the DM implicitly. So no email address
//! is required and no directory lookup happens — a Slack token is needed only to
//! actually send.
//!
//! The cost of that is staleness: the export is a snapshot, so someone who left
//! after it was taken still looks active. The export's own `deleted` flag covers
//! anyone deactivated *before* the export, which is the common case.
//!
//! # Why this stage is the careful one
//!
//! Every other stage is recoverable. This one messages real colleagues, once,
//! and cannot be unsent. Hence: dry run is the default, the candidate set is
//! derived from the channels actually imported rather than the whole workspace,
//! and every exclusion is reported rather than silently applied.

use vstd::prelude::*;

use crate::error::{Error, Failure};
use crate::selection::{outcome, Offer};
use crate::tally::{bumped, count_in, Tally};
use crate::text;

pub mod buzz;
pub mod laws;
pub mod naming;
pub mod outcomes;
pub mod people;
pub mod run;
pub mod slack;

pub use crate::invite::people::{candidates, Exclusion, Person, PersonModel};
pub use crate::invite::run::{execute, Outcome};

verus! {

/// Which people to consider.
#[derive(Debug, Clone, Copy, PartialEq, Eq, Structural)]
pub enum Scope {
    /// Members of the channels that were imported. The default: nobody gets a
    /// DM because of a channel the operator chose not to import.
    ImportedChannelMembers,
    /// Everyone in the export's user table.
    Everyone,
    /// Only people who actually authored a message in the imported channels.
    /// Smallest set; good for a pilot, but omits lurkers.
    PostersOnly,
}

impl Default for Scope {
    fn default() -> (r: Self)
        ensures
            r is ImportedChannelMembers,
    {
        Scope::ImportedChannelMembers
    }
}

/// What the operator asked for.
#[derive(Debug, Clone)]
pub struct PersonFilter {
    pub scope: Scope,
    /// Explicit picks by handle or Slack id. Non-empty means *only* these,
    /// regardless of `scope`.
    pub included: Vec<String>,
    pub exclude: Vec<String>,
}

/// The model of a [`PersonFilter`].
#[verifier::ext_equal]
pub struct PersonFilterModel {
    pub scope: Scope,
    pub included: Seq<Seq<char>>,
    pub exclude: Seq<Seq<char>>,
}

impl DeepView for PersonFilter {
    type V = PersonFilterModel;

    open spec fn deep_view(&self) -> PersonFilterModel {
        PersonFilterModel {
            scope: self.scope,
            included: self.included.deep_view(),
            exclude: self.exclude.deep_view(),
        }
    }
}

/// A filter that names nobody.
pub open spec fn scoped(scope: Scope) -> PersonFilterModel {
    PersonFilterModel { scope, included: seq![], exclude: seq![] }
}

impl Default for PersonFilter {
    fn default() -> (r: Self)
        ensures
            r.deep_view() == scoped(Scope::ImportedChannelMembers),
    {
        PersonFilter {
            scope: Scope::ImportedChannelMembers,
            included: Vec::new(),
            exclude: Vec::new(),
        }
    }
}

/// A person who will be invited.
#[derive(Debug, Clone, PartialEq)]
pub struct Recipient {
    pub person: Person,
}

/// A recipient is modelled by the person.
impl DeepView for Recipient {
    type V = PersonModel;

    open spec fn deep_view(&self) -> PersonModel {
        self.person.deep_view()
    }
}

/// The full plan, including who is being left out and why.
#[derive(Debug, Clone, PartialEq)]
pub struct Plan {
    pub recipients: Vec<Recipient>,
    pub excluded: Vec<(Person, Exclusion)>,
}

/// The model of a [`Plan`].
#[verifier::ext_equal]
pub struct PlanModel {
    pub recipients: Seq<PersonModel>,
    pub excluded: Seq<(PersonModel, Exclusion)>,
}

impl DeepView for Plan {
    type V = PlanModel;

    open spec fn deep_view(&self) -> PlanModel {
        PlanModel {
            recipients: self.recipients.deep_view(),
            excluded: self.excluded.deep_view(),
        }
    }
}

/// How often each reason came up.
pub open spec fn reason_counts(excluded: Seq<(PersonModel, Exclusion)>) -> Map<Seq<char>, nat>
    decreases excluded.len(),
{
    if excluded.len() == 0 {
        Map::empty()
    } else {
        bumped(reason_counts(excluded.drop_last()), excluded.last().1.words())
    }
}

impl Plan {
    pub fn len(&self) -> (r: usize)
        ensures
            r == self.deep_view().recipients.len(),
    {
        self.recipients.len()
    }

    pub fn is_empty(&self) -> (r: bool)
        ensures
            r == (self.deep_view().recipients.len() == 0),
    {
        self.recipients.len() == 0
    }

    /// Counts per exclusion reason, for the summary line.
    pub fn exclusion_counts(&self) -> (r: Tally)
        ensures
            r@ == reason_counts(self.deep_view().excluded),
    {
        let ghost all = self.deep_view().excluded;
        let mut counts = Tally::new();
        let mut i: usize = 0;
        while i < self.excluded.len()
            invariant
                i <= self.excluded@.len(),
                all == self.deep_view().excluded,
                counts@ == reason_counts(all.take(i as int)),
                forall|name: Seq<char>| #[trigger] count_in(counts@, name) <= i,
            decreases self.excluded@.len() - i,
        {
            let ghost was = counts@;
            assert(all.take(i + 1).drop_last() =~= all.take(i as int));
            assert(all.take(i + 1).last() == all[i as int]);
            let reason = self.excluded[i].1;
            assert(all[i as int].1 == reason);
            let words = reason.describe();
            counts.bump(words);
            assert forall|name: Seq<char>| #[trigger] count_in(counts@, name) <= i + 1 by {
                assert(count_in(was, name) <= i);
                assert(count_in(was, words@) <= i);
            }
            i += 1;
        }
        assert(all.take(i as int) =~= all);
        counts
    }
}

/// What a selector asks for, without spaces around it and the `@` before it.
pub open spec fn needle(selector: Seq<char>) -> Seq<char> {
    text::strip_leading(text::trimmed(selector), '@')
}

/// Whether a selector names a person: by id, or by handle or display name
/// without regard to case.
pub open spec fn picks(selector: Seq<char>, p: PersonModel) -> bool {
    p.slack_id == needle(selector) || text::fold_eq(p.name, needle(selector)) || text::fold_eq(
        p.display_name,
        needle(selector),
    )
}

pub open spec fn picks_any(selector: Seq<char>, people: Seq<PersonModel>) -> bool {
    exists|i: int| 0 <= i < people.len() && #[trigger] picks(selector, people[i])
}

/// The first selector that names nobody.
pub open spec fn first_unknown(selectors: Seq<Seq<char>>, people: Seq<PersonModel>) -> Option<
    Seq<char>,
>
    decreases selectors.len(),
{
    if selectors.len() == 0 {
        None
    } else {
        match first_unknown(selectors.drop_last(), people) {
            Some(s) => Some(s),
            None => if picks_any(selectors.last(), people) {
                None
            } else {
                Some(selectors.last())
            },
        }
    }
}

/// Whether an id is that of someone the selectors name.
pub open spec fn picked(selectors: Seq<Seq<char>>, people: Seq<PersonModel>, id: Seq<char>) -> bool {
    exists|j: int, i: int|
        0 <= j < selectors.len() && 0 <= i < people.len() && #[trigger] picks(
            selectors[j],
            people[i],
        ) && people[i].slack_id == id
}

/// Whether the filter asks for a person. Naming anyone means only those named.
pub open spec fn wanted(
    filter: PersonFilterModel,
    people: Seq<PersonModel>,
    p: PersonModel,
) -> bool {
    if filter.included.len() > 0 {
        picked(filter.included, people, p.slack_id)
    } else {
        match filter.scope {
            Scope::Everyone => true,
            Scope::ImportedChannelMembers => p.channels.len() > 0,
            Scope::PostersOnly => p.message_count > 0,
        }
    }
}

/// Why a person is not invited; nothing when they are. Being a bot or
/// deactivated weighs more than anything the operator says, and being invited
/// already is asked last.
pub open spec fn verdict(
    filter: PersonFilterModel,
    people: Seq<PersonModel>,
    done: Seq<Seq<char>>,
    p: PersonModel,
) -> Option<Exclusion> {
    if p.barred() is Some {
        p.barred()
    } else if picked(filter.exclude, people, p.slack_id) {
        Some(Exclusion::ExcludedByOperator)
    } else if !wanted(filter, people, p) {
        if filter.included.len() > 0 {
            Some(Exclusion::NotSelected)
        } else if filter.scope is PostersOnly {
            Some(Exclusion::NeverPosted)
        } else {
            Some(Exclusion::NotInImportedChannels)
        }
    } else if done.contains(p.slack_id) {
        Some(Exclusion::AlreadyInvited)
    } else {
        None
    }
}

/// Those of `list` who are invited and those who are not, in order.
pub open spec fn sorted_out(
    filter: PersonFilterModel,
    people: Seq<PersonModel>,
    done: Seq<Seq<char>>,
    list: Seq<PersonModel>,
) -> PlanModel
    decreases list.len(),
{
    if list.len() == 0 {
        PlanModel { recipients: seq![], excluded: seq![] }
    } else {
        let before = sorted_out(filter, people, done, list.drop_last());
        match verdict(filter, people, done, list.last()) {
            None => PlanModel { recipients: before.recipients.push(list.last()), ..before },
            Some(why) => PlanModel { excluded: before.excluded.push((list.last(), why)), ..before },
        }
    }
}

/// The plan for a filter. A selector that names nobody is refused.
pub open spec fn planned(
    people: Seq<PersonModel>,
    filter: PersonFilterModel,
    done: Seq<Seq<char>>,
) -> Result<PlanModel, Failure> {
    match first_unknown(filter.included, people) {
        Some(selector) => Err(Failure::UnknownPerson { flag: "--users"@, selector }),
        None => match first_unknown(filter.exclude, people) {
            Some(selector) => Err(Failure::UnknownPerson { flag: "--exclude-users"@, selector }),
            None => Ok(sorted_out(filter, people, done, people)),
        },
    }
}

/// Match selectors against people, erroring on any that match nothing.
///
/// Same rule as channel selection: a typo must fail loudly. Silently skipping a
/// misspelled handle means someone never gets invited and nobody notices.
fn resolve_selectors(people: &[Person], selectors: &Vec<String>, flag: &str) -> (r: Result<
    Vec<String>,
    Error,
>)
    ensures
        match r {
            Ok(ids) => {
                &&& first_unknown(selectors.deep_view(), people.deep_view()) is None
                &&& forall|id: Seq<char>| #[trigger]
                    ids.deep_view().contains(id) <==> picked(
                        selectors.deep_view(),
                        people.deep_view(),
                        id,
                    )
                &&& ids@.len() == 0 <==> selectors@.len() == 0
            },
            Err(e) => first_unknown(selectors.deep_view(), people.deep_view()) matches Some(selector)
                && e.deep_view() == (Failure::UnknownPerson { flag: flag@, selector }),
        },
{
    let ghost ps = people.deep_view();
    let ghost ss = selectors.deep_view();
    let mut out: Vec<String> = Vec::new();
    let mut j: usize = 0;
    while j < selectors.len()
        invariant
            j <= selectors@.len(),
            ps == people.deep_view(),
            ss == selectors.deep_view(),
            first_unknown(ss.take(j as int), ps) is None,
            forall|id: Seq<char>| #[trigger]
                out.deep_view().contains(id) <==> picked(ss.take(j as int), ps, id),
            out@.len() == 0 <==> j == 0,
        decreases selectors@.len() - j,
    {
        let ghost upto = ss.take(j + 1);
        let ghost was = out.deep_view();
        let ghost selector = selectors@[j as int]@;
        proof {
            assert(upto.drop_last() =~= ss.take(j as int));
            assert(upto.last() == selector);
        }
        let trimmed = text::trim(selectors[j].as_str());
        let sought = text::trim_start_char(trimmed.as_str(), '@');
        let mut found = false;
        let mut i: usize = 0;
        while i < people.len()
            invariant
                i <= people@.len(),
                ps == people.deep_view(),
                sought@ == needle(selector),
                found <==> exists|k: int| 0 <= k < i && #[trigger] picks(selector, ps[k]),
                out@.len() >= was.len(),
                found ==> out@.len() > 0,
                !found ==> out@.len() == was.len(),
                forall|id: Seq<char>| #[trigger]
                    out.deep_view().contains(id) <==> was.contains(id) || exists|k: int|
                        0 <= k < i && #[trigger] picks(selector, ps[k]) && ps[k].slack_id == id,
            decreases people@.len() - i,
        {
            let p = &people[i];
            let ghost before = out.deep_view();
            assert(ps[i as int] == p.deep_view());
            if text::same(p.slack_id.as_str(), sought.as_str()) || text::same_ignoring_case(
                p.name.as_str(),
                sought.as_str(),
            ) || text::same_ignoring_case(p.display_name.as_str(), sought.as_str()) {
                assert(picks(selector, ps[i as int]));
                found = true;
                out.push(p.slack_id.clone());
                proof {
                    assert(out.deep_view() =~= before.push(p.slack_id@));
                    assert forall|id: Seq<char>| #[trigger]
                        out.deep_view().contains(id) <==> before.contains(id) || id
                            == p.slack_id@ by {
                        let now = before.push(p.slack_id@);
                        assert(now.last() == p.slack_id@);
                        if before.contains(id) {
                            let k = choose|k: int| 0 <= k < before.len() && before[k] == id;
                            assert(now[k] == id);
                        }
                        if now.contains(id) && id != p.slack_id@ {
                            let k = choose|k: int| 0 <= k < now.len() && now[k] == id;
                            assert(before[k] == id);
                        }
                    }
                    assert forall|id: Seq<char>| #[trigger]
                        out.deep_view().contains(id) <==> was.contains(id) || exists|k: int|
                            0 <= k < i + 1 && #[trigger] picks(selector, ps[k]) && ps[k].slack_id
                                == id by {
                        assert(before.contains(id) <==> was.contains(id) || exists|k: int|
                            0 <= k < i && #[trigger] picks(selector, ps[k]) && ps[k].slack_id
                                == id);
                    }
                }
            }
            i += 1;
        }
        if !found {
            proof {
                assert(!picks_any(selector, ps));
                lemma_first_unknown(ss, ps, j + 1);
                assert(ss.take(ss.len() as int) =~= ss);
            }
            return Err(
                Error::UnknownPerson { flag: flag.to_string(), selector: selectors[j].clone() },
            );
        }
        proof {
            assert(picks_any(selector, ps));
            assert forall|id: Seq<char>| #[trigger]
                out.deep_view().contains(id) <==> picked(upto, ps, id) by {
                let earlier = ss.take(j as int);
                assert(was.contains(id) <==> picked(earlier, ps, id));
                if was.contains(id) {
                    let (b, a) = choose|b: int, a: int|
                        0 <= b < earlier.len() && 0 <= a < ps.len() && #[trigger] picks(
                            earlier[b],
                            ps[a],
                        ) && ps[a].slack_id == id;
                    assert(picks(upto[b], ps[a]));
                }
                if exists|k: int|
                    0 <= k < ps.len() && #[trigger] picks(selector, ps[k]) && ps[k].slack_id == id {
                    let k = choose|k: int|
                        0 <= k < ps.len() && #[trigger] picks(selector, ps[k]) && ps[k].slack_id
                            == id;
                    assert(picks(upto[j as int], ps[k]));
                }
                if picked(upto, ps, id) {
                    let (b, a) = choose|b: int, a: int|
                        0 <= b < upto.len() && 0 <= a < ps.len() && #[trigger] picks(
                            upto[b],
                            ps[a],
                        ) && ps[a].slack_id == id;
                    if b < j {
                        assert(picks(earlier[b], ps[a]));
                    } else {
                        assert(picks(selector, ps[a]));
                    }
                }
            }
        }
        j += 1;
    }
    assert(ss.take(selectors@.len() as int) =~= ss);
    Ok(out)
}

/// The first selector that names nobody stays the first, whatever follows.
proof fn lemma_first_unknown(ss: Seq<Seq<char>>, ps: Seq<PersonModel>, n: int)
    requires
        0 <= n <= ss.len(),
        first_unknown(ss.take(n), ps) is Some,
    ensures
        first_unknown(ss, ps) == first_unknown(ss.take(n), ps),
    decreases ss.len() - n,
{
    if n < ss.len() {
        assert(ss.take(n + 1).drop_last() =~= ss.take(n));
        lemma_first_unknown(ss, ps, n + 1);
    } else {
        assert(ss.take(n) =~= ss);
    }
}

/// Apply a filter to the candidates.
///
/// `already_invited` is consulted so a resumed run does not re-DM anyone; pass
/// an empty list for a fresh plan.
pub fn plan(people: &[Person], filter: &PersonFilter, already_invited: &Vec<String>) -> (r: Result<
    Plan,
    Error,
>)
    ensures
        outcome(r) == planned(people.deep_view(), filter.deep_view(), already_invited.deep_view()),
{
    let ghost ps = people.deep_view();
    let ghost f = filter.deep_view();
    let ghost done = already_invited.deep_view();
    // Resolve explicit selectors first so a typo fails before anything else.
    let explicit = match resolve_selectors(people, &filter.included, "--users") {
        Ok(ids) => ids,
        Err(e) => return Err(e),
    };
    let excluded_ids = match resolve_selectors(people, &filter.exclude, "--exclude-users") {
        Ok(ids) => ids,
        Err(e) => return Err(e),
    };

    let mut recipients: Vec<Recipient> = Vec::new();
    let mut excluded: Vec<(Person, Exclusion)> = Vec::new();
    let mut i: usize = 0;
    while i < people.len()
        invariant
            i <= people@.len(),
            ps == people.deep_view(),
            f == filter.deep_view(),
            done == already_invited.deep_view(),
            forall|id: Seq<char>| #[trigger]
                explicit.deep_view().contains(id) <==> picked(f.included, ps, id),
            forall|id: Seq<char>| #[trigger]
                excluded_ids.deep_view().contains(id) <==> picked(f.exclude, ps, id),
            explicit@.len() == 0 <==> f.included.len() == 0,
            recipients.deep_view() == sorted_out(f, ps, done, ps.take(i as int)).recipients,
            excluded.deep_view() == sorted_out(f, ps, done, ps.take(i as int)).excluded,
        decreases people@.len() - i,
    {
        let person = &people[i];
        let ghost p = person.deep_view();
        let ghost was_in = recipients.deep_view();
        let ghost was_out = excluded.deep_view();
        proof {
            assert(ps.take(i + 1).drop_last() =~= ps.take(i as int));
            assert(ps.take(i + 1).last() == p);
        }
        // Hard exclusions win over everything, including an explicit pick:
        // naming a bot does not make it invitable.
        let barred = person.hard_excluded();
        let wanted = if explicit.len() == 0 {
            match filter.scope {
                Scope::Everyone => true,
                Scope::ImportedChannelMembers => person.channels.len() > 0,
                Scope::PostersOnly => person.message_count > 0,
            }
        } else {
            text::holds(&explicit, &person.slack_id)
        };
        let reason: Option<Exclusion> = if barred.is_some() {
            barred
        } else if text::holds(&excluded_ids, &person.slack_id) {
            Some(Exclusion::ExcludedByOperator)
        } else if !wanted {
            if explicit.len() > 0 {
                Some(Exclusion::NotSelected)
            } else {
                match filter.scope {
                    Scope::PostersOnly => Some(Exclusion::NeverPosted),
                    _ => Some(Exclusion::NotInImportedChannels),
                }
            }
        } else if text::holds(already_invited, &person.slack_id) {
            Some(Exclusion::AlreadyInvited)
        } else {
            None
        };
        assert(reason == verdict(f, ps, done, p));
        match reason {
            Some(why) => {
                excluded.push((person.clone(), why));
                assert(excluded.deep_view() =~= was_out.push((p, why)));
            },
            None => {
                recipients.push(Recipient { person: person.clone() });
                assert(recipients.deep_view() =~= was_in.push(p));
            },
        }
        i += 1;
    }
    assert(ps.take(i as int) =~= ps);
    Ok(Plan { recipients, excluded })
}

// ── reading the IR back ──────────────────────────────────────────────────────

/// The lines of an `import.jsonl` that hold a record, each with its number
/// counted from one. Blank lines hold none, but are counted.
pub open spec fn record_lines(lines: Seq<Seq<char>>) -> Seq<(usize, Seq<char>)>
    decreases lines.len(),
{
    if lines.len() == 0 {
        seq![]
    } else if text::blank(lines.last()) {
        record_lines(lines.drop_last())
    } else {
        record_lines(lines.drop_last()).push((lines.len() as usize, lines.last()))
    }
}

/// The lines of an `import.jsonl` that hold a record, with their numbers.
pub fn numbered_lines(jsonl: &str) -> (r: Vec<(usize, String)>)
    ensures
        r.deep_view() == record_lines(text::lines(jsonl@)),
{
    let lines = text::lines_of(jsonl);
    let ghost all = lines.deep_view();
    let mut r: Vec<(usize, String)> = Vec::new();
    let mut i: usize = 0;
    while i < lines.len()
        invariant
            i <= lines@.len(),
            all == lines.deep_view(),
            r.deep_view() == record_lines(all.take(i as int)),
        decreases lines@.len() - i,
    {
        let ghost was = r.deep_view();
        let ghost upto = all.take(i + 1);
        assert(upto.drop_last() =~= all.take(i as int));
        assert(upto.last() == lines@[i as int]@);
        i += 1;
        if !text::is_blank(lines[i - 1].as_str()) {
            r.push((i, lines[i - 1].clone()));
            assert(r.deep_view() =~= was.push((i, upto.last())));
        }
    }
    assert(all.take(i as int) =~= all);
    r
}

// ── the message ──────────────────────────────────────────────────────────────

/// The DM's text.
pub open spec fn dm_text(
    p: PersonModel,
    community: Seq<char>,
    invite_url: Seq<char>,
    expires: Seq<char>,
) -> Seq<char> {
    "Hi "@ + p.display_name + " — we're moving our Slack history to "@ + community
        + ", a self-hosted Buzz community.\n\nYour invite: "@ + invite_url
        + "\nThis link expires "@ + expires
        + ".\n\nNote: the imported history is an *archive*. Old messages appear under placeholder \"[archive]\" accounts, not real identities — including yours. Joining gives you your own account going forward; it does not give you ownership of the archived messages.\n\nAnyone with this link can join, so please don't forward it."@
}

/// The DM body. Deliberately plain and short: it is going to real people who
/// did not ask for it, and it has to say what it is in the first line.
pub fn compose_dm(person: &Person, community: &str, invite_url: &str, expires: &str) -> (r: String)
    ensures
        r@ == dm_text(person.deep_view(), community@, invite_url@, expires@),
{
    let mut r = text::join4(
        "Hi ",
        person.display_name.as_str(),
        " — we're moving our Slack history to ",
        community,
    );
    r.append(", a self-hosted Buzz community.\n\nYour invite: ");
    r.append(invite_url);
    r.append("\nThis link expires ");
    r.append(expires);
    r.append(
        ".\n\nNote: the imported history is an *archive*. Old messages appear under placeholder \"[archive]\" accounts, not real identities — including yours. Joining gives you your own account going forward; it does not give you ownership of the archived messages.\n\nAnyone with this link can join, so please don't forward it.",
    );
    r
}

// ── choosing interactively ───────────────────────────────────────────────────

/// Presets offered before the per-person list, so "everyone" and "nobody
/// preselected" are single keystrokes rather than N toggles.
pub fn presets() -> (r: Vec<&'static str>)
    ensures
        r.deep_view() == seq![
            "Members of the imported channels (recommended)"@,
            "Only people who actually posted"@,
            "Everyone in the export"@,
            "Nobody preselected — choose individually"@,
        ],
{
    let mut r: Vec<&'static str> = Vec::new();
    r.push("Members of the imported channels (recommended)");
    r.push("Only people who actually posted");
    r.push("Everyone in the export");
    r.push("Nobody preselected — choose individually");
    assert(r.deep_view() =~= seq![
        "Members of the imported channels (recommended)"@,
        "Only people who actually posted"@,
        "Everyone in the export"@,
        "Nobody preselected — choose individually"@,
    ]);
    r
}

/// The scope that a preset stands for.
pub open spec fn preset_scope(preset: nat) -> Scope {
    if preset == 1 {
        Scope::PostersOnly
    } else if preset == 2 {
        Scope::Everyone
    } else {
        Scope::ImportedChannelMembers
    }
}

/// Whether a preset starts with a person ticked. The one that preselects nobody
/// starts with none.
pub open spec fn preticked(people: Seq<PersonModel>, preset: nat, id: Seq<char>) -> bool {
    preset != 3 && exists|i: int|
        0 <= i < people.len() && people[i].slack_id == id && verdict(
            scoped(preset_scope(preset)),
            people,
            seq![],
            #[trigger] people[i],
        ) is None
}

/// The people who could be invited at all.
pub open spec fn offerable(people: Seq<PersonModel>) -> Seq<PersonModel> {
    people.filter(|p: PersonModel| p.barred() is None)
}

/// A person's line in the picker.
pub open spec fn picker_line(p: PersonModel) -> Seq<char> {
    text::pad_right(p.display_name, 24) + " @"@ + text::pad_right(p.name, 18) + " "@
        + text::pad_left(text::dec(p.message_count), ' ', 5) + " msgs  "@ + text::dec(
        p.channels.len(),
    ) + " channels"@
}

/// One line in the picker: who they are, how active, and how much of the
/// import they appear in.
pub fn describe(p: &Person) -> (r: String)
    ensures
        r@ == picker_line(p.deep_view()),
{
    let mut r = text::left_aligned(p.display_name.as_str(), 24);
    r.append(" @");
    r.append(text::left_aligned(p.name.as_str(), 18).as_str());
    r.append(" ");
    r.append(text::right_aligned(text::decimal(p.message_count as u64).as_str(), ' ', 5).as_str());
    r.append(" msgs  ");
    r.append(text::decimal(p.channels.len() as u64).as_str());
    r.append(" channels");
    r
}

proof fn lemma_recipients(
    filter: PersonFilterModel,
    people: Seq<PersonModel>,
    done: Seq<Seq<char>>,
    list: Seq<PersonModel>,
    p: PersonModel,
)
    ensures
        sorted_out(filter, people, done, list).recipients.contains(p) <==> list.contains(p)
            && verdict(filter, people, done, p) is None,
    decreases list.len(),
{
    if list.len() > 0 {
        lemma_recipients(filter, people, done, list.drop_last(), p);
        let ahead = list.drop_last();
        let before = sorted_out(filter, people, done, ahead).recipients;
        assert(list =~= ahead.push(list.last()));
        assert(list.contains(p) <==> ahead.contains(p) || p == list.last()) by {
            if ahead.contains(p) {
                let k = choose|k: int| 0 <= k < ahead.len() && ahead[k] == p;
                assert(list[k] == p);
            }
            if list.contains(p) && p != list.last() {
                let k = choose|k: int| 0 <= k < list.len() && list[k] == p;
                assert(ahead[k] == p);
            }
            assert(list.last() == list[list.len() - 1]);
        }
        if verdict(filter, people, done, list.last()) is None {
            let now = before.push(list.last());
            if before.contains(p) {
                let k = choose|k: int| 0 <= k < before.len() && before[k] == p;
                assert(now[k] == p);
            }
            if now.contains(p) && p != list.last() {
                let k = choose|k: int| 0 <= k < now.len() && now[k] == p;
                assert(before[k] == p);
            }
            assert(now.last() == list.last());
        }
    }
}

/// What to offer after a preset was chosen. Only people who could actually be
/// invited are offered; bots and deactivated accounts are shown in the exclusion
/// report instead of cluttering a list where ticking them would do nothing.
pub fn offer(people: &[Person], preset: usize) -> (r: Result<Offer, Error>)
    ensures
        match r {
            Ok(o) => {
                let shown = offerable(people.deep_view());
                &&& shown.len() > 0
                &&& o.ids.deep_view() == Seq::new(shown.len(), |i: int| shown[i].slack_id)
                &&& o.items.deep_view() == Seq::new(shown.len(), |i: int| picker_line(shown[i]))
                &&& o.ticked@ == Seq::new(
                    shown.len(),
                    |i: int| preticked(people.deep_view(), preset as nat, shown[i].slack_id),
                )
            },
            Err(e) => offerable(people.deep_view()).len() == 0 && e.deep_view()
                == Failure::NoInvitablePeople,
        },
{
    let ghost ps = people.deep_view();
    let scope = match preset {
        1 => Scope::PostersOnly,
        2 => Scope::Everyone,
        _ => Scope::ImportedChannelMembers,
    };
    let filter = PersonFilter { scope, included: Vec::new(), exclude: Vec::new() };
    let nobody: Vec<String> = Vec::new();
    let ghost f = filter.deep_view();
    proof {
        assert(f =~= scoped(preset_scope(preset as nat)));
        assert(nobody.deep_view() =~= seq![]);
    }
    let mut preselected: Vec<String> = Vec::new();
    if preset != 3 {
        let seeded = plan(people, &filter, &nobody);
        if let Ok(seeded) = seeded {
            let ghost chosen = sorted_out(f, ps, seq![], ps).recipients;
            assert(seeded.recipients.deep_view() == chosen);
            let mut k: usize = 0;
            while k < seeded.recipients.len()
                invariant
                    k <= seeded.recipients@.len(),
                    seeded.recipients.deep_view() == chosen,
                    preselected.deep_view() == Seq::new(k as nat, |i: int| chosen[i].slack_id),
                decreases seeded.recipients@.len() - k,
            {
                let ghost was = preselected.deep_view();
                preselected.push(seeded.recipients[k].person.slack_id.clone());
                assert(chosen[k as int] == seeded.recipients@[k as int].deep_view());
                assert(preselected.deep_view() =~= was.push(chosen[k as int].slack_id));
                k += 1;
            }
            assert forall|id: Seq<char>| #[trigger]
                preselected.deep_view().contains(id) == preticked(ps, preset as nat, id) by {
                let pre = preselected.deep_view();
                if pre.contains(id) {
                    let k = choose|k: int| 0 <= k < pre.len() && pre[k] == id;
                    assert(chosen.contains(chosen[k]));
                    lemma_recipients(f, ps, seq![], ps, chosen[k]);
                    let i = choose|i: int| 0 <= i < ps.len() && ps[i] == chosen[k];
                    assert(verdict(f, ps, seq![], ps[i]) is None);
                }
                if preticked(ps, preset as nat, id) {
                    let i = choose|i: int|
                        0 <= i < ps.len() && ps[i].slack_id == id && verdict(
                            f,
                            ps,
                            seq![],
                            #[trigger] ps[i],
                        ) is None;
                    assert(ps.contains(ps[i]));
                    lemma_recipients(f, ps, seq![], ps, ps[i]);
                    let k = choose|k: int| 0 <= k < chosen.len() && chosen[k] == ps[i];
                    assert(pre[k] == id);
                }
            }
        }
    }
    assert forall|id: Seq<char>| #[trigger]
        preselected.deep_view().contains(id) == preticked(ps, preset as nat, id) by {}
    let mut ids: Vec<String> = Vec::new();
    let mut items: Vec<String> = Vec::new();
    let mut ticked: Vec<bool> = Vec::new();
    let ghost pred = |p: PersonModel| p.barred() is None;
    let mut i: usize = 0;
    proof {
        reveal(Seq::filter);
        assert(ps.take(0).filter(pred) =~= seq![]);
    }
    while i < people.len()
        invariant
            i <= people@.len(),
            ps == people.deep_view(),
            pred == (|p: PersonModel| p.barred() is None),
            forall|id: Seq<char>| #[trigger]
                preselected.deep_view().contains(id) == preticked(ps, preset as nat, id),
            ({
                let shown = ps.take(i as int).filter(pred);
                &&& ids.deep_view() == Seq::new(shown.len(), |i: int| shown[i].slack_id)
                &&& items.deep_view() == Seq::new(shown.len(), |i: int| picker_line(shown[i]))
                &&& ticked@ == Seq::new(
                    shown.len(),
                    |i: int| preticked(ps, preset as nat, shown[i].slack_id),
                )
            }),
        decreases people@.len() - i,
    {
        let ghost upto = ps.take(i + 1);
        let ghost ahead = ps.take(i as int).filter(pred);
        let ghost was_ids = ids.deep_view();
        let ghost was_items = items.deep_view();
        assert(upto.drop_last() =~= ps.take(i as int));
        assert(upto.last() == people@[i as int].deep_view());
        assert(upto.filter(pred) == if pred(upto.last()) {
            ahead.push(upto.last())
        } else {
            ahead
        }) by {
            reveal(Seq::filter);
        }
        let p = &people[i];
        if p.hard_excluded().is_none() {
            let ghost shown = ahead.push(upto.last());
            ids.push(p.slack_id.clone());
            let line = describe(p);
            items.push(line);
            ticked.push(text::holds(&preselected, &p.slack_id));
            assert(ids.deep_view() =~= was_ids.push(p.slack_id@));
            assert(ids.deep_view() =~= Seq::new(shown.len(), |i: int| shown[i].slack_id));
            assert(items.deep_view() =~= was_items.push(line@));
            assert(items.deep_view() =~= Seq::new(shown.len(), |i: int| picker_line(shown[i])));
            assert(ticked@ =~= Seq::new(
                shown.len(),
                |i: int| preticked(ps, preset as nat, shown[i].slack_id),
            ));
        }
        i += 1;
    }
    assert(ps.take(i as int) =~= ps);
    assert(ids.deep_view().len() == ids@.len());
    if ids.len() == 0 {
        return Err(Error::NoInvitablePeople);
    }
    Ok(Offer { ids, items, ticked })
}

/// The filter for what was ticked of the people who were offered.
pub open spec fn picked_model(ids: Seq<Seq<char>>, picked: Seq<usize>) -> Result<
    PersonFilterModel,
    Failure,
> {
    if picked.len() == 0 {
        Err(Failure::NobodySelected)
    } else {
        Ok(
            PersonFilterModel {
                included: Seq::new(picked.len(), |i: int| ids[picked[i] as int]),
                ..scoped(Scope::ImportedChannelMembers)
            },
        )
    }
}

/// The filter for what was ticked: named people only, so the pure planner still
/// has the final say.
pub fn picked_filter(offer: &Offer, picked: &Vec<usize>) -> (r: Result<PersonFilter, Error>)
    requires
        forall|i: int| 0 <= i < picked@.len() ==> #[trigger] picked@[i] < offer.ids@.len(),
    ensures
        outcome(r) == picked_model(offer.ids.deep_view(), picked@),
{
    if picked.len() == 0 {
        return Err(Error::NobodySelected);
    }
    let mut included: Vec<String> = Vec::new();
    let mut i: usize = 0;
    while i < picked.len()
        invariant
            i <= picked@.len(),
            forall|i: int| 0 <= i < picked@.len() ==> #[trigger] picked@[i] < offer.ids@.len(),
            included.deep_view() == Seq::new(
                i as nat,
                |i: int| offer.ids.deep_view()[picked@[i] as int],
            ),
        decreases picked@.len() - i,
    {
        let ghost was = included.deep_view();
        included.push(offer.ids[picked[i]].clone());
        assert(included.deep_view() =~= was.push(offer.ids.deep_view()[picked@[i as int] as int]));
        i += 1;
    }
    let r = PersonFilter {
        scope: Scope::ImportedChannelMembers,
        included,
        exclude: Vec::new(),
    };
    assert(r.exclude.deep_view() =~= seq![]);
    Ok(r)
}

} // verus!
