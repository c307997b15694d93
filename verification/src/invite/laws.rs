//! What holds of inviting as a whole.

use vstd::prelude::*;

use crate::error::Failure;
use crate::invite::buzz::{
    dry_run_invite, law_dry_run_codes_are_distinct, DryRunMinter, InviteModel, Minter,
};
use crate::invite::people::{
    by_activity, channels_of, everyone, lemma_user_of, listings, person_of, standings,
    user_ids, user_of, Exclusion, PersonModel,
};
use crate::invite::run::{
    after_broken_turn, after_exclusions, after_run, after_turns, all_settled, carried_out, history,
    report, stopped_in_exclusions, stopped_in_turn, took, OutcomeModel, Turn,
};
use crate::invite::slack::{DryRunMessenger, Messenger};
use crate::invite::{
    dm_text, first_unknown, picked, picks_any, planned, scoped, sorted_out, verdict,
    PersonFilterModel, PlanModel, Scope,
};
use crate::fmt::datetime_text;
use crate::ir::RecordModel;
use crate::ledger::{law_states_round_trip, Books, Ledger, State};
use crate::order::{lemma_order_exists, lemma_sort_is_onto, order_of, Rank};
use crate::text;

verus! {

/// Whether no two people share an id.
pub open spec fn distinct_ids(people: Seq<PersonModel>) -> bool {
    forall|i: int, j: int|
        0 <= i < j < people.len() ==> #[trigger] people[i].slack_id != #[trigger] people[j].slack_id
}

// ── candidates ───────────────────────────────────────────────────────────────

proof fn lemma_user_ids_distinct(rs: Seq<RecordModel>)
    ensures
        forall|i: int, j: int|
            0 <= i < j < user_ids(rs).len() ==> #[trigger] user_ids(rs)[i] != #[trigger] user_ids(
                rs,
            )[j],
    decreases rs.len(),
{
    if rs.len() > 0 {
        lemma_user_ids_distinct(rs.drop_last());
        let ids = user_ids(rs.drop_last());
        if let RecordModel::User(u) = rs.last() {
            if !ids.contains(u.slack_id) {
                assert forall|i: int, j: int| 0 <= i < j < user_ids(rs).len() implies
                    #[trigger] user_ids(rs)[i] != #[trigger] user_ids(rs)[j] by {
                    assert(user_ids(rs)[i] == ids[i]);
                    if j == ids.len() {
                        assert(ids.contains(ids[i]));
                    }
                }
            }
        }
    }
}

/// The candidates are the people of the user table, each once: no two share an
/// id, and everyone who has a user record is among them, with the channels and
/// the message count that the imported records give them.
pub proof fn law_candidates_are_the_user_table(rs: Seq<RecordModel>)
    ensures
        distinct_ids(by_activity(everyone(rs))),
        forall|i: int|
            0 <= i < by_activity(everyone(rs)).len() ==> {
                let p = #[trigger] by_activity(everyone(rs))[i];
                user_of(rs, p.slack_id) is Some && p == person_of(rs, p.slack_id)
            },
        forall|id: Seq<char>| #[trigger]
            user_of(rs, id) is Some ==> by_activity(everyone(rs)).contains(person_of(rs, id)),
{
    let ps = everyone(rs);
    let ids = user_ids(rs);
    let ks = standings(ps);
    let o = order_of(ks);
    lemma_order_exists(ks);
    lemma_user_ids_distinct(rs);
    let out = by_activity(ps);
    assert forall|k: int| 0 <= k < ps.len() implies (#[trigger] ps[k]).slack_id == ids[k]
        && user_of(rs, ids[k]) is Some by {
        assert(ids.contains(ids[k]));
        lemma_user_of(rs, ids[k]);
    }
    assert forall|i: int, j: int| 0 <= i < j < out.len() implies #[trigger] out[i].slack_id
        != #[trigger] out[j].slack_id by {
        assert(crate::order::ahead(ks, o[i], o[j]));
        let (a, b) = (o[i], o[j]);
        assert(0 <= a < ps.len() && 0 <= b < ps.len());
        if a == b {
            Rank::lemma_asymmetric(ks[a], ks[b]);
        }
        assert(out[i] == ps[a] && out[j] == ps[b]);
        assert(ids[a] != ids[b]);
    }
    assert forall|i: int| 0 <= i < out.len() implies {
        let p = #[trigger] out[i];
        user_of(rs, p.slack_id) is Some && p == person_of(rs, p.slack_id)
    } by {
        assert(0 <= o[i] < ps.len());
        assert(out[i] == ps[o[i]]);
    }
    assert forall|id: Seq<char>| #[trigger] user_of(rs, id) is Some implies out.contains(
        person_of(rs, id),
    ) by {
        lemma_user_of(rs, id);
        let k = choose|k: int| 0 <= k < ids.len() && ids[k] == id;
        lemma_sort_is_onto(ks, o, k);
        let q = choose|q: int| 0 <= q < o.len() && o[q] == k;
        assert(out[q] == ps[k]);
    }
}

/// Candidates come most active first, and by id where that ties.
pub proof fn law_candidates_are_most_active_first(rs: Seq<RecordModel>, i: int, j: int)
    requires
        0 <= i < j < by_activity(everyone(rs)).len(),
    ensures
        ({
            let a = by_activity(everyone(rs))[i];
            let b = by_activity(everyone(rs))[j];
            &&& a.message_count >= b.message_count
            &&& a.message_count == b.message_count ==> text::lt(a.slack_id, b.slack_id)
        }),
{
    let ps = everyone(rs);
    let ks = standings(ps);
    let o = order_of(ks);
    lemma_order_exists(ks);
    law_candidates_are_the_user_table(rs);
    let out = by_activity(ps);
    assert(crate::order::ahead(ks, o[i], o[j]));
    assert(0 <= o[i] < ps.len() && 0 <= o[j] < ps.len());
    assert(out[i].slack_id != out[j].slack_id);
    text::lemma_lt_total(out[i].slack_id, out[j].slack_id);
}

/// A person counts as a member of the import exactly when one of its channels
/// lists them: channels that were left out have no say.
pub proof fn law_membership_is_of_imported_channels(rs: Seq<RecordModel>, id: Seq<char>)
    ensures
        channels_of(rs, id).len() > 0 <==> exists|i: int|
            0 <= i < rs.len() && (#[trigger] rs[i] matches RecordModel::Channel(c)
                && c.members.contains(id)),
    decreases rs.len(),
{
    if rs.len() > 0 {
        let ahead = rs.drop_last();
        law_membership_is_of_imported_channels(ahead, id);
        if let RecordModel::Channel(c) = rs.last() {
            lemma_listings(c.members, id, c.slack_id);
        }
        if channels_of(ahead, id).len() > 0 {
            let i = choose|i: int|
                0 <= i < ahead.len() && (#[trigger] ahead[i] matches RecordModel::Channel(c)
                    && c.members.contains(id));
            assert(rs[i] == ahead[i]);
        }
        assert forall|i: int|
            0 <= i < rs.len() && (#[trigger] rs[i] matches RecordModel::Channel(c)
                && c.members.contains(id)) implies channels_of(rs, id).len() > 0 by {
            if i < ahead.len() {
                assert(ahead[i] == rs[i]);
            }
        }
        assert(rs.last() == rs[rs.len() - 1]);
    }
}

proof fn lemma_listings(members: Seq<Seq<char>>, id: Seq<char>, channel: Seq<char>)
    ensures
        listings(members, id, channel).len() > 0 <==> members.contains(id),
    decreases members.len(),
{
    if members.len() > 0 {
        let ahead = members.drop_last();
        lemma_listings(ahead, id, channel);
        if ahead.contains(id) {
            let k = choose|k: int| 0 <= k < ahead.len() && ahead[k] == id;
            assert(members[k] == id);
        }
        if members.contains(id) && members.last() != id {
            let k = choose|k: int| 0 <= k < members.len() && members[k] == id;
            assert(ahead[k] == id);
        }
        assert(members.last() == members[members.len() - 1]);
    }
}

// ── plans ────────────────────────────────────────────────────────────────────

/// Everyone is either a recipient or left out for the reason that applies to
/// them; nobody is silently dropped, and nobody is added.
pub proof fn law_everyone_is_invited_or_explained(
    people: Seq<PersonModel>,
    filter: PersonFilterModel,
    done: Seq<Seq<char>>,
)
    ensures
        planned(people, filter, done) matches Ok(plan) ==> {
            &&& plan.recipients.len() + plan.excluded.len() == people.len()
            &&& forall|p: PersonModel| #[trigger]
                plan.recipients.contains(p) <==> people.contains(p) && verdict(
                    filter,
                    people,
                    done,
                    p,
                ) is None
            &&& forall|p: PersonModel, why: Exclusion| #[trigger]
                plan.excluded.contains((p, why)) <==> people.contains(p) && verdict(
                    filter,
                    people,
                    done,
                    p,
                ) == Some(why)
        },
{
    lemma_sorted_out(filter, people, done, people);
}

proof fn lemma_sorted_out(
    filter: PersonFilterModel,
    people: Seq<PersonModel>,
    done: Seq<Seq<char>>,
    list: Seq<PersonModel>,
)
    ensures
        ({
            let plan = sorted_out(filter, people, done, list);
            &&& plan.recipients.len() + plan.excluded.len() == list.len()
            &&& forall|p: PersonModel| #[trigger]
                plan.recipients.contains(p) <==> list.contains(p) && verdict(
                    filter,
                    people,
                    done,
                    p,
                ) is None
            &&& forall|p: PersonModel, why: Exclusion| #[trigger]
                plan.excluded.contains((p, why)) <==> list.contains(p) && verdict(
                    filter,
                    people,
                    done,
                    p,
                ) == Some(why)
        }),
    decreases list.len(),
{
    if list.len() > 0 {
        let ahead = list.drop_last();
        let last = list.last();
        lemma_sorted_out(filter, people, done, ahead);
        let before = sorted_out(filter, people, done, ahead);
        let plan = sorted_out(filter, people, done, list);
        assert(list =~= ahead.push(last));
        assert forall|p: PersonModel| #[trigger] list.contains(p) <==> ahead.contains(p) || p
            == last by {
            lemma_push_contains(ahead, last, p);
        }
        assert forall|p: PersonModel| #[trigger]
            plan.recipients.contains(p) <==> list.contains(p) && verdict(
                filter,
                people,
                done,
                p,
            ) is None by {
            lemma_push_contains(before.recipients, last, p);
            assert(list.contains(p) <==> ahead.contains(p) || p == last);
            assert(before.recipients.contains(p) <==> ahead.contains(p) && verdict(
                filter,
                people,
                done,
                p,
            ) is None);
        }
        assert forall|p: PersonModel, why: Exclusion| #[trigger]
            plan.excluded.contains((p, why)) <==> list.contains(p) && verdict(
                filter,
                people,
                done,
                p,
            ) == Some(why) by {
            if let Some(w) = verdict(filter, people, done, last) {
                lemma_push_contains(before.excluded, (last, w), (p, why));
            }
            assert(list.contains(p) <==> ahead.contains(p) || p == last);
            assert(before.excluded.contains((p, why)) <==> ahead.contains(p) && verdict(
                filter,
                people,
                done,
                p,
            ) == Some(why));
        }
    }
}

proof fn lemma_push_contains<A>(s: Seq<A>, last: A, x: A)
    ensures
        s.push(last).contains(x) <==> s.contains(x) || x == last,
{
    let t = s.push(last);
    if s.contains(x) {
        let k = choose|k: int| 0 <= k < s.len() && s[k] == x;
        assert(t[k] == x);
    }
    if t.contains(x) && x != last {
        let k = choose|k: int| 0 <= k < t.len() && t[k] == x;
        assert(s[k] == x);
    }
    assert(t[s.len() as int] == last);
}

/// Bots and deactivated accounts are never invited, even when named.
pub proof fn law_bots_and_deactivated_are_never_invited(
    people: Seq<PersonModel>,
    filter: PersonFilterModel,
    done: Seq<Seq<char>>,
    i: int,
)
    ensures
        planned(people, filter, done) matches Ok(plan) ==> 0 <= i < plan.recipients.len()
            ==> !plan.recipients[i].is_bot && !plan.recipients[i].is_deleted,
{
    law_everyone_is_invited_or_explained(people, filter, done);
    if let Ok(plan) = planned(people, filter, done) {
        if 0 <= i < plan.recipients.len() {
            assert(plan.recipients.contains(plan.recipients[i]));
        }
    }
}

/// Nobody who was invited already is invited again.
pub proof fn law_already_invited_are_skipped(
    people: Seq<PersonModel>,
    filter: PersonFilterModel,
    done: Seq<Seq<char>>,
    i: int,
)
    ensures
        planned(people, filter, done) matches Ok(plan) ==> 0 <= i < plan.recipients.len()
            ==> !done.contains(plan.recipients[i].slack_id),
{
    law_everyone_is_invited_or_explained(people, filter, done);
    if let Ok(plan) = planned(people, filter, done) {
        if 0 <= i < plan.recipients.len() {
            assert(plan.recipients.contains(plan.recipients[i]));
        }
    }
}

/// A selector that names nobody is an error, and nothing else is.
pub proof fn law_unknown_person_is_an_error(
    people: Seq<PersonModel>,
    filter: PersonFilterModel,
    done: Seq<Seq<char>>,
)
    ensures
        planned(people, filter, done) is Err <==> {
            ||| exists|i: int| 0 <= i < filter.included.len() && !picks_any(
                #[trigger] filter.included[i],
                people,
            )
            ||| exists|i: int| 0 <= i < filter.exclude.len() && !picks_any(
                #[trigger] filter.exclude[i],
                people,
            )
        },
{
    lemma_first_unknown(filter.included, people);
    lemma_first_unknown(filter.exclude, people);
}

proof fn lemma_first_unknown(selectors: Seq<Seq<char>>, people: Seq<PersonModel>)
    ensures
        first_unknown(selectors, people) is Some <==> exists|i: int|
            0 <= i < selectors.len() && !picks_any(#[trigger] selectors[i], people),
    decreases selectors.len(),
{
    if selectors.len() > 0 {
        let ahead = selectors.drop_last();
        lemma_first_unknown(ahead, people);
        if first_unknown(ahead, people) is Some {
            let i = choose|i: int|
                0 <= i < ahead.len() && !picks_any(#[trigger] ahead[i], people);
            assert(!picks_any(selectors[i], people));
        }
        assert forall|i: int|
            0 <= i < selectors.len() && !picks_any(
                #[trigger] selectors[i],
                people,
            ) implies first_unknown(selectors, people) is Some by {
            if i < ahead.len() {
                assert(ahead[i] == selectors[i]);
            }
        }
        assert(selectors.last() == selectors[selectors.len() - 1]);
    }
}

/// Unless someone is named, the default plan invites members of imported
/// channels only.
pub proof fn law_default_invites_members_only(
    people: Seq<PersonModel>,
    done: Seq<Seq<char>>,
    i: int,
)
    ensures
        planned(people, scoped(Scope::ImportedChannelMembers), done) matches Ok(plan) ==> 0 <= i
            < plan.recipients.len() ==> plan.recipients[i].channels.len() > 0,
{
    let filter = scoped(Scope::ImportedChannelMembers);
    law_everyone_is_invited_or_explained(people, filter, done);
    if let Ok(plan) = planned(people, filter, done) {
        if 0 <= i < plan.recipients.len() {
            assert(plan.recipients.contains(plan.recipients[i]));
        }
    }
}

/// Naming people means only those, and excluding someone takes them out
/// whatever else was asked for.
pub proof fn law_names_decide(
    people: Seq<PersonModel>,
    filter: PersonFilterModel,
    done: Seq<Seq<char>>,
    i: int,
)
    ensures
        planned(people, filter, done) matches Ok(plan) ==> 0 <= i < plan.recipients.len() ==> {
            let id = plan.recipients[i].slack_id;
            &&& filter.included.len() > 0 ==> picked(filter.included, people, id)
            &&& !picked(filter.exclude, people, id)
        },
{
    law_everyone_is_invited_or_explained(people, filter, done);
    if let Ok(plan) = planned(people, filter, done) {
        if 0 <= i < plan.recipients.len() {
            assert(plan.recipients.contains(plan.recipients[i]));
        }
    }
}

// ── runs ─────────────────────────────────────────────────────────────────────

/// The position of a person in the report's terms: their id is under `sent` or
/// under `failed`, and nobody goes unreported. One recipient's failure does not
/// strand the rest.
pub proof fn law_every_recipient_is_reported(people: Seq<PersonModel>, turns: Seq<Turn>, i: int)
    requires
        0 <= i < turns.len(),
    ensures
        report(people, turns).sent.len() + report(people, turns).failed.len() == turns.len(),
        match turns[i].complaint() {
            None => report(people, turns).sent.contains(people[i].slack_id),
            Some(why) => report(people, turns).failed.contains((people[i].slack_id, why)),
        },
    decreases turns.len(),
{
    let ahead = turns.drop_last();
    let before = report(people, ahead);
    let id = people[turns.len() - 1].slack_id;
    if i < ahead.len() {
        law_every_recipient_is_reported(people, ahead, i);
        assert(ahead[i] == turns[i]);
    } else if ahead.len() > 0 {
        law_every_recipient_is_reported(people, ahead, 0);
    }
    match turns.last().complaint() {
        None => {
            lemma_push_contains(before.sent, id, people[i].slack_id);
        },
        Some(why) => {
            if let Some(w) = turns[i].complaint() {
                lemma_push_contains(before.failed, (id, why), (people[i].slack_id, w));
            }
        },
    }
}

/// What was reported as sent was sent, without a complaint.
proof fn lemma_reported(people: Seq<PersonModel>, turns: Seq<Turn>, id: Seq<char>)
    requires
        report(people, turns).sent.contains(id),
    ensures
        exists|i: int|
            0 <= i < turns.len() && people[i].slack_id == id && (
            #[trigger] turns[i]).complaint() is None,
    decreases turns.len(),
{
    if turns.len() > 0 {
        let ahead = turns.drop_last();
        let before = report(people, ahead);
        let last = people[turns.len() - 1].slack_id;
        if turns.last().complaint() is None {
            lemma_push_contains(before.sent, last, id);
        }
        if before.sent.contains(id) {
            lemma_reported(people, ahead, id);
            let i = choose|i: int|
                0 <= i < ahead.len() && people[i].slack_id == id && (
                #[trigger] ahead[i]).complaint() is None;
            assert(turns[i] == ahead[i]);
        } else {
            assert(turns[turns.len() - 1].complaint() is None);
        }
    }
}

/// A plan keeps ids apart.
proof fn lemma_plan_ids(
    filter: PersonFilterModel,
    people: Seq<PersonModel>,
    done: Seq<Seq<char>>,
    list: Seq<PersonModel>,
)
    requires
        distinct_ids(list),
    ensures
        ({
            let plan = sorted_out(filter, people, done, list);
            &&& distinct_ids(plan.recipients)
            &&& forall|i: int, j: int|
                0 <= i < j < plan.excluded.len() ==> #[trigger] plan.excluded[i].0.slack_id
                    != #[trigger] plan.excluded[j].0.slack_id
            &&& forall|i: int, j: int|
                0 <= i < plan.recipients.len() && 0 <= j < plan.excluded.len()
                    ==> #[trigger] plan.recipients[i].slack_id
                    != #[trigger] plan.excluded[j].0.slack_id
        }),
    decreases list.len(),
{
    if list.len() > 0 {
        let ahead = list.drop_last();
        let last = list.last();
        assert(distinct_ids(ahead)) by {
            assert forall|i: int, j: int| 0 <= i < j < ahead.len() implies #[trigger] ahead[i].slack_id
                != #[trigger] ahead[j].slack_id by {
                assert(list[i].slack_id != list[j].slack_id);
            }
        }
        lemma_plan_ids(filter, people, done, ahead);
        lemma_sorted_out(filter, people, done, ahead);
        let before = sorted_out(filter, people, done, ahead);
        assert forall|p: PersonModel| #[trigger] ahead.contains(p) implies p.slack_id
            != last.slack_id by {
            let k = choose|k: int| 0 <= k < ahead.len() && ahead[k] == p;
            assert(list[k].slack_id != list[list.len() - 1].slack_id);
        }
        assert forall|i: int| 0 <= i < before.recipients.len() implies (
        #[trigger] before.recipients[i]).slack_id != last.slack_id by {
            assert(before.recipients.contains(before.recipients[i]));
            assert(ahead.contains(before.recipients[i]));
        }
        assert forall|i: int| 0 <= i < before.excluded.len() implies (
        #[trigger] before.excluded[i]).0.slack_id != last.slack_id by {
            let (p, why) = before.excluded[i];
            assert(before.excluded.contains((p, why)));
            assert(ahead.contains(p));
        }
    }
}

/// The link and expiry that the books have for a person, if any.
pub open spec fn link_before(books: Books, id: Seq<char>) -> (Option<Seq<char>>, Option<i64>) {
    match books.invite(id) {
        Some(r) => (r.invite_url, r.expires_at),
        None => (None, None),
    }
}

/// A person's turn is what the books say of them afterwards.
proof fn lemma_turn_is_recorded(
    books: Books,
    people: Seq<PersonModel>,
    turns: Seq<Turn>,
    now: i64,
    i: int,
)
    requires
        distinct_ids(people),
        turns.len() <= people.len(),
        all_settled(turns),
        0 <= i < turns.len(),
    ensures
        ({
            let id = people[i].slack_id;
            let rows = after_turns(books, people, turns, now).invites;
            &&& rows.contains_key(id)
            &&& rows[id].error == turns[i].complaint()
            &&& rows[id].state == (if turns[i].complaint() is None {
                State::Sent
            } else {
                State::Failed
            }).word()
            &&& turns[i].minted matches Ok(invite) ==> rows[id].code == Some(invite.code)
                && rows[id].url == Some(invite.url) && rows[id].expires_at == Some(
                invite.expires_at,
            )
            &&& turns[i].minted is Err ==> rows[id].url == link_before(books, id).0
                && rows[id].expires_at == link_before(books, id).1
        }),
    decreases turns.len(),
{
    let ahead = turns.drop_last();
    assert(turns[turns.len() - 1].settled());
    if i < ahead.len() {
        assert forall|k: int| 0 <= k < ahead.len() implies (#[trigger] ahead[k]).settled() by {
            assert(turns[k].settled());
        }
        lemma_turn_is_recorded(books, people, ahead, now, i);
        assert(ahead[i] == turns[i]);
        assert(people[i].slack_id != people[turns.len() - 1].slack_id);
    } else {
        assert forall|k: int| 0 <= k < ahead.len() implies (#[trigger] people[k]).slack_id
            != people[i].slack_id by {
            assert(people[k].slack_id != people[i].slack_id);
        }
        lemma_turns_touch_recipients_only(books, people, ahead, now, people[i].slack_id);
    }
}

/// Turns leave everyone else's row as it was.
proof fn lemma_turns_touch_recipients_only(
    books: Books,
    people: Seq<PersonModel>,
    turns: Seq<Turn>,
    now: i64,
    id: Seq<char>,
)
    requires
        turns.len() <= people.len(),
        forall|i: int| 0 <= i < turns.len() ==> (#[trigger] people[i]).slack_id != id,
    ensures
        after_turns(books, people, turns, now).invites.contains_key(id)
            == books.invites.contains_key(id),
        after_turns(books, people, turns, now).invites[id] == books.invites[id],
    decreases turns.len(),
{
    if turns.len() > 0 {
        lemma_turns_touch_recipients_only(books, people, turns.drop_last(), now, id);
        assert(people[turns.len() - 1].slack_id != id);
    }
}

/// Writing down who was left out leaves everyone else's row as it was.
proof fn lemma_exclusions_touch_the_excluded_only(
    books: Books,
    excluded: Seq<(PersonModel, Exclusion)>,
    now: i64,
    id: Seq<char>,
)
    requires
        forall|i: int|
            0 <= i < excluded.len() ==> (#[trigger] excluded[i]).0.slack_id != id
                || excluded[i].1 is AlreadyInvited,
    ensures
        after_exclusions(books, excluded, now).invites.contains_key(id)
            == books.invites.contains_key(id),
        after_exclusions(books, excluded, now).invites[id] == books.invites[id],
    decreases excluded.len(),
{
    if excluded.len() > 0 {
        let ahead = excluded.drop_last();
        assert forall|i: int| 0 <= i < ahead.len() implies (#[trigger] ahead[i]).0.slack_id != id
            || ahead[i].1 is AlreadyInvited by {
            assert(ahead[i] == excluded[i]);
        }
        lemma_exclusions_touch_the_excluded_only(books, ahead, now, id);
        assert(excluded[excluded.len() - 1].0.slack_id != id || excluded[excluded.len()
            - 1].1 is AlreadyInvited);
    }
}

/// A person left out is written down as skipped, with the reason.
proof fn lemma_exclusion_is_recorded(
    books: Books,
    excluded: Seq<(PersonModel, Exclusion)>,
    now: i64,
    i: int,
)
    requires
        0 <= i < excluded.len(),
        excluded[i].1 !is AlreadyInvited,
        forall|a: int, b: int|
            0 <= a < b < excluded.len() ==> #[trigger] excluded[a].0.slack_id
                != #[trigger] excluded[b].0.slack_id,
    ensures
        ({
            let rows = after_exclusions(books, excluded, now).invites;
            let id = excluded[i].0.slack_id;
            &&& rows.contains_key(id)
            &&& rows[id].state == State::Skipped.word()
            &&& rows[id].error == Some(excluded[i].1.words())
        }),
    decreases excluded.len(),
{
    let ahead = excluded.drop_last();
    if i < ahead.len() {
        assert forall|a: int, b: int| 0 <= a < b < ahead.len() implies
            #[trigger] ahead[a].0.slack_id != #[trigger] ahead[b].0.slack_id by {
            assert(excluded[a].0.slack_id != excluded[b].0.slack_id);
        }
        lemma_exclusion_is_recorded(books, ahead, now, i);
        assert(ahead[i] == excluded[i]);
        assert(excluded[i].0.slack_id != excluded[excluded.len() - 1].0.slack_id);
    }
}

/// After a run the ledger says of each recipient how their turn went: sent, or
/// failed and why. A code that was minted survives a DM that could not be sent,
/// and where none was, a link from before stays.
pub proof fn law_turns_are_recorded(
    people: Seq<PersonModel>,
    filter: PersonFilterModel,
    done: Seq<Seq<char>>,
    books: Books,
    turns: Seq<Turn>,
    now: i64,
    i: int,
)
    requires
        distinct_ids(people),
        all_settled(turns),
    ensures
        planned(people, filter, done) matches Ok(plan) ==> turns.len() == plan.recipients.len()
            ==> 0 <= i < turns.len() ==> {
            let record = after_run(books, plan, turns, now).invite(plan.recipients[i].slack_id);
            &&& record is Some
            &&& record->0.error == turns[i].complaint()
            &&& record->0.state == if turns[i].complaint() is None {
                State::Sent
            } else {
                State::Failed
            }
            &&& turns[i].minted matches Ok(invite) ==> record->0.invite_url == Some(invite.url)
                && record->0.expires_at == Some(invite.expires_at)
            &&& turns[i].minted is Err ==> (record->0.invite_url, record->0.expires_at)
                == link_before(books, plan.recipients[i].slack_id)
        },
{
    if let Ok(plan) = planned(people, filter, done) {
        if turns.len() == plan.recipients.len() && 0 <= i < turns.len() {
            lemma_plan_ids(filter, people, done, people);
            lemma_turn_is_recorded(books, plan.recipients, turns, now, i);
            let written = after_turns(books, plan.recipients, turns, now);
            lemma_exclusions_touch_the_excluded_only(
                written,
                plan.excluded,
                now,
                plan.recipients[i].slack_id,
            );
            law_states_round_trip(State::Sent);
            law_states_round_trip(State::Failed);
        }
    }
}

/// Who was left out is in the ledger as skipped, with the reason, so that a
/// later run does not reconsider them. Someone invited before keeps their record.
pub proof fn law_exclusions_are_recorded(
    people: Seq<PersonModel>,
    filter: PersonFilterModel,
    done: Seq<Seq<char>>,
    books: Books,
    turns: Seq<Turn>,
    now: i64,
    j: int,
)
    requires
        distinct_ids(people),
    ensures
        planned(people, filter, done) matches Ok(plan) ==> turns.len() == plan.recipients.len()
            ==> 0 <= j < plan.excluded.len() ==> {
            let (p, why) = plan.excluded[j];
            let after = after_run(books, plan, turns, now);
            if why is AlreadyInvited {
                after.invite(p.slack_id) == books.invite(p.slack_id)
            } else {
                &&& after.invite_done(p.slack_id)
                &&& after.invite(p.slack_id)->0.state is Skipped
                &&& after.invite(p.slack_id)->0.error == Some(why.words())
            }
        },
{
    if let Ok(plan) = planned(people, filter, done) {
        if turns.len() == plan.recipients.len() && 0 <= j < plan.excluded.len() {
            let (p, why) = plan.excluded[j];
            lemma_plan_ids(filter, people, done, people);
            let written = after_turns(books, plan.recipients, turns, now);
            if why is AlreadyInvited {
                lemma_turns_touch_recipients_only(
                    books,
                    plan.recipients,
                    turns,
                    now,
                    p.slack_id,
                );
                assert forall|i: int| 0 <= i < plan.excluded.len() implies (
                #[trigger] plan.excluded[i]).0.slack_id != p.slack_id
                    || plan.excluded[i].1 is AlreadyInvited by {
                    if i < j {
                        assert(plan.excluded[i].0.slack_id != plan.excluded[j].0.slack_id);
                    }
                    if j < i {
                        assert(plan.excluded[j].0.slack_id != plan.excluded[i].0.slack_id);
                    }
                }
                lemma_exclusions_touch_the_excluded_only(written, plan.excluded, now, p.slack_id);
            } else {
                lemma_exclusion_is_recorded(written, plan.excluded, now, j);
                law_states_round_trip(State::Skipped);
            }
        }
    }
}

/// Whether a list is that of the people the books have down as sent.
pub open spec fn lists_the_sent(done: Seq<Seq<char>>, books: Books) -> bool {
    forall|id: Seq<char>| #[trigger]
        done.contains(id) <==> books.invites.contains_key(id) && books.invites[id].state
            == State::Sent.word()
}

/// Nobody is messaged twice: whoever a run sent a DM to is not a recipient of the
/// next, whatever filter it uses, once it is planned from the ledger.
pub proof fn law_nobody_is_messaged_twice(
    people: Seq<PersonModel>,
    filter: PersonFilterModel,
    done: Seq<Seq<char>>,
    books: Books,
    turns: Seq<Turn>,
    now: i64,
    next_filter: PersonFilterModel,
    next_done: Seq<Seq<char>>,
    id: Seq<char>,
)
    requires
        distinct_ids(people),
        all_settled(turns),
        planned(people, filter, done) matches Ok(plan) && turns.len() == plan.recipients.len()
            && lists_the_sent(next_done, after_run(books, plan, turns, now)) && report(
            plan.recipients,
            turns,
        ).sent.contains(id),
    ensures
        planned(people, next_filter, next_done) matches Ok(next) ==> forall|k: int|
            0 <= k < next.recipients.len() ==> (#[trigger] next.recipients[k]).slack_id != id,
{
    let plan = planned(people, filter, done)->Ok_0;
    lemma_reported(plan.recipients, turns, id);
    let i = choose|i: int|
        0 <= i < turns.len() && plan.recipients[i].slack_id == id && (
        #[trigger] turns[i]).complaint() is None;
    lemma_plan_ids(filter, people, done, people);
    lemma_turn_is_recorded(books, plan.recipients, turns, now, i);
    let written = after_turns(books, plan.recipients, turns, now);
    lemma_exclusions_touch_the_excluded_only(written, plan.excluded, now, id);
    assert(next_done.contains(id));
    if let Ok(next) = planned(people, next_filter, next_done) {
        assert forall|k: int| 0 <= k < next.recipients.len() implies (
        #[trigger] next.recipients[k]).slack_id != id by {
            law_already_invited_are_skipped(people, next_filter, next_done, k);
        }
    }
}

/// The recipients who have no turn yet, or one that failed, in order.
pub open spec fn owed(recipients: Seq<PersonModel>, turns: Seq<Turn>) -> Seq<PersonModel>
    decreases recipients.len(),
{
    if recipients.len() == 0 {
        seq![]
    } else {
        let ahead = owed(recipients.drop_last(), turns);
        if recipients.len() <= turns.len() && turns[recipients.len() - 1].complaint() is None {
            ahead
        } else {
            ahead.push(recipients.last())
        }
    }
}

/// Whether a run that was cut short after these whole turns can have left these
/// books: between two turns, in the middle of one, or while those left out were
/// being written down.
pub open spec fn cut_short(
    before: Books,
    plan: PlanModel,
    turns: Seq<Turn>,
    now: i64,
    after: Books,
) -> bool {
    let written = after_turns(before, plan.recipients, turns, now);
    &&& turns.len() <= plan.recipients.len()
    &&& {
        ||| after == written
        ||| turns.len() < plan.recipients.len() && exists|broken: Turn|
            after == #[trigger] after_broken_turn(
                written,
                plan.recipients[turns.len() as int].slack_id,
                broken,
                now,
            )
        ||| turns.len() == plan.recipients.len() && exists|n: int|
            0 <= n <= plan.excluded.len() && after == after_exclusions(
                written,
                #[trigger] plan.excluded.take(n),
                now,
            )
    }
}

/// Planning again leaves those out who have been sent their DM, and keeps the
/// order.
proof fn lemma_planned_again(
    filter: PersonFilterModel,
    people: Seq<PersonModel>,
    done: Seq<Seq<char>>,
    next_done: Seq<Seq<char>>,
    turns: Seq<Turn>,
    list: Seq<PersonModel>,
)
    requires
        ({
            let plan = sorted_out(filter, people, done, list);
            &&& forall|k: int|
                0 <= k < plan.recipients.len() ==> (next_done.contains(
                    (#[trigger] plan.recipients[k]).slack_id,
                ) <==> k < turns.len() && turns[k].complaint() is None)
            &&& forall|j: int|
                0 <= j < plan.excluded.len() && (
                #[trigger] plan.excluded[j]).1 is AlreadyInvited ==> next_done.contains(
                    plan.excluded[j].0.slack_id,
                )
        }),
    ensures
        sorted_out(filter, people, next_done, list).recipients == owed(
            sorted_out(filter, people, done, list).recipients,
            turns,
        ),
    decreases list.len(),
{
    if list.len() > 0 {
        let ahead = list.drop_last();
        let before = sorted_out(filter, people, done, ahead);
        let plan = sorted_out(filter, people, done, list);
        assert forall|k: int| 0 <= k < before.recipients.len() implies (next_done.contains(
            (#[trigger] before.recipients[k]).slack_id,
        ) <==> k < turns.len() && turns[k].complaint() is None) by {
            assert(plan.recipients[k] == before.recipients[k]);
        }
        assert forall|j: int|
            0 <= j < before.excluded.len() && (
            #[trigger] before.excluded[j]).1 is AlreadyInvited implies next_done.contains(
            before.excluded[j].0.slack_id,
        ) by {
            assert(plan.excluded[j] == before.excluded[j]);
        }
        lemma_planned_again(filter, people, done, next_done, turns, ahead);
        match verdict(filter, people, done, list.last()) {
            None => {
                let k = before.recipients.len() as int;
                assert(plan.recipients[k] == list.last());
                assert(plan.recipients.drop_last() =~= before.recipients);
            },
            Some(why) => {
                let j = before.excluded.len() as int;
                assert(plan.excluded[j] == (list.last(), why));
            },
        }
    }
}

/// A run that was cut short is resumed by running the same command again: the
/// recipients are those whose turn failed, was broken off or had not come, in the
/// order they had. Whoever was sent their DM is left alone.
pub proof fn law_interrupted_run_is_resumed(
    people: Seq<PersonModel>,
    filter: PersonFilterModel,
    done: Seq<Seq<char>>,
    books: Books,
    turns: Seq<Turn>,
    now: i64,
    after: Books,
    next_done: Seq<Seq<char>>,
)
    requires
        distinct_ids(people),
        all_settled(turns),
        lists_the_sent(done, books),
        planned(people, filter, done) matches Ok(plan) && cut_short(
            books,
            plan,
            turns,
            now,
            after,
        ),
        lists_the_sent(next_done, after),
    ensures
        planned(people, filter, next_done) matches Ok(next) && next.recipients == owed(
            planned(people, filter, done)->Ok_0.recipients,
            turns,
        ),
{
    let plan = planned(people, filter, done)->Ok_0;
    let recipients = plan.recipients;
    let written = after_turns(books, recipients, turns, now);
    lemma_plan_ids(filter, people, done, people);
    law_everyone_is_invited_or_explained(people, filter, done);
    law_states_round_trip(State::Sent);
    law_states_round_trip(State::Failed);
    law_states_round_trip(State::Minted);
    assert forall|k: int| 0 <= k < recipients.len() implies (next_done.contains(
        (#[trigger] recipients[k]).slack_id,
    ) <==> k < turns.len() && turns[k].complaint() is None) by {
        let id = recipients[k].slack_id;
        assert(recipients.contains(recipients[k]));
        assert(!done.contains(id));
        assert forall|i: int| 0 <= i < recipients.len() && i != k implies (
        #[trigger] recipients[i]).slack_id != id by {
            if i < k {
                assert(recipients[i].slack_id != recipients[k].slack_id);
            } else {
                assert(recipients[k].slack_id != recipients[i].slack_id);
            }
        }
        if k < turns.len() {
            lemma_turn_is_recorded(books, recipients, turns, now, k);
        } else {
            lemma_turns_touch_recipients_only(books, recipients, turns, now, id);
        }
        assert forall|n: int| 0 <= n <= plan.excluded.len() implies after_exclusions(
            written,
            #[trigger] plan.excluded.take(n),
            now,
        ).invites.contains_key(id) == written.invites.contains_key(id) && after_exclusions(
            written,
            plan.excluded.take(n),
            now,
        ).invites[id] == written.invites[id] by {
            let upto = plan.excluded.take(n);
            assert forall|i: int| 0 <= i < upto.len() implies (#[trigger] upto[i]).0.slack_id
                != id by {
                assert(recipients[k].slack_id != plan.excluded[i].0.slack_id);
            }
            lemma_exclusions_touch_the_excluded_only(written, upto, now, id);
        }
    }
    assert forall|j: int|
        0 <= j < plan.excluded.len() && (
        #[trigger] plan.excluded[j]).1 is AlreadyInvited implies next_done.contains(
        plan.excluded[j].0.slack_id,
    ) by {
        let (p, why) = plan.excluded[j];
        let id = p.slack_id;
        assert(plan.excluded.contains((p, why)));
        assert(done.contains(id));
        assert forall|i: int| 0 <= i < recipients.len() implies (
        #[trigger] recipients[i]).slack_id != id by {
            assert(recipients[i].slack_id != plan.excluded[j].0.slack_id);
        }
        lemma_turns_touch_recipients_only(books, recipients, turns, now, id);
        assert forall|n: int| 0 <= n <= plan.excluded.len() implies after_exclusions(
            written,
            #[trigger] plan.excluded.take(n),
            now,
        ).invites.contains_key(id) == written.invites.contains_key(id) && after_exclusions(
            written,
            plan.excluded.take(n),
            now,
        ).invites[id] == written.invites[id] by {
            let upto = plan.excluded.take(n);
            assert forall|i: int| 0 <= i < upto.len() implies (#[trigger] upto[i]).0.slack_id
                != id || upto[i].1 is AlreadyInvited by {
                if i < j {
                    assert(plan.excluded[i].0.slack_id != plan.excluded[j].0.slack_id);
                }
                if j < i {
                    assert(plan.excluded[j].0.slack_id != plan.excluded[i].0.slack_id);
                }
            }
            lemma_exclusions_touch_the_excluded_only(written, upto, now, id);
        }
    }
    lemma_planned_again(filter, people, done, next_done, turns, people);
}

/// A run that the ledger stopped was cut short: what [`execute`] says of it is
/// what [`law_interrupted_run_is_resumed`] asks. So is one that was carried out,
/// at the very end.
///
/// [`execute`]: crate::invite::execute
pub proof fn law_stopped_run_is_cut_short<M: Minter, G: Messenger>(
    plan: PlanModel,
    community: Seq<char>,
    ttl_secs: u64,
    m: M,
    g: G,
    before: Ledger,
    now: i64,
    turns: Seq<Turn>,
    broken: Turn,
    written: int,
    m_after: M,
    g_after: G,
    after: Ledger,
    why: Failure,
    r: OutcomeModel,
)
    requires
        before.is_kept(),
        stopped_in_turn(
            plan,
            community,
            ttl_secs,
            m,
            g,
            before,
            now,
            turns,
            broken,
            m_after,
            g_after,
            after,
            why,
        ) || stopped_in_exclusions(
            plan,
            community,
            ttl_secs,
            m,
            g,
            before,
            now,
            turns,
            written,
            m_after,
            g_after,
            after,
            why,
        ) || carried_out(
            plan,
            community,
            ttl_secs,
            m,
            g,
            before,
            now,
            turns,
            m_after,
            g_after,
            after,
            r,
        ),
    ensures
        all_settled(turns),
        cut_short(before.books(), plan, turns, now, after.books()),
{
    let whole = after_turns(before.books(), plan.recipients, turns, now);
    if turns.len() < plan.recipients.len() {
        assert(after.books() == after_broken_turn(
            whole,
            plan.recipients[turns.len() as int].slack_id,
            broken,
            now,
        ));
    } else {
        assert(plan.excluded.take(plan.excluded.len() as int) =~= plan.excluded);
        assert(after.books() == after_exclusions(whole, plan.excluded.take(written), now)
            || after.books() == after_exclusions(
            whole,
            plan.excluded.take(plan.excluded.len() as int),
            now,
        ));
    }
}

/// Running the same command again retries exactly those whose turn failed, in the
/// order they had: they are the recipients of the next plan, and nobody else is.
pub proof fn law_next_run_retries_exactly_the_failures(
    people: Seq<PersonModel>,
    filter: PersonFilterModel,
    done: Seq<Seq<char>>,
    books: Books,
    turns: Seq<Turn>,
    now: i64,
    next_done: Seq<Seq<char>>,
)
    requires
        distinct_ids(people),
        all_settled(turns),
        lists_the_sent(done, books),
        planned(people, filter, done) matches Ok(plan) && turns.len() == plan.recipients.len()
            && lists_the_sent(next_done, after_run(books, plan, turns, now)),
    ensures
        planned(people, filter, next_done) matches Ok(next) && next.recipients == failures(
            planned(people, filter, done)->Ok_0.recipients,
            turns,
        ),
{
    let plan = planned(people, filter, done)->Ok_0;
    assert(plan.excluded.take(plan.excluded.len() as int) =~= plan.excluded);
    law_interrupted_run_is_resumed(
        people,
        filter,
        done,
        books,
        turns,
        now,
        after_run(books, plan, turns, now),
        next_done,
    );
    lemma_owed_after_all(plan.recipients, turns);
}

/// The people whose turn failed, in order.
pub open spec fn failures(recipients: Seq<PersonModel>, turns: Seq<Turn>) -> Seq<PersonModel>
    decreases recipients.len(),
{
    if recipients.len() == 0 {
        seq![]
    } else {
        let ahead = failures(recipients.drop_last(), turns);
        if turns[recipients.len() - 1].complaint() is Some {
            ahead.push(recipients.last())
        } else {
            ahead
        }
    }
}

proof fn lemma_owed_after_all(recipients: Seq<PersonModel>, turns: Seq<Turn>)
    requires
        recipients.len() <= turns.len(),
    ensures
        owed(recipients, turns) == failures(recipients, turns),
    decreases recipients.len(),
{
    if recipients.len() > 0 {
        lemma_owed_after_all(recipients.drop_last(), turns);
    }
}

/// A dry run walks the same path as a real one: it mints one code per recipient,
/// no two alike, "sends" each recipient their DM in order, and nothing fails.
pub proof fn law_dry_run_walks_every_recipient(
    people: Seq<PersonModel>,
    community: Seq<char>,
    ttl_secs: u64,
    m: DryRunMinter,
    g: DryRunMessenger,
    turns: Seq<Turn>,
    m_after: DryRunMinter,
    g_after: DryRunMessenger,
)
    requires
        history(people, community, ttl_secs, m, g, turns, m_after, g_after),
        all_settled(turns),
        m.minted + turns.len() <= usize::MAX,
    ensures
        m_after == (DryRunMinter { minted: (m.minted + turns.len()) as usize, ..m }),
        report(people, turns).failed.len() == 0,
        report(people, turns).sent.len() == turns.len(),
        g_after.sent.deep_view() == g.sent.deep_view() + Seq::new(
            turns.len(),
            |i: int|
                (
                    people[i].slack_id,
                    dm_text(
                        people[i],
                        community,
                        turns[i].minted->Ok_0.url,
                        datetime_text(turns[i].minted->Ok_0.expires_at as int),
                    ),
                ),
        ),
        forall|i: int|
            0 <= i < turns.len() ==> (#[trigger] turns[i]).minted == Ok::<InviteModel, Failure>(
                dry_run_invite(
                    m.host@,
                    (m.minted + i + 1) as nat,
                    m.base_time + (ttl_secs as i64),
                ),
            ),
        forall|i: int, j: int|
            0 <= i < j < turns.len() ==> (#[trigger] turns[i]).minted->Ok_0.code != (
            #[trigger] turns[j]).minted->Ok_0.code,
    decreases turns.len(),
{
    if turns.len() > 0 {
        let ahead = turns.drop_last();
        let p = people[turns.len() - 1];
        let (m_then, g_then) = choose|m_then: DryRunMinter, g_then: DryRunMessenger|
            {
                &&& history(people, community, ttl_secs, m, g, ahead, m_then, g_then)
                &&& #[trigger] took(
                    p,
                    community,
                    ttl_secs,
                    m_then,
                    g_then,
                    turns.last(),
                    m_after,
                    g_after,
                )
            };
        assert forall|k: int| 0 <= k < ahead.len() implies (#[trigger] ahead[k]).settled() by {
            assert(turns[k].settled());
        }
        law_dry_run_walks_every_recipient(
            people,
            community,
            ttl_secs,
            m,
            g,
            ahead,
            m_then,
            g_then,
        );
        assert(turns[turns.len() - 1].settled());
        assert forall|i: int| 0 <= i < turns.len() implies (
        #[trigger] turns[i]).minted == Ok::<InviteModel, Failure>(
            dry_run_invite(
                m.host@,
                (m.minted + i + 1) as nat,
                m.base_time + (ttl_secs as i64),
            ),
        ) by {
            if i < ahead.len() {
                assert(ahead[i] == turns[i]);
            }
        }
        assert(g_after.sent.deep_view() =~= g.sent.deep_view() + Seq::new(
            turns.len(),
            |i: int|
                (
                    people[i].slack_id,
                    dm_text(
                        people[i],
                        community,
                        turns[i].minted->Ok_0.url,
                        datetime_text(turns[i].minted->Ok_0.expires_at as int),
                    ),
                ),
        ));
        assert forall|i: int, j: int| 0 <= i < j < turns.len() implies (
        #[trigger] turns[i]).minted->Ok_0.code != (#[trigger] turns[j]).minted->Ok_0.code by {
            law_dry_run_codes_are_distinct((m.minted + i + 1) as nat, (m.minted + j + 1) as nat);
        }
    } else {
        assert(g_after.sent.deep_view() =~= g.sent.deep_view() + Seq::new(
            turns.len(),
            |i: int|
                (
                    people[i].slack_id,
                    dm_text(
                        people[i],
                        community,
                        turns[i].minted->Ok_0.url,
                        datetime_text(turns[i].minted->Ok_0.expires_at as int),
                    ),
                ),
        ));
    }
}

} // verus!
