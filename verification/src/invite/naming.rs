//! Who is invited, name by name and rule by rule.

use vstd::prelude::*;

use crate::error::Failure;
use crate::invite::laws::{distinct_ids, law_everyone_is_invited_or_explained};
use crate::invite::people::{
    by_activity, channels_of, everyone, listings, person_of, user_of, Exclusion, PersonModel,
};
use crate::invite::{
    dm_text, first_unknown, needle, offerable, picked, picks, picks_any, planned, preset_scope,
    preticked, reason_counts, scoped, sorted_out, verdict, wanted, PersonFilterModel, Scope,
};
use crate::ir::{ChannelModel, MessageModel, RecordModel};
use crate::order::lemma_kept;
use crate::tally::count_in;
use crate::text::laws::{
    all_white, has_part, hugged, law_blanks_are_white_space, law_case_is_that_of_ascii,
    law_leading_marks_are_dropped, law_trimming_takes_off_blanks, same_letters,
};

verus! {

// ── selectors ────────────────────────────────────────────────────────────────

/// Whether a person goes by an id, a handle or a display name: the id as it is,
/// the names in whatever case.
pub open spec fn known_as(p: PersonModel, called: Seq<char>) -> bool {
    p.slack_id == called || same_letters(p.name, called) || same_letters(p.display_name, called)
}

/// Whether a name is written plainly: no blanks around it, no `@` ahead.
pub open spec fn plainly(called: Seq<char>) -> bool {
    called.len() > 0 ==> hugged(called) && called[0] != '@'
}

/// Whether a selector is a plain name, with any blanks around it and any number of
/// `@` ahead.
pub open spec fn written_for(selector: Seq<char>, called: Seq<char>) -> bool {
    plainly(called) && exists|before: Seq<char>, ats: nat, behind: Seq<char>|
        all_white(before) && all_white(behind) && selector == #[trigger] decorated(
            before,
            ats,
            called,
            behind,
        )
}

/// A name with `@` ahead, between blanks.
pub open spec fn decorated(
    before: Seq<char>,
    ats: nat,
    called: Seq<char>,
    behind: Seq<char>,
) -> Seq<char> {
    before + (Seq::new(ats, |i: int| '@') + called) + behind
}

/// A name that is written plainly is a selector for itself.
pub proof fn law_plain_names_are_selectors(called: Seq<char>)
    requires
        plainly(called),
    ensures
        written_for(called, called),
{
    assert(called =~= decorated(seq![], 0, called, seq![]));
}

/// A selector picks the people who go by the name in it: by id, by handle or by
/// display name. Blanks around it and `@` ahead make no difference.
pub proof fn law_selectors_pick_by_id_or_name(
    p: PersonModel,
    selector: Seq<char>,
    called: Seq<char>,
)
    requires
        written_for(selector, called),
    ensures
        picks(selector, p) <==> known_as(p, called),
{
    let (before, ats, behind) = choose|before: Seq<char>, ats: nat, behind: Seq<char>|
        all_white(before) && all_white(behind) && selector == #[trigger] decorated(
            before,
            ats,
            called,
            behind,
        );
    let marked = Seq::new(ats, |i: int| '@') + called;
    law_blanks_are_white_space('@');
    if called.len() > 0 {
        assert(marked.last() == called.last());
    } else if ats > 0 {
        assert(marked.last() == '@');
    }
    law_trimming_takes_off_blanks(before, marked, behind);
    law_leading_marks_are_dropped('@', ats, called);
    assert(needle(selector) == called);
    law_case_is_that_of_ascii(p.name, called);
    law_case_is_that_of_ascii(p.display_name, called);
}

/// Whether selectors are written for names, one for each.
pub open spec fn all_written(selectors: Seq<Seq<char>>, called: Seq<Seq<char>>) -> bool {
    selectors.len() == called.len() && forall|j: int|
        0 <= j < selectors.len() ==> written_for(#[trigger] selectors[j], called[j])
}

/// Whether a person goes by one of some names.
pub open spec fn called_by(p: PersonModel, called: Seq<Seq<char>>) -> bool {
    exists|j: int| 0 <= j < called.len() && known_as(p, #[trigger] called[j])
}

/// Whether somebody goes by a name.
pub open spec fn somebody(people: Seq<PersonModel>, called: Seq<char>) -> bool {
    exists|i: int| 0 <= i < people.len() && known_as(#[trigger] people[i], called)
}

proof fn lemma_somebody(people: Seq<PersonModel>, selector: Seq<char>, called: Seq<char>)
    requires
        written_for(selector, called),
    ensures
        picks_any(selector, people) <==> somebody(people, called),
{
    if picks_any(selector, people) {
        let i = choose|i: int| 0 <= i < people.len() && #[trigger] picks(selector, people[i]);
        law_selectors_pick_by_id_or_name(people[i], selector, called);
        assert(known_as(people[i], called));
    }
    if somebody(people, called) {
        let i = choose|i: int| 0 <= i < people.len() && known_as(#[trigger] people[i], called);
        law_selectors_pick_by_id_or_name(people[i], selector, called);
        assert(picks(selector, people[i]));
    }
}

proof fn lemma_called_by(
    people: Seq<PersonModel>,
    selectors: Seq<Seq<char>>,
    called: Seq<Seq<char>>,
    k: int,
)
    requires
        distinct_ids(people),
        all_written(selectors, called),
        0 <= k < people.len(),
    ensures
        picked(selectors, people, people[k].slack_id) <==> called_by(people[k], called),
{
    let id = people[k].slack_id;
    if picked(selectors, people, id) {
        let (j, i) = choose|j: int, i: int|
            0 <= j < selectors.len() && 0 <= i < people.len() && #[trigger] picks(
                selectors[j],
                people[i],
            ) && people[i].slack_id == id;
        if i < k {
            assert(people[i].slack_id != people[k].slack_id);
        } else if i > k {
            assert(people[k].slack_id != people[i].slack_id);
        }
        law_selectors_pick_by_id_or_name(people[k], selectors[j], called[j]);
        assert(known_as(people[k], called[j]));
    }
    if called_by(people[k], called) {
        let j = choose|j: int| 0 <= j < called.len() && known_as(people[k], #[trigger] called[j]);
        law_selectors_pick_by_id_or_name(people[k], selectors[j], called[j]);
        assert(picks(selectors[j], people[k]));
    }
}

proof fn lemma_first_unknown(
    people: Seq<PersonModel>,
    selectors: Seq<Seq<char>>,
    called: Seq<Seq<char>>,
) -> (k: int)
    requires
        all_written(selectors, called),
    ensures
        0 <= k <= selectors.len(),
        forall|j: int| 0 <= j < k ==> somebody(people, #[trigger] called[j]),
        k < selectors.len() ==> !somebody(people, called[k]) && first_unknown(selectors, people)
            == Some(selectors[k]),
        k == selectors.len() ==> first_unknown(selectors, people) is None,
    decreases selectors.len(),
{
    if selectors.len() == 0 {
        0
    } else {
        let front = selectors.drop_last();
        let names = called.drop_last();
        assert forall|j: int| 0 <= j < front.len() implies written_for(
            #[trigger] front[j],
            names[j],
        ) by {
            assert(written_for(selectors[j], called[j]));
        }
        let k = lemma_first_unknown(people, front, names);
        assert forall|j: int| 0 <= j < k implies somebody(people, #[trigger] called[j]) by {
            assert(somebody(people, names[j]));
        }
        let last = selectors.len() - 1;
        assert(written_for(selectors[last], called[last]));
        lemma_somebody(people, selectors[last], called[last]);
        if k < front.len() {
            k
        } else if somebody(people, called[last]) {
            selectors.len() as int
        } else {
            last
        }
    }
}

/// A plan is refused for the first name that nobody goes by, among those to invite
/// and then among those to leave out; the refusal says which flag it was given
/// with. Where somebody goes by every name, there is a plan.
pub proof fn law_unknown_names_are_refused(
    people: Seq<PersonModel>,
    filter: PersonFilterModel,
    done: Seq<Seq<char>>,
    included: Seq<Seq<char>>,
    exclude: Seq<Seq<char>>,
) -> (r: (int, int))
    requires
        all_written(filter.included, included),
        all_written(filter.exclude, exclude),
    ensures
        0 <= r.0 <= included.len(),
        0 <= r.1 <= exclude.len(),
        forall|j: int| 0 <= j < r.0 ==> somebody(people, #[trigger] included[j]),
        forall|j: int| 0 <= j < r.1 ==> somebody(people, #[trigger] exclude[j]),
        r.0 < included.len() ==> !somebody(people, included[r.0]) && planned(people, filter, done)
            == Err::<crate::invite::PlanModel, Failure>(
            Failure::UnknownPerson { flag: "--users"@, selector: filter.included[r.0] },
        ),
        r.0 == included.len() && r.1 < exclude.len() ==> !somebody(people, exclude[r.1]) && planned(
            people,
            filter,
            done,
        ) == Err::<crate::invite::PlanModel, Failure>(
            Failure::UnknownPerson { flag: "--exclude-users"@, selector: filter.exclude[r.1] },
        ),
        r.0 == included.len() && r.1 == exclude.len() ==> planned(people, filter, done) is Ok,
{
    let a = lemma_first_unknown(people, filter.included, included);
    let b = lemma_first_unknown(people, filter.exclude, exclude);
    (a, b)
}

// ── recipients ───────────────────────────────────────────────────────────────

/// Whether a person is asked for: by name where names were given, else by being
/// what the scope says.
pub open spec fn asked_for(p: PersonModel, included: Seq<Seq<char>>, scope: Scope) -> bool {
    ||| included.len() > 0 && called_by(p, included)
    ||| included.len() == 0 && scope is Everyone
    ||| included.len() == 0 && scope is ImportedChannelMembers && p.channels.len() > 0
    ||| included.len() == 0 && scope is PostersOnly && p.message_count > 0
}

/// Whether a person is to be invited.
pub open spec fn invitable(
    p: PersonModel,
    included: Seq<Seq<char>>,
    exclude: Seq<Seq<char>>,
    scope: Scope,
    done: Seq<Seq<char>>,
) -> bool {
    &&& !p.is_bot
    &&& !p.is_deleted
    &&& !called_by(p, exclude)
    &&& asked_for(p, included, scope)
    &&& !done.contains(p.slack_id)
}

/// Those are invited, in the order of the list, who are asked for, by name or by
/// scope, and are no bots, not deactivated, not excluded by name and not invited
/// already. Everyone else is left out, in the order of the list.
pub proof fn law_plans_invite_who_is_asked_for(
    people: Seq<PersonModel>,
    filter: PersonFilterModel,
    done: Seq<Seq<char>>,
    included: Seq<Seq<char>>,
    exclude: Seq<Seq<char>>,
)
    requires
        distinct_ids(people),
        all_written(filter.included, included),
        all_written(filter.exclude, exclude),
    ensures
        planned(people, filter, done) matches Ok(plan) ==> plan.recipients == people.filter(
            |p: PersonModel| invitable(p, included, exclude, filter.scope, done),
        ) && plan.excluded.map_values(|x: (PersonModel, Exclusion)| x.0) == people.filter(
            |p: PersonModel| !invitable(p, included, exclude, filter.scope, done),
        ),
{
    assert forall|k: int| 0 <= k < people.len() implies (verdict(
        filter,
        people,
        done,
        #[trigger] people[k],
    ) is None <==> invitable(people[k], included, exclude, filter.scope, done)) by {
        lemma_called_by(people, filter.included, included, k);
        lemma_called_by(people, filter.exclude, exclude, k);
    }
    lemma_sorted(people, filter, done, included, exclude, people);
}

proof fn lemma_sorted(
    people: Seq<PersonModel>,
    filter: PersonFilterModel,
    done: Seq<Seq<char>>,
    included: Seq<Seq<char>>,
    exclude: Seq<Seq<char>>,
    list: Seq<PersonModel>,
)
    requires
        forall|k: int|
            0 <= k < list.len() ==> (verdict(filter, people, done, #[trigger] list[k]) is None
                <==> invitable(list[k], included, exclude, filter.scope, done)),
    ensures
        sorted_out(filter, people, done, list).recipients == list.filter(
            |p: PersonModel| invitable(p, included, exclude, filter.scope, done),
        ),
        sorted_out(filter, people, done, list).excluded.map_values(
            |x: (PersonModel, Exclusion)| x.0,
        ) == list.filter(|p: PersonModel| !invitable(p, included, exclude, filter.scope, done)),
    decreases list.len(),
{
    reveal(Seq::filter);
    let plan = sorted_out(filter, people, done, list);
    let f = |x: (PersonModel, Exclusion)| x.0;
    if list.len() > 0 {
        let front = list.drop_last();
        assert forall|k: int| 0 <= k < front.len() implies (verdict(
            filter,
            people,
            done,
            #[trigger] front[k],
        ) is None <==> invitable(front[k], included, exclude, filter.scope, done)) by {
            assert(front[k] == list[k]);
        }
        lemma_sorted(people, filter, done, included, exclude, front);
        let before = sorted_out(filter, people, done, front);
        assert(list.last() == list[list.len() - 1]);
        if let Some(why) = verdict(filter, people, done, list.last()) {
            assert(plan.excluded.map_values(f) =~= before.excluded.map_values(f).push(list.last()));
        }
    } else {
        assert(plan.excluded.map_values(f) =~= seq![]);
    }
}

/// Each who is left out is told the first reason that holds of them: that they are
/// a bot, that the account is deactivated, that they were excluded by name, that
/// they were not asked for (which reads differently for names, for posters and for
/// members), or that they were invited already.
pub proof fn law_those_left_out_are_told_why(
    people: Seq<PersonModel>,
    filter: PersonFilterModel,
    done: Seq<Seq<char>>,
    included: Seq<Seq<char>>,
    exclude: Seq<Seq<char>>,
    i: int,
)
    requires
        distinct_ids(people),
        all_written(filter.included, included),
        all_written(filter.exclude, exclude),
        planned(people, filter, done) is Ok,
        0 <= i < planned(people, filter, done)->Ok_0.excluded.len(),
    ensures
        ({
            let (p, why) = planned(people, filter, done)->Ok_0.excluded[i];
            let able = !p.is_bot && !p.is_deleted;
            let kept = able && !called_by(p, exclude);
            let asked = asked_for(p, included, filter.scope);
            &&& people.contains(p)
            &&& p.is_bot ==> why.words() == "is a bot"@
            &&& !p.is_bot && p.is_deleted ==> why.words() == "account is deactivated"@
            &&& able && !kept ==> why.words() == "excluded by operator"@
            &&& kept && !asked && included.len() > 0 ==> why.words() == "not selected"@
            &&& kept && !asked && included.len() == 0 && filter.scope is PostersOnly
                ==> why.words() == "never posted"@
            &&& kept && !asked && included.len() == 0 && filter.scope is ImportedChannelMembers
                ==> why.words() == "not in any imported channel"@
            &&& kept && asked ==> why.words() == "already invited (ledger)"@ && done.contains(
                p.slack_id,
            )
        }),
{
    law_everyone_is_invited_or_explained(people, filter, done);
    let plan = planned(people, filter, done)->Ok_0;
    let (p, why) = plan.excluded[i];
    assert(plan.excluded.contains((p, why)));
    let k = people.index_of(p);
    lemma_called_by(people, filter.included, included, k);
    lemma_called_by(people, filter.exclude, exclude, k);
}

/// Naming one person invites them, whichever way they are named: by id, by handle
/// or by display name. They are not refused as unknown, and are invited unless
/// they are a bot, deactivated or invited already.
pub proof fn law_naming_a_person_invites_them(
    people: Seq<PersonModel>,
    filter: PersonFilterModel,
    done: Seq<Seq<char>>,
    k: int,
    called: Seq<char>,
)
    requires
        distinct_ids(people),
        0 <= k < people.len(),
        called == people[k].slack_id || called == people[k].name || called
            == people[k].display_name,
        plainly(called),
        filter.included == seq![called],
        filter.exclude.len() == 0,
    ensures
        planned(people, filter, done) matches Ok(plan) && (plan.recipients.contains(people[k])
            <==> !people[k].is_bot && !people[k].is_deleted && !done.contains(people[k].slack_id)),
{
    let p = people[k];
    law_plain_names_are_selectors(called);
    assert(known_as(p, called));
    let none = Seq::<Seq<char>>::empty();
    assert(called_by(p, seq![called])) by {
        assert(known_as(p, seq![called][0]));
    }
    assert(!called_by(p, none));
    assert(somebody(people, called));
    assert(filter.included[0] == called);
    let (a, b) = law_unknown_names_are_refused(people, filter, done, seq![called], none);
    law_plans_invite_who_is_asked_for(people, filter, done, seq![called], none);
    let ask = |p: PersonModel| invitable(p, seq![called], none, filter.scope, done);
    lemma_kept(people, ask);
    let kept = people.filter(ask);
    if kept.contains(p) {
        assert(ask(kept[kept.index_of(p)]));
    }
    if !p.is_bot && !p.is_deleted && !done.contains(p.slack_id) {
        assert(ask(people[k]));
    }
}

/// Excluding a person keeps them out, whichever way they are named and whatever
/// else was asked for.
pub proof fn law_excluding_a_person_keeps_them_out(
    people: Seq<PersonModel>,
    filter: PersonFilterModel,
    done: Seq<Seq<char>>,
    k: int,
    j: int,
)
    requires
        distinct_ids(people),
        0 <= k < people.len(),
        0 <= j < filter.exclude.len(),
        filter.exclude[j] == people[k].slack_id || filter.exclude[j] == people[k].name
            || filter.exclude[j] == people[k].display_name,
        plainly(filter.exclude[j]),
    ensures
        planned(people, filter, done) matches Ok(plan) ==> !plan.recipients.contains(people[k]),
        filter.exclude.len() == 1 && filter.included.len() == 0 ==> planned(
            people,
            filter,
            done,
        ) is Ok,
{
    let called = filter.exclude[j];
    let p = people[k];
    law_plain_names_are_selectors(called);
    law_selectors_pick_by_id_or_name(p, called, called);
    assert(known_as(p, called));
    assert(picks(filter.exclude[j], people[k]));
    assert(picked(filter.exclude, people, p.slack_id));
    law_everyone_is_invited_or_explained(people, filter, done);
    if filter.exclude.len() == 1 && filter.included.len() == 0 {
        assert(filter.exclude =~= seq![called]);
        let none = Seq::<Seq<char>>::empty();
        assert(somebody(people, called));
        let (a, b) = law_unknown_names_are_refused(people, filter, done, none, seq![called]);
    }
}

// ── candidates ───────────────────────────────────────────────────────────────

/// Where a user has one record, the candidate is as it says.
pub proof fn law_candidates_are_as_recorded(rs: Seq<RecordModel>, i: int)
    requires
        0 <= i < rs.len(),
        rs[i] is User,
        forall|j: int|
            i < j < rs.len() ==> (#[trigger] rs[j] matches RecordModel::User(v) ==> v.slack_id
                != rs[i]->User_0.slack_id),
    ensures
        ({
            let u = rs[i]->User_0;
            let p = person_of(rs, u.slack_id);
            &&& by_activity(everyone(rs)).contains(p)
            &&& p.slack_id == u.slack_id
            &&& p.name == u.name
            &&& p.display_name == u.display_name
            &&& p.is_bot == u.is_bot
            &&& p.is_deleted == u.is_deleted
        }),
{
    lemma_user_at(rs, i);
    crate::invite::laws::law_candidates_are_the_user_table(rs);
}

proof fn lemma_user_at(rs: Seq<RecordModel>, i: int)
    requires
        0 <= i < rs.len(),
        rs[i] is User,
        forall|j: int|
            i < j < rs.len() ==> (#[trigger] rs[j] matches RecordModel::User(v) ==> v.slack_id
                != rs[i]->User_0.slack_id),
    ensures
        user_of(rs, rs[i]->User_0.slack_id) == Some(rs[i]->User_0),
    decreases rs.len(),
{
    let front = rs.drop_last();
    if i < front.len() {
        assert forall|j: int| i < j < front.len() implies (
        #[trigger] front[j] matches RecordModel::User(v) ==> v.slack_id
            != front[i]->User_0.slack_id) by {
            assert(front[j] == rs[j]);
        }
        lemma_user_at(front, i);
        assert(rs.last() == rs[rs.len() - 1]);
    }
}

/// A person has as many messages as the import holds of theirs, and is in the
/// channels that list them: with nothing imported they have none; a message adds
/// one to its author and to nobody else; a channel record adds the channel to those
/// it lists, and to nobody else; other records change neither.
pub proof fn law_messages_and_memberships_add_up(
    rs: Seq<RecordModel>,
    m: MessageModel,
    c: ChannelModel,
    other: RecordModel,
    id: Seq<char>,
)
    requires
        !(other is Message) && !(other is Channel),
        c.members.no_duplicates(),
    ensures
        person_of(seq![], id).message_count == 0,
        person_of(seq![], id).channels.len() == 0,
        m.user_slack_id == Some(id) ==> person_of(
            rs.push(RecordModel::Message(m)),
            id,
        ).message_count == person_of(rs, id).message_count + 1,
        m.user_slack_id != Some(id) ==> person_of(
            rs.push(RecordModel::Message(m)),
            id,
        ).message_count == person_of(rs, id).message_count,
        person_of(rs.push(RecordModel::Message(m)), id).channels == person_of(rs, id).channels,
        c.members.contains(id) ==> person_of(rs.push(RecordModel::Channel(c)), id).channels
            == person_of(rs, id).channels.push(c.slack_id),
        !c.members.contains(id) ==> person_of(rs.push(RecordModel::Channel(c)), id).channels
            == person_of(rs, id).channels,
        person_of(rs.push(RecordModel::Channel(c)), id).message_count == person_of(
            rs,
            id,
        ).message_count,
        person_of(rs.push(other), id).message_count == person_of(rs, id).message_count,
        person_of(rs.push(other), id).channels == person_of(rs, id).channels,
{
    assert(rs.push(RecordModel::Message(m)).drop_last() =~= rs);
    assert(rs.push(RecordModel::Channel(c)).drop_last() =~= rs);
    assert(rs.push(other).drop_last() =~= rs);
    lemma_listings_once(c.members, id, c.slack_id);
    if c.members.contains(id) {
        assert(channels_of(rs, id) + seq![c.slack_id] =~= channels_of(rs, id).push(c.slack_id));
    } else {
        assert(channels_of(rs, id) + seq![] =~= channels_of(rs, id));
    }
}

proof fn lemma_listings_once(members: Seq<Seq<char>>, id: Seq<char>, channel: Seq<char>)
    requires
        members.no_duplicates(),
    ensures
        members.contains(id) ==> listings(members, id, channel) == seq![channel],
        !members.contains(id) ==> listings(members, id, channel) == Seq::<Seq<char>>::empty(),
    decreases members.len(),
{
    if members.len() > 0 {
        let front = members.drop_last();
        lemma_listings_once(front, id, channel);
        assert(members.last() == members[members.len() - 1]);
        if front.contains(id) {
            let k = front.index_of(id);
            assert(members[k] == id);
            assert(members[k] != members[members.len() - 1]);
        } else if members.contains(id) {
            let k = members.index_of(id);
            if k < front.len() {
                assert(front[k] == id);
            }
        }
        if members.last() == id {
            assert(listings(members, id, channel) =~= seq![channel]);
        }
    }
}

// ── presets and messages ─────────────────────────────────────────────────────

/// What each preset of the picker ticks: members of imported channels, posters,
/// everyone, nobody. Bots and deactivated accounts are neither ticked nor offered.
pub proof fn law_presets_tick_what_they_say(people: Seq<PersonModel>, k: int)
    requires
        distinct_ids(people),
        0 <= k < people.len(),
    ensures
        ({
            let p = people[k];
            let able = !p.is_bot && !p.is_deleted;
            &&& preticked(people, 0, p.slack_id) <==> able && p.channels.len() > 0
            &&& preticked(people, 1, p.slack_id) <==> able && p.message_count > 0
            &&& preticked(people, 2, p.slack_id) <==> able
            &&& !preticked(people, 3, p.slack_id)
            &&& offerable(people).contains(p) <==> able
        }),
        offerable(people) == people.filter(|p: PersonModel| !p.is_bot && !p.is_deleted),
{
    let p = people[k];
    let able = !p.is_bot && !p.is_deleted;
    let offer = |p: PersonModel| p.barred() is None;
    assert(offer =~= (|p: PersonModel| !p.is_bot && !p.is_deleted));
    lemma_kept(people, offer);
    if able {
        assert(offer(people[k]));
    }
    if offerable(people).contains(p) {
        assert(offer(offerable(people)[offerable(people).index_of(p)]));
    }
    lemma_ticked(people, 0, k);
    lemma_ticked(people, 1, k);
    lemma_ticked(people, 2, k);
}

proof fn lemma_ticked(people: Seq<PersonModel>, preset: nat, k: int)
    requires
        distinct_ids(people),
        0 <= k < people.len(),
        preset < 3,
    ensures
        preticked(people, preset, people[k].slack_id) <==> !people[k].is_bot
            && !people[k].is_deleted && wanted(scoped(preset_scope(preset)), people, people[k]),
{
    let f = scoped(preset_scope(preset));
    let id = people[k].slack_id;
    assert forall|q: Seq<char>| !picked(f.exclude, people, q) by {}
    if preticked(people, preset, id) {
        let i = choose|i: int|
            0 <= i < people.len() && people[i].slack_id == id && verdict(
                f,
                people,
                seq![],
                #[trigger] people[i],
            ) is None;
        if i < k {
            assert(people[i].slack_id != people[k].slack_id);
        } else if i > k {
            assert(people[k].slack_id != people[i].slack_id);
        }
    }
    if !people[k].is_bot && !people[k].is_deleted && wanted(f, people, people[k]) {
        assert(!picked(f.exclude, people, id));
        assert(verdict(f, people, seq![], people[k]) is None);
    }
}

/// A direct message greets the person by display name, and holds the community, the
/// invite and when it expires, each after the words that say what it is. It says
/// that the history is an archive, under placeholder accounts, that joining does not
/// make anyone the owner of it, and that the link lets anyone in.
pub proof fn law_messages_say_what_matters(
    p: PersonModel,
    community: Seq<char>,
    invite_url: Seq<char>,
    expires: Seq<char>,
)
    ensures
        ("Hi "@ + p.display_name).is_prefix_of(dm_text(p, community, invite_url, expires)),
        has_part(dm_text(p, community, invite_url, expires), " to "@ + community + ", "@),
        has_part(dm_text(p, community, invite_url, expires), "Your invite: "@ + invite_url + "\n"@),
        has_part(dm_text(p, community, invite_url, expires), "expires "@ + expires + "."@),
        has_part(
            dm_text(p, community, invite_url, expires),
            "the imported history is an *archive*"@,
        ),
        has_part(
            dm_text(p, community, invite_url, expires),
            "Old messages appear under placeholder \"[archive]\" accounts"@,
        ),
        has_part(
            dm_text(p, community, invite_url, expires),
            "it does not give you ownership of the archived messages"@,
        ),
        has_part(
            dm_text(p, community, invite_url, expires),
            "Anyone with this link can join, so please don't forward it."@,
        ),
{
    let s = dm_text(p, community, invite_url, expires);
    let t0 = "Hi "@;
    let t1 = " — we're moving our Slack history to "@;
    let t2 = ", a self-hosted Buzz community.\n\nYour invite: "@;
    let t3 = "\nThis link expires "@;
    let t4 = ".\n\nNote: the imported history is an *archive*. Old messages appear under placeholder \"[archive]\" accounts, not real identities — including yours. Joining gives you your own account going forward; it does not give you ownership of the archived messages.\n\nAnyone with this link can join, so please don't forward it."@;
    lemma_message_words();
    let (a1, a2, b2, b3, b4) = (
        t1.take(t1.len() - 4),
        t2.skip(2),
        t2.take(t2.len() - 13),
        t3.take(t3.len() - 8),
        t4.skip(1),
    );
    assert(s =~= t0 + p.display_name + (t1 + community + t2 + invite_url + t3 + expires + t4));
    assert(s =~= (t0 + p.display_name + a1) + (" to "@ + community + ", "@) + (a2 + invite_url + t3
        + expires + t4));
    assert(s =~= (t0 + p.display_name + t1 + community + b2) + ("Your invite: "@ + invite_url
        + "\n"@) + (t3.skip(1) + expires + t4));
    assert(s =~= (t0 + p.display_name + t1 + community + t2 + invite_url + b3) + ("expires "@
        + expires + "."@) + b4);
    lemma_note(t4);
    let lead = t0 + p.display_name + t1 + community + t2 + invite_url + t3 + expires;
    assert(s == lead + t4);
    lemma_stands_behind(
        lead,
        t4,
        "the imported history is an *archive*"@,
        9,
    );
    lemma_stands_behind(
        lead,
        t4,
        "Old messages appear under placeholder \"[archive]\" accounts"@,
        47,
    );
    lemma_stands_behind(
        lead,
        t4,
        "it does not give you ownership of the archived messages"@,
        196,
    );
    lemma_stands_behind(
        lead,
        t4,
        "Anyone with this link can join, so please don't forward it."@,
        254,
    );
}

/// What stands in a text stands in it with more ahead.
proof fn lemma_stands_behind(lead: Seq<char>, t: Seq<char>, part: Seq<char>, i: int)
    requires
        0 <= i,
        i + part.len() <= t.len(),
        t.subrange(i, i + part.len()) == part,
    ensures
        has_part(lead + t, part),
{
    let (a, b) = (lead + t.take(i), t.skip(i + part.len()));
    assert(t =~= t.take(i) + t.subrange(i, i + part.len()) + b);
    assert(lead + t =~= a + part + b);
}

proof fn lemma_note(t: Seq<char>)
    requires
        t
            == ".\n\nNote: the imported history is an *archive*. Old messages appear under placeholder \"[archive]\" accounts, not real identities — including yours. Joining gives you your own account going forward; it does not give you ownership of the archived messages.\n\nAnyone with this link can join, so please don't forward it."@,
    ensures
        9 + "the imported history is an *archive*"@.len() <= t.len(),
        t.subrange(
            9,
            9int + "the imported history is an *archive*"@.len(),
        ) == "the imported history is an *archive*"@,
        47 + "Old messages appear under placeholder \"[archive]\" accounts"@.len() <= t.len(),
        t.subrange(
            47,
            47int + "Old messages appear under placeholder \"[archive]\" accounts"@.len(),
        ) == "Old messages appear under placeholder \"[archive]\" accounts"@,
        196 + "it does not give you ownership of the archived messages"@.len() <= t.len(),
        t.subrange(
            196,
            196int + "it does not give you ownership of the archived messages"@.len(),
        ) == "it does not give you ownership of the archived messages"@,
        254 + "Anyone with this link can join, so please don't forward it."@.len() <= t.len(),
        t.subrange(
            254,
            254int + "Anyone with this link can join, so please don't forward it."@.len(),
        ) == "Anyone with this link can join, so please don't forward it."@,
{
    reveal_strlit(
        ".\n\nNote: the imported history is an *archive*. Old messages appear under placeholder \"[archive]\" accounts, not real identities — including yours. Joining gives you your own account going forward; it does not give you ownership of the archived messages.\n\nAnyone with this link can join, so please don't forward it.",
    );
    reveal_strlit("the imported history is an *archive*");
    reveal_strlit("Old messages appear under placeholder \"[archive]\" accounts");
    reveal_strlit("it does not give you ownership of the archived messages");
    reveal_strlit("Anyone with this link can join, so please don't forward it.");
}

proof fn lemma_message_words()
    ensures
        " — we're moving our Slack history to "@.len() > 4,
        " — we're moving our Slack history to "@.skip(
            " — we're moving our Slack history to "@.len() - 4,
        ) == " to "@,
        ", a self-hosted Buzz community.\n\nYour invite: "@.len() > 13,
        ", a self-hosted Buzz community.\n\nYour invite: "@.take(2) == ", "@,
        ", a self-hosted Buzz community.\n\nYour invite: "@.skip(
            ", a self-hosted Buzz community.\n\nYour invite: "@.len() - 13,
        ) == "Your invite: "@,
        "\nThis link expires "@.len() > 8,
        "\nThis link expires "@.take(1) == "\n"@,
        "\nThis link expires "@.skip("\nThis link expires "@.len() - 8) == "expires "@,
        ".\n\nNote: the imported history is an *archive*. Old messages appear under placeholder \"[archive]\" accounts, not real identities — including yours. Joining gives you your own account going forward; it does not give you ownership of the archived messages.\n\nAnyone with this link can join, so please don't forward it."@.len()
            > 1,
        ".\n\nNote: the imported history is an *archive*. Old messages appear under placeholder \"[archive]\" accounts, not real identities — including yours. Joining gives you your own account going forward; it does not give you ownership of the archived messages.\n\nAnyone with this link can join, so please don't forward it."@.take(
            1,
        ) == "."@,
{
    reveal_strlit(" — we're moving our Slack history to ");
    reveal_strlit(" to ");
    reveal_strlit(", a self-hosted Buzz community.\n\nYour invite: ");
    reveal_strlit(", ");
    reveal_strlit("Your invite: ");
    reveal_strlit("\nThis link expires ");
    reveal_strlit("\n");
    reveal_strlit("expires ");
    reveal_strlit(".");
    reveal_strlit(
        ".\n\nNote: the imported history is an *archive*. Old messages appear under placeholder \"[archive]\" accounts, not real identities — including yours. Joining gives you your own account going forward; it does not give you ownership of the archived messages.\n\nAnyone with this link can join, so please don't forward it.",
    );
}

/// Each reason is counted once for each who is left out for it.
pub proof fn law_reasons_are_counted(
    excluded: Seq<(PersonModel, Exclusion)>,
    p: PersonModel,
    why: Exclusion,
    other: Exclusion,
)
    requires
        other.words() != why.words(),
    ensures
        count_in(reason_counts(seq![]), why.words()) == 0,
        count_in(reason_counts(excluded.push((p, why))), why.words()) == count_in(
            reason_counts(excluded),
            why.words(),
        ) + 1,
        count_in(reason_counts(excluded.push((p, why))), other.words()) == count_in(
            reason_counts(excluded),
            other.words(),
        ),
{
    assert(excluded.push((p, why)).drop_last() =~= excluded);
}

} // verus!
