//! The people an import knows, and why one of them may not be invited.

use vstd::hash_map::StringHashMap;
use vstd::prelude::*;

use crate::ir::{Record, RecordModel, UserModel};
use crate::order::{order_of, positions, ranks, sorted_positions, sorts, Key, Rank};
use crate::text;
use crate::text::{chars_less, chars_of, lemma_lt_asymmetric, lemma_lt_total, lemma_lt_transitive, lt};

verus! {

/// Someone who could be invited.
#[derive(Debug, PartialEq)]
pub struct Person {
    pub slack_id: String,
    /// Slack handle (`alice`).
    pub name: String,
    /// Best human name, used in the DM greeting.
    pub display_name: String,
    pub is_bot: bool,
    pub is_deleted: bool,
    /// Channels in the import this person is a member of.
    pub channels: Vec<String>,
    /// Messages this person authored in the imported channels.
    pub message_count: usize,
}

/// The model of a [`Person`].
#[verifier::ext_equal]
pub struct PersonModel {
    pub slack_id: Seq<char>,
    pub name: Seq<char>,
    pub display_name: Seq<char>,
    pub is_bot: bool,
    pub is_deleted: bool,
    pub channels: Seq<Seq<char>>,
    pub message_count: nat,
}

impl DeepView for Person {
    type V = PersonModel;

    open spec fn deep_view(&self) -> PersonModel {
        PersonModel {
            slack_id: self.slack_id@,
            name: self.name@,
            display_name: self.display_name@,
            is_bot: self.is_bot,
            is_deleted: self.is_deleted,
            channels: self.channels.deep_view(),
            message_count: self.message_count as nat,
        }
    }
}

impl Clone for Person {
    fn clone(&self) -> (r: Self)
        ensures
            r.deep_view() == self.deep_view(),
    {
        Person {
            slack_id: self.slack_id.clone(),
            name: self.name.clone(),
            display_name: self.display_name.clone(),
            is_bot: self.is_bot,
            is_deleted: self.is_deleted,
            channels: text::copy_all(&self.channels),
            message_count: self.message_count,
        }
    }
}

impl PersonModel {
    /// Why a person could never be invited, regardless of selection.
    pub open spec fn barred(self) -> Option<Exclusion> {
        if self.is_bot {
            Some(Exclusion::Bot)
        } else if self.is_deleted {
            Some(Exclusion::Deactivated)
        } else {
            None
        }
    }
}

impl Person {
    /// Whether this person could ever be invited, regardless of selection.
    ///
    /// Bots have no human to onboard and deactivated accounts cannot join, so
    /// neither is ever a candidate. Both are reported, not silently dropped.
    pub(crate) fn hard_excluded(&self) -> (r: Option<Exclusion>)
        ensures
            r == self.deep_view().barred(),
    {
        if self.is_bot {
            Some(Exclusion::Bot)
        } else if self.is_deleted {
            Some(Exclusion::Deactivated)
        } else {
            None
        }
    }
}

/// Why someone is not being invited.
#[derive(Debug, Clone, Copy, PartialEq, Eq, Structural)]
pub enum Exclusion {
    Bot,
    Deactivated,
    /// Not a member of any imported channel.
    NotInImportedChannels,
    /// Never posted, and the operator asked for posters only.
    NeverPosted,
    /// Named in `--exclude-users`.
    ExcludedByOperator,
    /// Not picked in the interactive list, or not named in `--users`.
    NotSelected,
    /// The ledger says this person was already invited.
    AlreadyInvited,
}

impl DeepView for Exclusion {
    type V = Exclusion;

    open spec fn deep_view(&self) -> Exclusion {
        *self
    }
}

impl Exclusion {
    /// The reason in words.
    pub open spec fn words(self) -> Seq<char> {
        match self {
            Exclusion::Bot => "is a bot"@,
            Exclusion::Deactivated => "account is deactivated"@,
            Exclusion::NotInImportedChannels => "not in any imported channel"@,
            Exclusion::NeverPosted => "never posted"@,
            Exclusion::ExcludedByOperator => "excluded by operator"@,
            Exclusion::NotSelected => "not selected"@,
            Exclusion::AlreadyInvited => "already invited (ledger)"@,
        }
    }

    pub fn describe(self) -> (r: &'static str)
        ensures
            r@ == self.words(),
    {
        match self {
            Exclusion::Bot => "is a bot",
            Exclusion::Deactivated => "account is deactivated",
            Exclusion::NotInImportedChannels => "not in any imported channel",
            Exclusion::NeverPosted => "never posted",
            Exclusion::ExcludedByOperator => "excluded by operator",
            Exclusion::NotSelected => "not selected",
            Exclusion::AlreadyInvited => "already invited (ledger)",
        }
    }
}

// ── candidates ───────────────────────────────────────────────────────────────

/// The ids of an import's users, in order of first appearance.
pub open spec fn user_ids(rs: Seq<RecordModel>) -> Seq<Seq<char>>
    decreases rs.len(),
{
    if rs.len() == 0 {
        seq![]
    } else {
        let ids = user_ids(rs.drop_last());
        match rs.last() {
            RecordModel::User(u) => if ids.contains(u.slack_id) {
                ids
            } else {
                ids.push(u.slack_id)
            },
            _ => ids,
        }
    }
}

/// The user with an id. Of several records, the last one counts.
pub open spec fn user_of(rs: Seq<RecordModel>, id: Seq<char>) -> Option<UserModel>
    decreases rs.len(),
{
    if rs.len() == 0 {
        None
    } else {
        match rs.last() {
            RecordModel::User(u) => if u.slack_id == id {
                Some(u)
            } else {
                user_of(rs.drop_last(), id)
            },
            _ => user_of(rs.drop_last(), id),
        }
    }
}

/// A channel's id, as often as its member list names a user.
pub open spec fn listings(members: Seq<Seq<char>>, id: Seq<char>, channel: Seq<char>) -> Seq<
    Seq<char>,
>
    decreases members.len(),
{
    if members.len() == 0 {
        seq![]
    } else if members.last() == id {
        listings(members.drop_last(), id, channel).push(channel)
    } else {
        listings(members.drop_last(), id, channel)
    }
}

/// The imported channels that list a user as a member.
pub open spec fn channels_of(rs: Seq<RecordModel>, id: Seq<char>) -> Seq<Seq<char>>
    decreases rs.len(),
{
    if rs.len() == 0 {
        seq![]
    } else {
        match rs.last() {
            RecordModel::Channel(c) => channels_of(rs.drop_last(), id) + listings(
                c.members,
                id,
                c.slack_id,
            ),
            _ => channels_of(rs.drop_last(), id),
        }
    }
}

/// How many of the imported messages a user wrote.
pub open spec fn authored(rs: Seq<RecordModel>, id: Seq<char>) -> nat
    decreases rs.len(),
{
    if rs.len() == 0 {
        0
    } else {
        authored(rs.drop_last(), id) + match rs.last() {
            RecordModel::Message(m) => if m.user_slack_id == Some(id) {
                1nat
            } else {
                0nat
            },
            _ => 0nat,
        }
    }
}

/// A user of whom nothing but the user record is known.
pub open spec fn stranger(u: UserModel) -> PersonModel {
    PersonModel {
        slack_id: u.slack_id,
        name: u.name,
        display_name: u.display_name,
        is_bot: u.is_bot,
        is_deleted: u.is_deleted,
        channels: seq![],
        message_count: 0,
    }
}

/// The person with an id.
pub open spec fn person_of(rs: Seq<RecordModel>, id: Seq<char>) -> PersonModel {
    PersonModel {
        channels: channels_of(rs, id),
        message_count: authored(rs, id),
        ..stranger(user_of(rs, id)->0)
    }
}

/// Everyone in an import's user table, in order of first appearance.
pub open spec fn everyone(rs: Seq<RecordModel>) -> Seq<PersonModel> {
    Seq::new(user_ids(rs).len(), |k: int| person_of(rs, user_ids(rs)[k]))
}

/// What people are listed by: the most active first, and by id where that ties.
#[verifier::ext_equal]
pub struct Standing {
    pub message_count: nat,
    pub slack_id: Seq<char>,
}

impl Rank for Standing {
    open spec fn precedes(self, other: Self) -> bool {
        self.message_count > other.message_count || (self.message_count == other.message_count
            && lt(self.slack_id, other.slack_id))
    }

    proof fn lemma_asymmetric(a: Self, b: Self) {
        lemma_lt_asymmetric(a.slack_id, b.slack_id);
    }

    proof fn lemma_weak(a: Self, b: Self, c: Self) {
        let (x, y, z) = (a.slack_id, b.slack_id, c.slack_id);
        lemma_lt_total(x, y);
        lemma_lt_total(y, z);
        if lt(y, x) && lt(z, y) {
            lemma_lt_transitive(z, y, x);
        }
        lemma_lt_asymmetric(x, z);
    }
}

pub open spec fn standing(p: PersonModel) -> Standing {
    Standing { message_count: p.message_count, slack_id: p.slack_id }
}

pub open spec fn standings(ps: Seq<PersonModel>) -> Seq<Standing> {
    Seq::new(ps.len(), |i: int| standing(ps[i]))
}

/// People, the most active first.
pub open spec fn by_activity(ps: Seq<PersonModel>) -> Seq<PersonModel> {
    let o = order_of(standings(ps));
    Seq::new(o.len(), |i: int| ps[o[i]])
}

struct StandingKey {
    message_count: usize,
    slack_id: Vec<char>,
}

impl Key for StandingKey {
    type R = Standing;

    closed spec fn rank(self) -> Standing {
        Standing { message_count: self.message_count as nat, slack_id: self.slack_id@ }
    }

    fn is_before(&self, other: &Self) -> (r: bool) {
        if self.message_count != other.message_count {
            return self.message_count > other.message_count;
        }
        chars_less(&self.slack_id, &other.slack_id)
    }
}

/// Whether `index` says where each of `ids` stands, and holds nothing else.
spec fn indexes(index: Map<Seq<char>, usize>, ids: Seq<Seq<char>>) -> bool {
    &&& forall|k: int| 0 <= k < ids.len() ==> index.contains_key(#[trigger] ids[k])
    &&& forall|id: Seq<char>| #[trigger]
        index.contains_key(id) ==> index[id] < ids.len() && ids[index[id] as int] == id
    &&& forall|k: int| 0 <= k < ids.len() ==> index[#[trigger] ids[k]] == k
}

pub(crate) proof fn lemma_user_of(rs: Seq<RecordModel>, id: Seq<char>)
    ensures
        user_ids(rs).contains(id) <==> user_of(rs, id) is Some,
        user_of(rs, id) matches Some(u) ==> u.slack_id == id,
    decreases rs.len(),
{
    if rs.len() > 0 {
        lemma_user_of(rs.drop_last(), id);
        let ids = user_ids(rs.drop_last());
        if let RecordModel::User(u) = rs.last() {
            lemma_user_of(rs.drop_last(), u.slack_id);
            if !ids.contains(u.slack_id) {
                let more = ids.push(u.slack_id);
                assert(more.last() == u.slack_id);
                assert(more.contains(u.slack_id));
                if ids.contains(id) {
                    let k = choose|k: int| 0 <= k < ids.len() && ids[k] == id;
                    assert(more[k] == id);
                }
                if more.contains(id) && id != u.slack_id {
                    let k = choose|k: int| 0 <= k < more.len() && more[k] == id;
                    assert(ids[k] == id);
                }
            }
        }
    }
}

/// Everyone in the user table, without memberships and messages, and where each
/// stands.
fn enroll(records: &[Record]) -> (r: (Vec<Person>, StringHashMap<usize>))
    ensures
        ({
            let rs = records.deep_view();
            &&& r.0@.len() == user_ids(rs).len()
            &&& indexes(r.1@, user_ids(rs))
            &&& forall|k: int|
                0 <= k < r.0@.len() ==> (#[trigger] r.0@[k]).deep_view() == stranger(
                    user_of(rs, user_ids(rs)[k])->0,
                )
        }),
{
    let mut people: Vec<Person> = Vec::new();
    let mut index: StringHashMap<usize> = StringHashMap::new();
    let ghost rs = records.deep_view();
    let mut i: usize = 0;
    while i < records.len()
        invariant
            i <= records@.len(),
            rs == records.deep_view(),
            people@.len() == user_ids(rs.take(i as int)).len(),
            indexes(index@, user_ids(rs.take(i as int))),
            forall|k: int|
                0 <= k < people@.len() ==> (#[trigger] people@[k]).deep_view() == stranger(
                    user_of(rs.take(i as int), user_ids(rs.take(i as int))[k])->0,
                ),
        decreases records@.len() - i,
    {
        let ghost upto = rs.take(i + 1);
        let ghost ids = user_ids(rs.take(i as int));
        let ghost was = people@;
        proof {
            assert(upto.drop_last() =~= rs.take(i as int));
            assert(upto.last() == records@[i as int].deep_view());
        }
        if let Record::User(u) = &records[i] {
            let person = Person {
                slack_id: u.slack_id.clone(),
                name: u.name.clone(),
                display_name: u.display_name.clone(),
                is_bot: u.is_bot,
                is_deleted: u.is_deleted,
                channels: Vec::new(),
                message_count: 0,
            };
            assert(person.deep_view() =~= stranger(u.deep_view()));
            match index.get(u.slack_id.as_str()) {
                Some(at) => {
                    let at: usize = *at;
                    people.set(at, person);
                    assert(ids[at as int] == u.slack_id@);
                    assert(ids.contains(u.slack_id@));
                    assert forall|k: int| 0 <= k < people@.len() implies (
                    #[trigger] people@[k]).deep_view() == stranger(
                        user_of(upto, user_ids(upto)[k])->0,
                    ) by {
                        if k != at {
                            assert(people@[k] == was[k]);
                            assert(index@[ids[k]] == k);
                        }
                    }
                },
                None => {
                    let at: usize = people.len();
                    people.push(person);
                    index.insert(u.slack_id.clone(), at);
                    proof {
                        if ids.contains(u.slack_id@) {
                            let k = choose|k: int| 0 <= k < ids.len() && ids[k] == u.slack_id@;
                            assert(index@.contains_key(ids[k]));
                        }
                        assert(user_ids(upto) == ids.push(u.slack_id@));
                        assert forall|k: int| 0 <= k < people@.len() implies (
                        #[trigger] people@[k]).deep_view() == stranger(
                            user_of(upto, user_ids(upto)[k])->0,
                        ) by {
                            if k < at {
                                assert(people@[k] == was[k]);
                                assert(user_ids(upto)[k] == ids[k]);
                                assert(ids.contains(ids[k]));
                            }
                        }
                        assert forall|id: Seq<char>| #[trigger]
                            index@.contains_key(id) implies index@[id] < user_ids(upto).len()
                            && user_ids(upto)[index@[id] as int] == id by {}
                        assert forall|k: int| 0 <= k < user_ids(upto).len() implies index@[
                            #[trigger] user_ids(upto)[k]
                        ] == k by {
                            if k < at {
                                assert(user_ids(upto)[k] == ids[k]);
                                assert(ids.contains(ids[k]));
                            }
                        }
                        assert forall|k: int|
                            0 <= k < user_ids(upto).len() implies index@.contains_key(
                            #[trigger] user_ids(upto)[k],
                        ) by {
                            if k < at {
                                assert(user_ids(upto)[k] == ids[k]);
                            }
                        }
                    }
                },
            }
        }
        i += 1;
    }
    assert(rs.take(records@.len() as int) =~= rs);
    (people, index)
}

/// Notes one more membership of the person at `at`.
fn add_membership(people: &mut Vec<Person>, at: usize, channel: &String)
    requires
        at < old(people)@.len(),
    ensures
        final(people)@.len() == old(people)@.len(),
        final(people).deep_view() == old(people).deep_view().update(
            at as int,
            PersonModel {
                channels: old(people).deep_view()[at as int].channels.push(channel@),
                ..old(people).deep_view()[at as int]
            },
        ),
{
    let ghost was = people.deep_view();
    let ghost listed = people@[at as int].channels.deep_view();
    people[at].channels.push(channel.clone());
    assert(people@[at as int].channels.deep_view() =~= listed.push(channel@));
    assert(people.deep_view() =~= was.update(
        at as int,
        PersonModel { channels: was[at as int].channels.push(channel@), ..was[at as int] },
    ));
}

/// Notes one more message of the person at `at`.
fn add_message(people: &mut Vec<Person>, at: usize)
    requires
        at < old(people)@.len(),
        old(people)@[at as int].message_count < usize::MAX,
    ensures
        final(people)@.len() == old(people)@.len(),
        final(people).deep_view() == old(people).deep_view().update(
            at as int,
            PersonModel {
                message_count: old(people).deep_view()[at as int].message_count + 1,
                ..old(people).deep_view()[at as int]
            },
        ),
{
    let ghost was = people.deep_view();
    people[at].message_count += 1;
    assert(people.deep_view() =~= was.update(
        at as int,
        PersonModel { message_count: was[at as int].message_count + 1, ..was[at as int] },
    ));
}

proof fn lemma_authored_bound(rs: Seq<RecordModel>, id: Seq<char>)
    ensures
        authored(rs, id) <= rs.len(),
    decreases rs.len(),
{
    if rs.len() > 0 {
        lemma_authored_bound(rs.drop_last(), id);
    }
}

/// A person after some of the records have been gone through.
spec fn known_after(all: Seq<RecordModel>, seen: Seq<RecordModel>, id: Seq<char>) -> PersonModel {
    PersonModel {
        channels: channels_of(seen, id),
        message_count: authored(seen, id),
        ..stranger(user_of(all, id)->0)
    }
}

/// Notes a channel for each of its members.
fn add_members(
    people: &mut Vec<Person>,
    index: &StringHashMap<usize>,
    members: &Vec<String>,
    channel: &String,
    Ghost(ids): Ghost<Seq<Seq<char>>>,
)
    requires
        old(people)@.len() == ids.len(),
        indexes(index@, ids),
    ensures
        final(people)@.len() == ids.len(),
        forall|k: int|
            0 <= k < ids.len() ==> #[trigger] final(people).deep_view()[k] == (PersonModel {
                channels: old(people).deep_view()[k].channels + listings(
                    members.deep_view(),
                    ids[k],
                    channel@,
                ),
                ..old(people).deep_view()[k]
            }),
{
    let ghost was = people.deep_view();
    let ghost ms = members.deep_view();
    let mut j: usize = 0;
    proof {
        assert forall|k: int| 0 <= k < ids.len() implies #[trigger] people.deep_view()[k] == (
        PersonModel {
            channels: was[k].channels + listings(ms.take(0), ids[k], channel@),
            ..was[k]
        }) by {
            assert(was[k].channels + listings(ms.take(0), ids[k], channel@) =~= was[k].channels);
        }
    }
    while j < members.len()
        invariant
            j <= members@.len(),
            ms == members.deep_view(),
            people@.len() == ids.len(),
            was.len() == ids.len(),
            indexes(index@, ids),
            forall|k: int|
                0 <= k < ids.len() ==> #[trigger] people.deep_view()[k] == (PersonModel {
                    channels: was[k].channels + listings(ms.take(j as int), ids[k], channel@),
                    ..was[k]
                }),
        decreases members@.len() - j,
    {
        let ghost before = people.deep_view();
        let ghost upto = ms.take(j + 1);
        proof {
            assert(upto.drop_last() =~= ms.take(j as int));
            assert(upto.last() == members@[j as int]@);
        }
        if let Some(at) = index.get(members[j].as_str()) {
            let at: usize = *at;
            add_membership(people, at, channel);
        }
        proof {
            assert forall|k: int| 0 <= k < ids.len() implies #[trigger] people.deep_view()[k] == (
            PersonModel {
                channels: was[k].channels + listings(upto, ids[k], channel@),
                ..was[k]
            }) by {
                assert(index@.contains_key(ids[k]));
                assert(index@[ids[k]] == k);
                if ids[k] == upto.last() {
                    assert(before[k].channels.push(channel@) =~= was[k].channels + listings(
                        upto,
                        ids[k],
                        channel@,
                    ));
                } else {
                    assert(people.deep_view()[k] == before[k]);
                }
            }
        }
        j += 1;
    }
    assert(ms.take(members@.len() as int) =~= ms);
}

/// Build the candidate set from a parsed IR.
///
/// Channel membership comes from the `channel` records' `members`, and message
/// counts from the `message` records, so both reflect exactly what was imported.
pub fn candidates(records: &[Record]) -> (r: Vec<Person>)
    ensures
        r.deep_view() == by_activity(everyone(records.deep_view())),
{
    let ghost rs = records.deep_view();
    let ghost ids = user_ids(rs);
    let (people, index) = enroll(records);
    let mut people = people;
    let mut i: usize = 0;
    proof {
        assert forall|k: int| 0 <= k < ids.len() implies #[trigger] people.deep_view()[k]
            == known_after(rs, rs.take(0), ids[k]) by {
            assert(people@[k].deep_view() == stranger(user_of(rs, ids[k])->0));
        }
    }
    while i < records.len()
        invariant
            i <= records@.len(),
            rs == records.deep_view(),
            ids == user_ids(rs),
            people@.len() == ids.len(),
            indexes(index@, ids),
            forall|k: int|
                0 <= k < ids.len() ==> #[trigger] people.deep_view()[k] == known_after(
                    rs,
                    rs.take(i as int),
                    ids[k],
                ),
        decreases records@.len() - i,
    {
        let ghost before = people.deep_view();
        let ghost upto = rs.take(i + 1);
        proof {
            assert(upto.drop_last() =~= rs.take(i as int));
            assert(upto.last() == records@[i as int].deep_view());
        }
        match &records[i] {
            Record::Channel(c) => {
                add_members(&mut people, &index, &c.members, &c.slack_id, Ghost(ids));
                assert forall|k: int| 0 <= k < ids.len() implies #[trigger] people.deep_view()[k]
                    == known_after(rs, upto, ids[k]) by {
                    assert(before[k] == known_after(rs, rs.take(i as int), ids[k]));
                }
            },
            Record::Message(m) => {
                if let Some(id) = &m.user_slack_id {
                    if let Some(at) = index.get(id.as_str()) {
                        let at: usize = *at;
                        proof {
                            lemma_authored_bound(rs.take(i as int), ids[at as int]);
                            assert(people.deep_view()[at as int].message_count <= i);
                        }
                        add_message(&mut people, at);
                    }
                }
                assert forall|k: int| 0 <= k < ids.len() implies #[trigger] people.deep_view()[k]
                    == known_after(rs, upto, ids[k]) by {
                    assert(before[k] == known_after(rs, rs.take(i as int), ids[k]));
                    assert(index@.contains_key(ids[k]));
                    assert(index@[ids[k]] == k);
                }
            },
            _ => {
                assert forall|k: int| 0 <= k < ids.len() implies #[trigger] people.deep_view()[k]
                    == known_after(rs, upto, ids[k]) by {
                    assert(before[k] == known_after(rs, rs.take(i as int), ids[k]));
                }
            },
        }
        i += 1;
    }
    assert(rs.take(records@.len() as int) =~= rs);
    assert(people.deep_view() =~= everyone(rs));

    // Stable order: most active first, then by id so ties are deterministic.
    let mut keys: Vec<StandingKey> = Vec::new();
    let mut n: usize = 0;
    while n < people.len()
        invariant
            n <= people@.len(),
            keys@.len() == n,
            forall|k: int|
                0 <= k < n ==> (#[trigger] keys@[k]).rank() == standing(people.deep_view()[k]),
        decreases people@.len() - n,
    {
        let key = StandingKey {
            message_count: people[n].message_count,
            slack_id: chars_of(people[n].slack_id.as_str()),
        };
        assert(key.rank() == standing(people.deep_view()[n as int]));
        keys.push(key);
        n += 1;
    }
    let ghost ps = people.deep_view();
    assert(ranks(keys@) =~= standings(ps));
    let order = sorted_positions(&keys);
    let ghost o = positions(order@);
    let mut r: Vec<Person> = Vec::new();
    let mut p: usize = 0;
    while p < order.len()
        invariant
            p <= order@.len(),
            o == positions(order@),
            ps == people.deep_view(),
            sorts(standings(ps), o),
            r@.len() == p,
            forall|q: int| 0 <= q < p ==> (#[trigger] r@[q]).deep_view() == ps[o[q]],
        decreases order@.len() - p,
    {
        assert(0 <= o[p as int] < ps.len());
        let person = people[order[p]].clone();
        assert(person.deep_view() == ps[o[p as int]]);
        r.push(person);
        p += 1;
    }
    assert(r.deep_view() =~= by_activity(ps));
    r
}

} // verus!
