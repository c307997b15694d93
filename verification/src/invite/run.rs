//! Carrying a plan out.
//!
//! What the two services answer is theirs to decide. The contract of [`execute`]
//! is stated over a sequence of [`Turn`]s, the answers each recipient got: for
//! whatever was answered, who was messaged with what, what is reported, and what
//! the ledger holds afterwards all follow.

use vstd::prelude::*;

use crate::error::{Error, Failure};
use crate::fmt;
use crate::fmt::datetime_text;
use crate::invite::buzz::{Invite, InviteModel, Minter, Role};
use crate::invite::people::{Exclusion, Person, PersonModel};
use crate::invite::slack::{DmModel, Messenger, SentDm};
use crate::invite::{compose_dm, dm_text, Plan, PlanModel};
use crate::ledger::{invite_write, law_states_round_trip, Books, Ledger, State};
use crate::selection::outcome;
use crate::text;

verus! {

/// What actually happened.
#[derive(Debug, Clone, PartialEq)]
pub struct Outcome {
    pub sent: Vec<String>,
    /// `(slack_user_id, error)` — reported per person, never collapsed into a
    /// single "the import failed".
    pub failed: Vec<(String, String)>,
}

/// The model of an [`Outcome`].
#[verifier::ext_equal]
pub struct OutcomeModel {
    pub sent: Seq<Seq<char>>,
    pub failed: Seq<(Seq<char>, Seq<char>)>,
}

impl DeepView for Outcome {
    type V = OutcomeModel;

    open spec fn deep_view(&self) -> OutcomeModel {
        OutcomeModel { sent: self.sent.deep_view(), failed: self.failed.deep_view() }
    }
}

impl Default for Outcome {
    fn default() -> (r: Self)
        ensures
            r.deep_view() == (OutcomeModel { sent: seq![], failed: seq![] }),
    {
        let r = Outcome { sent: Vec::new(), failed: Vec::new() };
        assert(r.sent.deep_view() =~= seq![]);
        assert(r.failed.deep_view() =~= seq![]);
        r
    }
}

impl Outcome {
    pub fn is_complete(&self) -> (r: bool)
        ensures
            r == (self.deep_view().failed.len() == 0),
    {
        self.failed.len() == 0
    }
}

/// What the two services answered for one recipient. No DM was tried where
/// `sent` is nothing.
#[verifier::ext_equal]
pub struct Turn {
    pub minted: Result<InviteModel, Failure>,
    pub sent: Option<Result<DmModel, Failure>>,
}

impl Turn {
    /// Whether every step that follows from the answers was taken: a DM was
    /// tried where, and only where, there is a link to send.
    pub open spec fn settled(self) -> bool {
        self.minted is Ok <==> self.sent is Some
    }

    /// What went wrong; nothing when the DM was sent.
    pub open spec fn complaint(self) -> Option<Seq<char>> {
        match self.minted {
            Err(f) => Some("minting invite: "@ + f.message()),
            Ok(_) => match self.sent {
                Some(sent) => dm_complaint(sent),
                None => None,
            },
        }
    }
}

/// Whether asking for a code can have led from one minter to another, with this
/// answer.
pub open spec fn mint_answered<M: Minter>(
    m: M,
    ttl_secs: u64,
    m_after: M,
    minted: Result<InviteModel, Failure>,
) -> bool {
    exists|answer: Result<Invite, Error>|
        {
            &&& #[trigger] M::mint_reply(m, ttl_secs, m_after, answer)
            &&& outcome(answer) == minted
        }
}

/// Whether sending a DM can have led from one messenger to another, with this
/// answer.
pub open spec fn dm_answered<G: Messenger>(
    g: G,
    to: Seq<char>,
    body: Seq<char>,
    g_after: G,
    sent: Result<DmModel, Failure>,
) -> bool {
    exists|answer: Result<SentDm, Error>|
        {
            &&& #[trigger] G::dm_reply(g, to, body, g_after, answer)
            &&& outcome(answer) == sent
        }
}

/// Whether one recipient's turn can have led from one pair of services to
/// another: a code is asked for, and the link, if there is one, goes to that
/// person in the DM.
pub open spec fn took<M: Minter, G: Messenger>(
    p: PersonModel,
    community: Seq<char>,
    ttl_secs: u64,
    m: M,
    g: G,
    turn: Turn,
    m_after: M,
    g_after: G,
) -> bool {
    &&& mint_answered(m, ttl_secs, m_after, turn.minted)
    &&& match turn.sent {
        None => g_after == g,
        Some(sent) => turn.minted matches Ok(invite) && dm_answered(
            g,
            p.slack_id,
            dm_text(p, community, invite.url, datetime_text(invite.expires_at as int)),
            g_after,
            sent,
        ),
    }
}

/// Whether the turns of the first recipients, in order and one each, can have led
/// from one pair of services to another.
pub open spec fn history<M: Minter, G: Messenger>(
    people: Seq<PersonModel>,
    community: Seq<char>,
    ttl_secs: u64,
    m: M,
    g: G,
    turns: Seq<Turn>,
    m_after: M,
    g_after: G,
) -> bool
    decreases turns.len(),
{
    if turns.len() == 0 {
        m_after == m && g_after == g
    } else {
        &&& turns.len() <= people.len()
        &&& exists|m_then: M, g_then: G|
            {
                &&& history(
                    people,
                    community,
                    ttl_secs,
                    m,
                    g,
                    turns.drop_last(),
                    m_then,
                    g_then,
                )
                &&& #[trigger] took(
                    people[turns.len() - 1],
                    community,
                    ttl_secs,
                    m_then,
                    g_then,
                    turns.last(),
                    m_after,
                    g_after,
                )
            }
    }
}

/// Whether every turn went all the way.
pub open spec fn all_settled(turns: Seq<Turn>) -> bool {
    forall|i: int| 0 <= i < turns.len() ==> (#[trigger] turns[i]).settled()
}

/// The report on the first recipients' turns.
pub open spec fn report(people: Seq<PersonModel>, turns: Seq<Turn>) -> OutcomeModel
    decreases turns.len(),
{
    if turns.len() == 0 {
        OutcomeModel { sent: seq![], failed: seq![] }
    } else {
        let before = report(people, turns.drop_last());
        let id = people[turns.len() - 1].slack_id;
        match turns.last().complaint() {
            None => OutcomeModel { sent: before.sent.push(id), ..before },
            Some(why) => OutcomeModel { failed: before.failed.push((id, why)), ..before },
        }
    }
}

/// What went wrong with a DM; nothing when it was sent.
pub open spec fn dm_complaint(sent: Result<DmModel, Failure>) -> Option<Seq<char>> {
    match sent {
        Ok(_) => None,
        Err(f) => Some("sending DM: "@ + f.message()),
    }
}

/// Whether the books hold a person's code, as minted and not sent yet.
pub open spec fn holds_code(books: Books, id: Seq<char>, invite: InviteModel) -> bool {
    &&& books.invites.contains_key(id)
    &&& books.invites[id].code == Some(invite.code)
    &&& books.invite(id) matches Some(r) && r.state is Minted && r.invite_url == Some(invite.url)
        && r.expires_at == Some(invite.expires_at) && r.error is None
}

/// The books after a DM was tried.
pub open spec fn after_dm(
    books: Books,
    id: Seq<char>,
    sent: Result<DmModel, Failure>,
    now: i64,
) -> Books {
    match sent {
        Ok(dm) => books.recording(
            id,
            invite_write(State::Sent, None, Some((dm.channel, dm.ts)), None, now),
        ),
        Err(_) => books.recording(
            id,
            invite_write(State::Failed, None, None, dm_complaint(sent), now),
        ),
    }
}

/// The books after a person's turn. A code that was minted stays in them whether
/// or not the DM went out, and only a DM that went out is written down as sent.
pub open spec fn after_turn(books: Books, id: Seq<char>, turn: Turn, now: i64) -> Books {
    match turn.minted {
        Err(_) => books.recording(
            id,
            invite_write(State::Failed, None, None, turn.complaint(), now),
        ),
        Ok(invite) => {
            let minted = books.recording(
                id,
                invite_write(
                    State::Minted,
                    Some((invite.code, invite.url, invite.expires_at)),
                    None,
                    None,
                    now,
                ),
            );
            match turn.sent {
                None => minted,
                Some(sent) => after_dm(minted, id, sent, now),
            }
        },
    }
}

/// The books after a turn that the ledger broke off: what could not be written is
/// not in them. The code is written before the DM goes out, so whoever got the DM
/// is in them as minted, with the code.
pub open spec fn after_broken_turn(books: Books, id: Seq<char>, turn: Turn, now: i64) -> Books {
    if turn.minted is Ok && turn.sent is Some {
        after_turn(books, id, Turn { sent: None, ..turn }, now)
    } else {
        books
    }
}

/// The books after the first recipients' turns.
pub open spec fn after_turns(
    books: Books,
    people: Seq<PersonModel>,
    turns: Seq<Turn>,
    now: i64,
) -> Books
    decreases turns.len(),
{
    if turns.len() == 0 {
        books
    } else {
        after_turn(
            after_turns(books, people, turns.drop_last(), now),
            people[turns.len() - 1].slack_id,
            turns.last(),
            now,
        )
    }
}

/// The books after those left out have been written down, each with the reason.
/// Someone who was invited already keeps what is recorded.
pub open spec fn after_exclusions(
    books: Books,
    excluded: Seq<(PersonModel, Exclusion)>,
    now: i64,
) -> Books
    decreases excluded.len(),
{
    if excluded.len() == 0 {
        books
    } else {
        let before = after_exclusions(books, excluded.drop_last(), now);
        let (p, why) = excluded.last();
        if why is AlreadyInvited {
            before
        } else {
            before.recording(
                p.slack_id,
                invite_write(State::Skipped, None, None, Some(why.words()), now),
            )
        }
    }
}

/// The books after a whole run.
pub open spec fn after_run(books: Books, plan: PlanModel, turns: Seq<Turn>, now: i64) -> Books {
    after_exclusions(after_turns(books, plan.recipients, turns, now), plan.excluded, now)
}

/// Whether a run of `execute` can have ended as it did: every recipient had a
/// turn, the report says how each went, and the books hold it.
pub open spec fn carried_out<M: Minter, G: Messenger>(
    plan: PlanModel,
    community: Seq<char>,
    ttl_secs: u64,
    m: M,
    g: G,
    before: Ledger,
    now: i64,
    turns: Seq<Turn>,
    m_after: M,
    g_after: G,
    after: Ledger,
    r: OutcomeModel,
) -> bool {
    &&& history(plan.recipients, community, ttl_secs, m, g, turns, m_after, g_after)
    &&& turns.len() == plan.recipients.len()
    &&& all_settled(turns)
    &&& r == report(plan.recipients, turns)
    &&& before.is_kept() ==> after.is_kept() && after.books() == after_run(
        before.books(),
        plan,
        turns,
        now,
    )
}

/// Why a run stops that cannot write down how a person fared.
pub open spec fn unwritten(id: Seq<char>) -> Failure {
    Failure::Ledger { context: "recording invite for "@ + id }
}

/// Whether the ledger can have stopped a run of `execute` in a recipient's turn:
/// those ahead had theirs, and the books hold it, and of this one what was
/// written before the ledger failed.
pub open spec fn stopped_in_turn<M: Minter, G: Messenger>(
    plan: PlanModel,
    community: Seq<char>,
    ttl_secs: u64,
    m: M,
    g: G,
    before: Ledger,
    now: i64,
    turns: Seq<Turn>,
    broken: Turn,
    m_after: M,
    g_after: G,
    after: Ledger,
    why: Failure,
) -> bool {
    &&& turns.len() < plan.recipients.len()
    &&& history(
        plan.recipients,
        community,
        ttl_secs,
        m,
        g,
        turns.push(broken),
        m_after,
        g_after,
    )
    &&& all_settled(turns)
    &&& why == unwritten(plan.recipients[turns.len() as int].slack_id)
    &&& before.is_kept() ==> after.is_kept() && after.books() == after_broken_turn(
        after_turns(before.books(), plan.recipients, turns, now),
        plan.recipients[turns.len() as int].slack_id,
        broken,
        now,
    )
}

/// Whether the ledger can have stopped a run of `execute` while those left out
/// were written down: every recipient had a turn, and the books hold it, and the
/// first `written` of those left out.
pub open spec fn stopped_in_exclusions<M: Minter, G: Messenger>(
    plan: PlanModel,
    community: Seq<char>,
    ttl_secs: u64,
    m: M,
    g: G,
    before: Ledger,
    now: i64,
    turns: Seq<Turn>,
    written: int,
    m_after: M,
    g_after: G,
    after: Ledger,
    why: Failure,
) -> bool {
    &&& turns.len() == plan.recipients.len()
    &&& history(plan.recipients, community, ttl_secs, m, g, turns, m_after, g_after)
    &&& all_settled(turns)
    &&& 0 <= written < plan.excluded.len()
    &&& plan.excluded[written].1 !is AlreadyInvited
    &&& why == unwritten(plan.excluded[written].0.slack_id)
    &&& before.is_kept() ==> after.is_kept() && after.books() == after_exclusions(
        after_turns(before.books(), plan.recipients, turns, now),
        plan.excluded.take(written),
        now,
    )
}

/// Sends a recipient the DM with their code. The ledger holds the code already,
/// as minted, so that a crash from here on does not lose it. (`kept` says whether
/// the ledger was its own when the turn began.)
fn deliver<G: Messenger>(
    person: &Person,
    community: &str,
    invite: &Invite,
    messenger: &mut G,
    ledger: &mut Ledger,
    now: i64,
    Ghost(kept): Ghost<bool>,
) -> (r: (Result<Option<String>, Error>, Ghost<Result<DmModel, Failure>>))
    requires
        kept ==> old(ledger).is_kept() && holds_code(
            old(ledger).books(),
            person.slack_id@,
            invite.deep_view(),
        ),
    ensures
        dm_answered(
            *old(messenger),
            person.slack_id@,
            dm_text(
                person.deep_view(),
                community@,
                invite.url@,
                datetime_text(invite.expires_at as int),
            ),
            *final(messenger),
            r.1@,
        ),
        match r.0 {
            Ok(complaint) => {
                &&& complaint.deep_view() == dm_complaint(r.1@)
                &&& kept ==> final(ledger).is_kept() && final(ledger).books()
                    == after_dm(old(ledger).books(), person.slack_id@, r.1@, now)
            },
            Err(e) => {
                &&& e.deep_view() == unwritten(person.slack_id@)
                &&& e.carries_cause()
                &&& kept ==> final(ledger).is_kept() && final(ledger).books()
                    == old(ledger).books()
            },
        },
{
    let id = person.slack_id.as_str();
    let ghost g = *messenger;
    let expires = fmt::datetime(invite.expires_at);
    let body = compose_dm(person, community, invite.url.as_str(), expires.as_str());
    let reply = messenger.send_dm(id, body.as_str());
    let ghost sent = outcome(reply);
    assert(dm_answered(g, person.slack_id@, body@, *messenger, sent));
    match reply {
        Ok(dm) => {
            match ledger.record_invite(
                id,
                State::Sent,
                None,
                Some((dm.channel.as_str(), dm.ts.as_str())),
                None,
                now,
            ) {
                Ok(_) => (Ok(None), Ghost(sent)),
                Err(e) => (Err(e), Ghost(sent)),
            }
        },
        Err(e) => {
            let message = text::join2("sending DM: ", e.to_string().as_str());
            match ledger.record_invite(id, State::Failed, None, None, Some(message.as_str()), now) {
                Ok(_) => (Ok(Some(message)), Ghost(sent)),
                Err(e) => (Err(e), Ghost(sent)),
            }
        },
    }
}

/// Gives one recipient their turn: a code, and the DM with it.
fn invite_one<M: Minter, G: Messenger>(
    person: &Person,
    community: &str,
    ttl_secs: u64,
    minter: &mut M,
    messenger: &mut G,
    ledger: &mut Ledger,
    now: i64,
) -> (r: (Result<Option<String>, Error>, Ghost<Turn>))
    requires
        old(minter).capacity(ttl_secs) > 0,
    ensures
        final(minter).capacity(ttl_secs) + 1 >= old(minter).capacity(ttl_secs),
        took(
            person.deep_view(),
            community@,
            ttl_secs,
            *old(minter),
            *old(messenger),
            r.1@,
            *final(minter),
            *final(messenger),
        ),
        match r.0 {
            Ok(complaint) => {
                &&& r.1@.settled()
                &&& complaint.deep_view() == r.1@.complaint()
                &&& old(ledger).is_kept() ==> final(ledger).is_kept() && final(ledger).books()
                    == after_turn(old(ledger).books(), person.slack_id@, r.1@, now)
            },
            Err(e) => {
                &&& e.deep_view() == unwritten(person.slack_id@)
                &&& e.carries_cause()
                &&& old(ledger).is_kept() ==> final(ledger).is_kept() && final(ledger).books()
                    == after_broken_turn(old(ledger).books(), person.slack_id@, r.1@, now)
            },
        },
{
    let id = person.slack_id.as_str();
    let ghost m = *minter;
    let ghost kept = ledger.is_kept();
    let answer = minter.mint(ttl_secs);
    let ghost minted = outcome(answer);
    assert(mint_answered(m, ttl_secs, *minter, minted));
    let invite = match answer {
        Ok(invite) => invite,
        Err(e) => {
            let ghost turn = Turn { minted, sent: None };
            let message = text::join2("minting invite: ", e.to_string().as_str());
            return match ledger.record_invite(
                id,
                State::Failed,
                None,
                None,
                Some(message.as_str()),
                now,
            ) {
                Ok(_) => (Ok(Some(message)), Ghost(turn)),
                Err(e) => (Err(e), Ghost(turn)),
            };
        },
    };
    if let Err(e) = ledger.record_invite(
        id,
        State::Minted,
        Some((invite.code.as_str(), invite.url.as_str(), invite.expires_at)),
        None,
        None,
        now,
    ) {
        return (Err(e), Ghost(Turn { minted, sent: None }));
    }
    proof {
        law_states_round_trip(State::Minted);
    }
    let (result, sent) = deliver(
        person,
        community,
        &invite,
        messenger,
        ledger,
        now,
        Ghost(kept),
    );
    (result, Ghost(Turn { minted, sent: Some(sent@) }))
}

/// Mint an invite for each recipient and DM it to them.
///
/// The per-recipient order is deliberate:
///
/// 1. **Mint.** A failure here means no DM is sent, so nobody receives a
///    message promising a link that does not exist.
/// 2. **Record `Minted`, with the code.** Written *before* the DM so a crash in
///    between leaves the code in the ledger rather than losing it silently.
/// 3. **Send.**
/// 4. **Record `Sent`.** Only now is the person considered done, so a crash
///    before this point retries them — sending twice is bad, but never sending
///    is worse, and the ledger's `Sent` state is what makes the retry safe.
///
/// One recipient's failure never aborts the rest: a rate limit on person 40 of
/// 200 must not strand the remaining 160.
pub fn execute<M: Minter, G: Messenger>(
    plan: &Plan,
    community: &str,
    ttl_secs: u64,
    minter: &mut M,
    messenger: &mut G,
    ledger: &mut Ledger,
    now: i64,
) -> (r: Result<Outcome, Error>)
    requires
        old(minter).capacity(ttl_secs) >= plan.recipients.len(),
    ensures
        exists|m: M, role: Result<Role, Error>|
            {
                &&& #[trigger] M::role_reply(*old(minter), m, role)
                &&& match role {
                    Err(e) => {
                        &&& r == Err::<Outcome, Error>(e)
                        &&& *final(minter) == m
                        &&& *final(messenger) == *old(messenger)
                        &&& *final(ledger) == *old(ledger)
                    },
                    Ok(role) => if !role.mints() {
                        &&& outcome(r) == Err::<OutcomeModel, Failure>(
                            Failure::InsufficientRole { role: role.word(), community: community@ },
                        )
                        &&& *final(minter) == m
                        &&& *final(messenger) == *old(messenger)
                        &&& *final(ledger) == *old(ledger)
                    } else {
                        match r {
                            Ok(o) => exists|turns: Seq<Turn>| #[trigger]
                                carried_out(
                                    plan.deep_view(),
                                    community@,
                                    ttl_secs,
                                    m,
                                    *old(messenger),
                                    *old(ledger),
                                    now,
                                    turns,
                                    *final(minter),
                                    *final(messenger),
                                    *final(ledger),
                                    o.deep_view(),
                                ),
                            Err(e) => {
                                &&& e.carries_cause()
                                &&& {
                                    ||| exists|turns: Seq<Turn>, broken: Turn| #[trigger]
                                        stopped_in_turn(
                                            plan.deep_view(),
                                            community@,
                                            ttl_secs,
                                            m,
                                            *old(messenger),
                                            *old(ledger),
                                            now,
                                            turns,
                                            broken,
                                            *final(minter),
                                            *final(messenger),
                                            *final(ledger),
                                            e.deep_view(),
                                        )
                                    ||| exists|turns: Seq<Turn>, written: int| #[trigger]
                                        stopped_in_exclusions(
                                            plan.deep_view(),
                                            community@,
                                            ttl_secs,
                                            m,
                                            *old(messenger),
                                            *old(ledger),
                                            now,
                                            turns,
                                            written,
                                            *final(minter),
                                            *final(messenger),
                                            *final(ledger),
                                            e.deep_view(),
                                        )
                                }
                            },
                        }
                    },
                }
            },
{
    let ghost m0 = *minter;
    let ghost g0 = *messenger;
    let ghost books = ledger.books();
    let ghost was_kept = ledger.is_kept();
    let ghost p = plan.deep_view();
    // Fail before the first DM, not after the fortieth.
    let answer = minter.role();
    let ghost m = *minter;
    assert(M::role_reply(m0, m, answer));
    let role = match answer {
        Ok(role) => role,
        Err(e) => return Err(e),
    };
    if !role.can_mint() {
        return Err(
            Error::InsufficientRole {
                role: role.as_str().to_string(),
                community: community.to_string(),
            },
        );
    }
    let mut outcome = Outcome::default();
    let ghost mut turns: Seq<Turn> = seq![];
    assert(history(p.recipients, community@, ttl_secs, m, g0, turns, *minter, *messenger));
    let mut i: usize = 0;
    while i < plan.recipients.len()
        invariant
            i <= plan.recipients@.len(),
            p == plan.deep_view(),
            minter.capacity(ttl_secs) >= plan.recipients@.len() - i,
            turns.len() == i,
            history(p.recipients, community@, ttl_secs, m, g0, turns, *minter, *messenger),
            all_settled(turns),
            outcome.deep_view() == report(p.recipients, turns),
            was_kept ==> ledger.is_kept() && ledger.books() == after_turns(
                books,
                p.recipients,
                turns,
                now,
            ),
            M::role_reply(m0, m, answer),
            answer == Ok::<Role, Error>(role),
            role.mints(),
            m0 == *old(minter),
            g0 == *old(messenger),
            books == old(ledger).books(),
            was_kept == old(ledger).is_kept(),
        decreases plan.recipients@.len() - i,
    {
        let ghost m_then = *minter;
        let ghost g_then = *messenger;
        let ghost before = turns;
        let ghost was_sent = outcome.sent.deep_view();
        let ghost was_failed = outcome.failed.deep_view();
        let person = &plan.recipients[i].person;
        assert(p.recipients[i as int] == person.deep_view());
        let (result, turn) = invite_one(
            person,
            community,
            ttl_secs,
            minter,
            messenger,
            ledger,
            now,
        );
        proof {
            turns = before.push(turn@);
            assert(turns.drop_last() =~= before);
            assert(took(
                p.recipients[turns.len() - 1],
                community@,
                ttl_secs,
                m_then,
                g_then,
                turns.last(),
                *minter,
                *messenger,
            ));
            assert(history(p.recipients, community@, ttl_secs, m, g0, turns, *minter, *messenger));
        }
        let complaint = match result {
            Ok(complaint) => complaint,
            Err(e) => {
                assert(stopped_in_turn(
                    p,
                    community@,
                    ttl_secs,
                    m,
                    g0,
                    *old(ledger),
                    now,
                    before,
                    turn@,
                    *minter,
                    *messenger,
                    *ledger,
                    e.deep_view(),
                ));
                return Err(e);
            },
        };
        match complaint {
            None => {
                outcome.sent.push(person.slack_id.clone());
                assert(outcome.sent.deep_view() =~= was_sent.push(person.slack_id@));
            },
            Some(message) => {
                outcome.failed.push((person.slack_id.clone(), message));
                assert(outcome.failed.deep_view() =~= was_failed.push(
                    (person.slack_id@, message@),
                ));
            },
        }
        i += 1;
    }

    // Excluded people are recorded too, so a later run does not reconsider
    // someone the operator already ruled out.
    let ghost written = after_turns(books, p.recipients, turns, now);
    let mut j: usize = 0;
    while j < plan.excluded.len()
        invariant
            j <= plan.excluded@.len(),
            p == plan.deep_view(),
            history(p.recipients, community@, ttl_secs, m, g0, turns, *minter, *messenger),
            all_settled(turns),
            was_kept ==> ledger.is_kept() && ledger.books() == after_exclusions(
                written,
                p.excluded.take(j as int),
                now,
            ),
            M::role_reply(m0, m, answer),
            answer == Ok::<Role, Error>(role),
            role.mints(),
            m0 == *old(minter),
            g0 == *old(messenger),
            turns.len() == p.recipients.len(),
            written == after_turns(books, p.recipients, turns, now),
            books == old(ledger).books(),
            was_kept == old(ledger).is_kept(),
        decreases plan.excluded@.len() - j,
    {
        let ghost upto = p.excluded.take(j + 1);
        assert(upto.drop_last() =~= p.excluded.take(j as int));
        let entry = &plan.excluded[j];
        assert(upto.last() == (entry.0.deep_view(), entry.1));
        if !matches!(entry.1, Exclusion::AlreadyInvited) {
            if let Err(e) = ledger.record_invite(
                entry.0.slack_id.as_str(),
                State::Skipped,
                None,
                None,
                Some(entry.1.describe()),
                now,
            ) {
                assert(stopped_in_exclusions(
                    p,
                    community@,
                    ttl_secs,
                    m,
                    g0,
                    *old(ledger),
                    now,
                    turns,
                    j as int,
                    *minter,
                    *messenger,
                    *ledger,
                    e.deep_view(),
                ));
                return Err(e);
            }
        }
        j += 1;
    }
    assert(p.excluded.take(j as int) =~= p.excluded);
    assert(carried_out(
        p,
        community@,
        ttl_secs,
        m,
        g0,
        *old(ledger),
        now,
        turns,
        *minter,
        *messenger,
        *ledger,
        outcome.deep_view(),
    ));
    Ok(outcome)
}

} // verus!
