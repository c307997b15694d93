//! What inviting one person comes to, and on what terms.

use vstd::prelude::*;

use crate::error::Error;
use crate::fmt::datetime_text;
use crate::invite::buzz::{
    dry_run_invite, honoured_ttl, ttl_warning, DryRunMinter, Invite, Minter, Role,
    BUZZ_DEFAULT_TTL_SECS, DEFAULT_TTL_SECS,
};
use crate::invite::naming::law_messages_say_what_matters;
use crate::invite::people::{Exclusion, PersonModel};
use crate::invite::record_lines;
use crate::invite::run::{
    after_exclusions, after_turn, dm_answered, mint_answered, report, took, Turn,
};
use crate::invite::slack::{DryRunMessenger, Messenger, SentDm};
use crate::ledger::Books;
use crate::text::dec;
use crate::text::laws::{all_white, has_part, law_blank_text};

verus! {

/// What the ledger says of a person once their turn is over. Where no invite could
/// be minted, that it failed and why; where one was, its code, link and expiry, and
/// that it was sent, with the DM, or that it failed and why. Nobody else's row is
/// touched.
pub proof fn law_turns_leave_a_row(
    books: Books,
    id: Seq<char>,
    turn: Turn,
    now: i64,
    other: Seq<char>,
)
    ensures
        ({
            let after = after_turn(books, id, turn, now);
            let row = after.invites[id];
            let old = books.invites[id];
            &&& after.invites.contains_key(id)
            &&& row.updated_at == now
            &&& turn.minted matches Err(f) ==> {
                &&& row.state == "failed"@
                &&& row.error == Some("minting invite: "@ + f.message())
                &&& books.invites.contains_key(id) ==> row.code == old.code && row.url == old.url
                    && row.expires_at == old.expires_at
            }
            &&& turn.minted matches Ok(invite) ==> {
                &&& row.code == Some(invite.code)
                &&& row.url == Some(invite.url)
                &&& row.expires_at == Some(invite.expires_at)
                &&& turn.sent matches Some(Ok(dm)) ==> row.state == "sent"@ && row.error is None
                    && row.dm_channel == Some(dm.channel) && row.dm_ts == Some(dm.ts)
                &&& turn.sent matches Some(Err(f)) ==> row.state == "failed"@ && row.error == Some(
                    "sending DM: "@ + f.message(),
                )
                &&& turn.sent is None ==> row.state == "minted"@ && row.error is None
            }
            &&& other != id ==> after.invites.contains_key(other) == books.invites.contains_key(
                other,
            ) && after.invites[other] == books.invites[other]
            &&& after.events == books.events && after.meta == books.meta
        }),
{
}

/// A person whose turn went well is reported as sent, and any other as failed, with
/// what went wrong: minting, or sending.
pub proof fn law_turns_are_reported(people: Seq<PersonModel>, turns: Seq<Turn>, turn: Turn)
    requires
        turn.settled(),
    ensures
        ({
            let before = report(people, turns);
            let after = report(people, turns.push(turn));
            let id = people[turns.len() as int].slack_id;
            &&& turn.minted matches Err(f) ==> after.sent == before.sent && after.failed
                == before.failed.push((id, "minting invite: "@ + f.message()))
            &&& turn.sent matches Some(Err(f)) ==> after.sent == before.sent && after.failed
                == before.failed.push((id, "sending DM: "@ + f.message()))
            &&& turn.sent matches Some(Ok(dm)) ==> after.sent == before.sent.push(id)
                && after.failed == before.failed
        }),
        report(people, seq![]).sent.len() == 0 && report(people, seq![]).failed.len() == 0,
{
    assert(turns.push(turn).drop_last() =~= turns);
}

/// Who is left out is put down as skipped, with the reason in words, but for those
/// who were invited already: their rows stay as they are.
pub proof fn law_those_left_out_leave_a_row(
    books: Books,
    excluded: Seq<(PersonModel, Exclusion)>,
    p: PersonModel,
    why: Exclusion,
    now: i64,
    other: Seq<char>,
)
    ensures
        after_exclusions(books, seq![], now) == books,
        ({
            let before = after_exclusions(books, excluded, now);
            let after = after_exclusions(books, excluded.push((p, why)), now);
            let row = after.invites[p.slack_id];
            &&& why.words() == "already invited (ledger)"@ && why is AlreadyInvited ==> after
                == before
            &&& !(why is AlreadyInvited) ==> {
                &&& after.invites.contains_key(p.slack_id)
                &&& row.state == "skipped"@
                &&& row.error == Some(why.words())
                &&& row.updated_at == now
                &&& before.invites.contains_key(p.slack_id) ==> row.url
                    == before.invites[p.slack_id].url && row.code
                    == before.invites[p.slack_id].code
            }
            &&& other != p.slack_id ==> after.invites.contains_key(other)
                == before.invites.contains_key(other) && after.invites[other]
                == before.invites[other]
        }),
{
    assert(excluded.push((p, why)).drop_last() =~= excluded);
}

/// A message goes to the person whose turn it is, and has their invite in it: the
/// link, when it expires, to the minute, and where it leads. It is sent only where
/// an invite was minted, on the terms that were asked for.
pub proof fn law_messages_carry_the_invite<M: Minter, G: Messenger>(
    p: PersonModel,
    community: Seq<char>,
    ttl_secs: u64,
    m: M,
    g: G,
    turn: Turn,
    m_after: M,
    g_after: G,
)
    requires
        took(p, community, ttl_secs, m, g, turn, m_after, g_after),
    ensures
        mint_answered(m, ttl_secs, m_after, turn.minted),
        turn.sent is None ==> g_after == g,
        turn.sent matches Some(sent) ==> (turn.minted matches Ok(invite) && exists|body: Seq<char>|
            {
                &&& #[trigger] dm_answered(g, p.slack_id, body, g_after, sent)
                &&& ("Hi "@ + p.display_name).is_prefix_of(body)
                &&& has_part(body, " to "@ + community + ", "@)
                &&& has_part(body, "Your invite: "@ + invite.url + "\n"@)
                &&& has_part(
                    body,
                    "expires "@ + datetime_text(invite.expires_at as int) + "."@,
                )
            }),
{
    if let Some(sent) = turn.sent {
        if let Ok(invite) = turn.minted {
            law_messages_say_what_matters(
                p,
                community,
                invite.url,
                datetime_text(invite.expires_at as int),
            );
        }
    }
}

/// Owners and admins mint invites, and nobody else does.
pub proof fn law_owners_and_admins_mint(r: Role)
    ensures
        r.mints() <==> r.word() == "owner"@ || r.word() == "admin"@,
        r is Owner <==> r.word() == "owner"@,
        r is Admin <==> r.word() == "admin"@,
        r is Member <==> r.word() == "member"@,
        r is NoRole <==> r.word() == "none"@,
{
    reveal_strlit("owner");
    reveal_strlit("admin");
    reveal_strlit("member");
    reveal_strlit("none");
    assert("owner"@.len() == 5 && "admin"@.len() == 5 && "member"@.len() == 6 && "none"@.len()
        == 4);
    assert("owner"@[0] == 'o' && "admin"@[0] == 'a');
}

/// Invites last no less than a minute and no more than thirty days; what lies
/// between is left as it is. Where the time is changed, a warning says what was
/// asked for.
pub proof fn law_invites_last_between_a_minute_and_a_month(requested: u64)
    ensures
        requested < 60 ==> honoured_ttl(requested) == 60,
        60 <= requested <= 2_592_000 ==> honoured_ttl(requested) == requested && ttl_warning(
            requested,
        ) is None,
        requested > 2_592_000 ==> honoured_ttl(requested) == 2_592_000,
        requested < 60 || requested > 2_592_000 ==> (ttl_warning(requested) matches Some(w)
            && has_part(w, dec(requested as nat)) && has_part(w, dec(honoured_ttl(requested) as nat))),
        DEFAULT_TTL_SECS == 1_209_600,
        BUZZ_DEFAULT_TTL_SECS == 259_200,
{
    if requested > 2_592_000 {
        let w = ttl_warning(requested)->0;
        let (a, b) = ("requested TTL of "@, "s exceeds Buzz's 30-day cap; using "@);
        assert(w =~= a + dec(requested as nat) + (b + dec(2_592_000) + "s"@));
        assert(w =~= (a + dec(requested as nat) + b) + dec(2_592_000) + "s"@);
    }
    if requested < 60 {
        let w = ttl_warning(requested)->0;
        let (a, b) = ("requested TTL of "@, "s is below Buzz's 60s floor; using 60s"@);
        reveal_strlit("s is below Buzz's 60s floor; using 60s");
        assert(b.len() == 38);
        assert(w =~= a + dec(requested as nat) + b);
        assert(dec(60) =~= seq!['6', '0']) by {
            reveal_with_fuel(dec, 3);
        }
        assert(b =~= b.take(35) + dec(60) + b.skip(37));
        assert(w =~= (a + dec(requested as nat) + b.take(35)) + dec(60) + b.skip(37));
    }
}

/// An invite of a dry run cannot be taken for a real one, and is otherwise like one:
/// its link leads to the community's host and ends with its code.
pub proof fn law_dry_run_invites_are_marked(host: Seq<char>, n: nat, expires_at: i64)
    ensures
        ({
            let i = dry_run_invite(host, n, expires_at as int);
            &&& i.code == "DRY-RUN-NOT-A-REAL-CODE-"@ + dec(n)
            &&& i.url == "https://"@ + host + "/invite/"@ + i.code
            &&& i.expires_at == expires_at
        }),
{
}

/// A dry run numbers its invites from one on, lets them expire as long after its
/// own time as was asked for, and always gives the role it was made with.
pub proof fn law_dry_runs_answer_like_the_relay(
    before: DryRunMinter,
    after: DryRunMinter,
    ttl_secs: u64,
    role: Result<Role, Error>,
    answer: Result<Invite, Error>,
)
    requires
        before.minted < usize::MAX,
        ttl_secs <= i64::MAX,
        i64::MIN <= before.base_time + ttl_secs <= i64::MAX,
    ensures
        DryRunMinter::role_reply(before, after, role) ==> role == Ok::<Role, Error>(before.role)
            && after == before,
        DryRunMinter::mint_reply(before, ttl_secs, after, answer) ==> (answer matches Ok(i) && {
            &&& i.code@ == "DRY-RUN-NOT-A-REAL-CODE-"@ + dec((before.minted + 1) as nat)
            &&& i.url@ == "https://"@ + before.host@ + "/invite/"@ + i.code@
            &&& i.expires_at == before.base_time + ttl_secs
            &&& after.minted == before.minted + 1
            &&& after.role == before.role && after.host == before.host && after.base_time
                == before.base_time
        }),
{
}

/// A dry run keeps every message that it was given, with whom it was for, and sends
/// none.
pub proof fn law_dry_runs_keep_the_messages(
    before: DryRunMessenger,
    to: Seq<char>,
    body: Seq<char>,
    after: DryRunMessenger,
    answer: Result<SentDm, Error>,
)
    ensures
        DryRunMessenger::dm_reply(before, to, body, after, answer) ==> {
            &&& after.sent.deep_view() == before.sent.deep_view().push((to, body))
            &&& answer matches Ok(dm) && dm.channel@ == "DRYRUN-"@ + to && dm.ts@ == "0.000000"@
        },
{
}

/// The lines of an import that hold a record are those that are not blank, each with
/// its number in the file, counted from one, in order.
pub proof fn law_lines_keep_their_numbers(lines: Seq<Seq<char>>, k: int)
    requires
        lines.len() <= usize::MAX,
    ensures
        forall|i: int|
            0 <= i < lines.len() && !all_white(#[trigger] lines[i]) ==> record_lines(
                lines,
            ).contains(((i + 1) as usize, lines[i])),
        0 <= k < record_lines(lines).len() ==> {
            let (n, line) = record_lines(lines)[k];
            &&& 1 <= n <= lines.len()
            &&& line == lines[n - 1]
            &&& !all_white(line)
            &&& k > 0 ==> record_lines(lines)[k - 1].0 < n
        },
    decreases lines.len(),
{
    if lines.len() > 0 {
        let front = lines.drop_last();
        let before = record_lines(front);
        let all = record_lines(lines);
        law_blank_text(lines.last());
        law_lines_keep_their_numbers(front, k);
        if 0 < k {
            law_lines_keep_their_numbers(front, k - 1);
        }
        assert forall|i: int|
            0 <= i < lines.len() && !all_white(#[trigger] lines[i]) implies all.contains(
            ((i + 1) as usize, lines[i]),
        ) by {
            if i < front.len() {
                assert(front[i] == lines[i]);
                let j = before.index_of(((i + 1) as usize, lines[i]));
                assert(all[j] == before[j]);
            } else {
                assert(all[before.len() as int] == ((i + 1) as usize, lines[i]));
            }
        }
        if 0 <= k < all.len() && k < before.len() {
            assert(all[k] == before[k]);
        }
    }
}

} // verus!
