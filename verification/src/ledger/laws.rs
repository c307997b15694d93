//! What the ledger's rows say.

use vstd::prelude::*;

use crate::ledger::{
    invite_write, law_states_round_trip, with_ledger_settings, Books, EventRow, State,
};

verus! {

/// Each state has its word; a person or a message is done with when it was sent or
/// skipped, and not before.
pub proof fn law_states_have_words(s: State)
    ensures
        s is Planned <==> s.word() == "planned"@,
        s is Minted <==> s.word() == "minted"@,
        s is Sent <==> s.word() == "sent"@,
        s is Failed <==> s.word() == "failed"@,
        s is Skipped <==> s.word() == "skipped"@,
        s.done() <==> s.word() == "sent"@ || s.word() == "skipped"@,
{
    law_states_round_trip(State::Planned);
    law_states_round_trip(State::Minted);
    law_states_round_trip(State::Sent);
    law_states_round_trip(State::Failed);
    law_states_round_trip(State::Skipped);
}

/// What a person's row says: the state by its word, or that it failed where the word
/// is none of them; the link, when it expires and the error as they are. They are
/// done with where the word is that for sent or skipped. Without a row, nothing is
/// said of them.
pub proof fn law_rows_say_what_happened(books: Books, id: Seq<char>)
    ensures
        !books.invites.contains_key(id) ==> books.invite(id) is None && !books.invite_done(id),
        books.invites.contains_key(id) ==> {
            let row = books.invites[id];
            &&& books.invite(id) matches Some(r) && {
                &&& r.slack_user_id == id
                &&& r.invite_url == row.url
                &&& r.expires_at == row.expires_at
                &&& r.error == row.error
                &&& r.state is Planned <==> row.state == "planned"@
                &&& r.state is Minted <==> row.state == "minted"@
                &&& r.state is Sent <==> row.state == "sent"@
                &&& r.state is Skipped <==> row.state == "skipped"@
            }
            &&& books.invite_done(id) <==> row.state == "sent"@ || row.state == "skipped"@
        },
{
    law_states_have_words(State::Planned);
    law_states_have_words(State::Minted);
    law_states_have_words(State::Sent);
    law_states_have_words(State::Failed);
    law_states_have_words(State::Skipped);
}

/// What a message's row says: the event it became, where it became one, and that it
/// is done with where the word is that for sent or skipped.
pub proof fn law_event_rows_say_what_happened(books: Books, channel: Seq<char>, ts: Seq<char>)
    ensures
        !books.events.contains_key((channel, ts)) ==> books.event_id(channel, ts) is None
            && !books.event_done(channel, ts),
        books.events.contains_key((channel, ts)) ==> books.event_id(channel, ts)
            == books.events[(channel, ts)].event_id && (books.event_done(channel, ts)
            <==> books.events[(channel, ts)].state == "sent"@ || books.events[(channel, ts)].state
            == "skipped"@),
{
    law_states_have_words(State::Planned);
    law_states_have_words(State::Minted);
    law_states_have_words(State::Sent);
    law_states_have_words(State::Failed);
    law_states_have_words(State::Skipped);
}

/// What recording an invite writes, column by column: each of the code, the link,
/// the expiry and the DM as given, or as it was where it is not; the state, the
/// error and the time as given.
pub proof fn law_recording_writes_each_column(
    books: Books,
    id: Seq<char>,
    state: State,
    invite: Option<(Seq<char>, Seq<char>, i64)>,
    dm: Option<(Seq<char>, Seq<char>)>,
    error: Option<Seq<char>>,
    now: i64,
)
    ensures
        ({
            let after = books.recording(id, invite_write(state, invite, dm, error, now));
            let row = after.invites[id];
            let old = books.invites[id];
            &&& after.invites.contains_key(id)
            &&& row.state == state.word()
            &&& row.error == error
            &&& row.updated_at == now
            &&& invite matches Some(i) ==> row.code == Some(i.0) && row.url == Some(i.1)
                && row.expires_at == Some(i.2)
            &&& dm matches Some(d) ==> row.dm_channel == Some(d.0) && row.dm_ts == Some(d.1)
            &&& invite is None && books.invites.contains_key(id) ==> row.code == old.code && row.url
                == old.url && row.expires_at == old.expires_at
            &&& dm is None && books.invites.contains_key(id) ==> row.dm_channel == old.dm_channel
                && row.dm_ts == old.dm_ts
            &&& invite is None && !books.invites.contains_key(id) ==> row.code is None && row.url is None
                && row.expires_at is None
            &&& dm is None && !books.invites.contains_key(id) ==> row.dm_channel is None
                && row.dm_ts is None
        }),
{
}

/// What recording a message writes: the event as given, or as it was where it is
/// not; the state, the error and the time as given. Nothing else is touched.
pub proof fn law_recording_an_event_writes_each_column(
    books: Books,
    key: (Seq<char>, Seq<char>),
    row: EventRow,
    other: (Seq<char>, Seq<char>),
)
    ensures
        ({
            let after = books.recording_event(key, row);
            &&& after.events.contains_key(key)
            &&& after.events[key].state == row.state
            &&& after.events[key].error == row.error
            &&& after.events[key].updated_at == row.updated_at
            &&& row.event_id is Some ==> after.events[key].event_id == row.event_id
            &&& row.event_id is None && books.events.contains_key(key) ==> after.events[key].event_id
                == books.events[key].event_id
            &&& row.event_id is None && !books.events.contains_key(key)
                ==> after.events[key].event_id is None
            &&& other != key ==> after.events.contains_key(other) == books.events.contains_key(other)
                && after.events[other] == books.events[other]
            &&& after.invites == books.invites
            &&& after.meta == books.meta
        }),
{
}

/// The settings a ledger asks for: a write-ahead journal, synchronised normally. No
/// other is changed.
pub proof fn law_ledgers_write_ahead(set: Map<Seq<char>, Seq<char>>, other: Seq<char>)
    requires
        other != "journal_mode"@,
        other != "synchronous"@,
    ensures
        with_ledger_settings(set).contains_key("journal_mode"@),
        with_ledger_settings(set)["journal_mode"@] == "WAL"@,
        with_ledger_settings(set).contains_key("synchronous"@),
        with_ledger_settings(set)["synchronous"@] == "NORMAL"@,
        with_ledger_settings(set).contains_key(other) == set.contains_key(other),
        set.contains_key(other) ==> with_ledger_settings(set)[other] == set[other],
{
    reveal_strlit("journal_mode");
    reveal_strlit("synchronous");
    assert("journal_mode"@.len() == 12 && "synchronous"@.len() == 11);
}

} // verus!
