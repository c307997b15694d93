//! The resume ledger.
//!
//! Imports fail halfway. Always. A network blip at message 40,000 of 60,000, a
//! 429 storm, a laptop lid closing — and the only acceptable recovery is
//! re-running the same command and having it pick up where it stopped. That
//! requires durable per-record state, which is what this is.
//!
//! SQLite rather than a JSON file because the interesting operations are
//! "upsert one row" and "look up one key" against tens of thousands of rows,
//! repeatedly, with a crash possible between any two of them.
//!
//! Two tables, both keyed by the *Slack* identifier rather than anything Buzz
//! assigns. That is deliberate: the Slack id is the only thing that is stable
//! before the Buzz event exists, and therefore the only thing a resumed run can
//! look up.
//!
//! - `events` — `(channel_slack_id, slack_ts) → buzz_event_id`. Doubles as the
//!   thread map: `emit`'s second sub-pass resolves a reply's `thread_ts` by
//!   looking up the root's row. **Losing this table means thread replies can
//!   never be attached to their roots**, so it is durable state, not a cache.
//! - `invites` — `slack_user_id → invite code, DM outcome`. Stops a resumed run
//!   from DMing the same person twice.
//!
//! Whether a statement succeeds is SQLite's to say: the disk may be full, the
//! file may be locked. What the ledger holds afterwards is stated for a database
//! that is [`kept`]: one whose tables this module made, and that nothing but its
//! connection writes to. A write that failed has left it as it was.

use rusqlite::Connection;
use rusqlite::Error as SqliteError;
use rusqlite::OptionalExtension;
use vstd::prelude::*;

use crate::error::{Error, Failure};
use crate::order::strictly_ascending;
use crate::text;
use crate::text::same;

pub mod laws;

verus! {

/// How far a record got. Recorded rather than inferred so a resumed run can
/// distinguish "not attempted" from "attempted and failed".
#[derive(Debug, Clone, Copy, PartialEq, Eq, Structural)]
pub enum State {
    /// Planned but not yet attempted.
    Planned,
    /// The Buzz side succeeded (event accepted, or invite minted).
    Minted,
    /// Fully done, including any outbound message.
    Sent,
    /// Attempted and failed. Carries an error string.
    Failed,
    /// Deliberately not attempted (filtered out, or already a member).
    Skipped,
}

impl State {
    /// The state's name.
    pub open spec fn word(self) -> Seq<char> {
        match self {
            State::Planned => "planned"@,
            State::Minted => "minted"@,
            State::Sent => "sent"@,
            State::Failed => "failed"@,
            State::Skipped => "skipped"@,
        }
    }

    /// The state with this name.
    pub open spec fn named(s: Seq<char>) -> Option<State> {
        if s == "planned"@ {
            Some(State::Planned)
        } else if s == "minted"@ {
            Some(State::Minted)
        } else if s == "sent"@ {
            Some(State::Sent)
        } else if s == "failed"@ {
            Some(State::Failed)
        } else if s == "skipped"@ {
            Some(State::Skipped)
        } else {
            None
        }
    }

    /// Whether a resumed run should leave a record in this state alone.
    pub open spec fn done(self) -> bool {
        self is Sent || self is Skipped
    }

    fn as_str(self) -> (r: &'static str)
        ensures
            r@ == self.word(),
    {
        match self {
            State::Planned => "planned",
            State::Minted => "minted",
            State::Sent => "sent",
            State::Failed => "failed",
            State::Skipped => "skipped",
        }
    }

    fn parse(s: &str) -> (r: Option<Self>)
        ensures
            r == State::named(s@),
    {
        if same(s, "planned") {
            Some(State::Planned)
        } else if same(s, "minted") {
            Some(State::Minted)
        } else if same(s, "sent") {
            Some(State::Sent)
        } else if same(s, "failed") {
            Some(State::Failed)
        } else if same(s, "skipped") {
            Some(State::Skipped)
        } else {
            None
        }
    }

    /// Whether a resumed run should leave this record alone.
    ///
    /// `Failed` is deliberately *not* terminal — retrying a failure is the
    /// entire point of resuming. `Skipped` is terminal because it reflects an
    /// operator decision, not an error.
    pub fn is_done(self) -> (r: bool)
        ensures
            r == self.done(),
    {
        matches!(self, State::Sent | State::Skipped)
    }
}

/// A state read back is the state written.
pub proof fn law_states_round_trip(s: State)
    ensures
        State::named(s.word()) == Some(s),
{
    reveal_strlit("planned");
    reveal_strlit("minted");
    reveal_strlit("sent");
    reveal_strlit("failed");
    reveal_strlit("skipped");
    assert("planned"@.len() == 7 && "minted"@.len() == 6 && "sent"@.len() == 4);
    assert("failed"@.len() == 6 && "skipped"@.len() == 7);
    assert("planned"@[0] == 'p');
    assert("minted"@[0] == 'm');
    assert("failed"@[0] == 'f');
    assert("skipped"@[0] == 's');
}

/// One invite's recorded outcome.
#[derive(Debug, Clone, PartialEq)]
pub struct InviteRecord {
    pub slack_user_id: String,
    pub state: State,
    pub invite_url: Option<String>,
    pub expires_at: Option<i64>,
    pub error: Option<String>,
}

/// The model of an [`InviteRecord`].
#[verifier::ext_equal]
pub struct InviteModel {
    pub slack_user_id: Seq<char>,
    pub state: State,
    pub invite_url: Option<Seq<char>>,
    pub expires_at: Option<i64>,
    pub error: Option<Seq<char>>,
}

impl DeepView for InviteRecord {
    type V = InviteModel;

    open spec fn deep_view(&self) -> InviteModel {
        InviteModel {
            slack_user_id: self.slack_user_id@,
            state: self.state,
            invite_url: self.invite_url.deep_view(),
            expires_at: self.expires_at,
            error: self.error.deep_view(),
        }
    }
}

// ── rows ─────────────────────────────────────────────────────────────────────

/// A row of the `invites` table.
#[verifier::ext_equal]
pub struct InviteRow {
    pub code: Option<Seq<char>>,
    pub url: Option<Seq<char>>,
    pub expires_at: Option<i64>,
    pub dm_channel: Option<Seq<char>>,
    pub dm_ts: Option<Seq<char>>,
    pub state: Seq<char>,
    pub error: Option<Seq<char>>,
    pub updated_at: i64,
}

/// A row of the `events` table.
#[verifier::ext_equal]
pub struct EventRow {
    pub event_id: Option<Seq<char>>,
    pub state: Seq<char>,
    pub error: Option<Seq<char>>,
    pub updated_at: i64,
}

/// The new value, or the old one where there is no new one.
pub open spec fn coalesce<T>(new: Option<T>, old: Option<T>) -> Option<T> {
    if new is Some {
        new
    } else {
        old
    }
}

/// The `invites` table after one more write for a person: what the write leaves
/// out keeps its earlier value, but the state, the error and the time are always
/// those of the write.
pub open spec fn with_invite(
    rows: Map<Seq<char>, InviteRow>,
    id: Seq<char>,
    new: InviteRow,
) -> Map<Seq<char>, InviteRow> {
    if rows.contains_key(id) {
        let old = rows[id];
        rows.insert(
            id,
            InviteRow {
                code: coalesce(new.code, old.code),
                url: coalesce(new.url, old.url),
                expires_at: coalesce(new.expires_at, old.expires_at),
                dm_channel: coalesce(new.dm_channel, old.dm_channel),
                dm_ts: coalesce(new.dm_ts, old.dm_ts),
                ..new
            },
        )
    } else {
        rows.insert(id, new)
    }
}

/// The `events` table after one more write for a message.
pub open spec fn with_event(
    rows: Map<(Seq<char>, Seq<char>), EventRow>,
    key: (Seq<char>, Seq<char>),
    new: EventRow,
) -> Map<(Seq<char>, Seq<char>), EventRow> {
    if rows.contains_key(key) {
        rows.insert(key, EventRow { event_id: coalesce(new.event_id, rows[key].event_id), ..new })
    } else {
        rows.insert(key, new)
    }
}

// ── SQLite ───────────────────────────────────────────────────────────────────

/// A connection to a SQLite database. Opaque: what it holds has names below.
#[verifier::external_type_specification]
#[verifier::external_body]
pub struct ExConnection(Connection);

/// Whether a database is new: nothing was created in it yet, no other connection
/// can reach it, and no transaction is open on it.
pub uninterp spec fn fresh(conn: Connection) -> bool;

/// Whether a database is the ledger's own: its tables are those that
/// [`create_schema`] makes, nothing but this connection writes to it, and no
/// transaction is open on it.
pub uninterp spec fn kept(conn: Connection) -> bool;

/// The rows of the `invites` table, by `slack_user_id`.
pub uninterp spec fn invite_rows(conn: Connection) -> Map<Seq<char>, InviteRow>;

/// The rows of the `events` table, by `channel_slack_id` and `slack_ts`.
pub uninterp spec fn event_rows(conn: Connection) -> Map<(Seq<char>, Seq<char>), EventRow>;

/// The rows of the `meta` table, by `key`.
pub uninterp spec fn meta_rows(conn: Connection) -> Map<Seq<char>, Seq<char>>;

/// The settings that were made on a connection, by name, each with the value last
/// given. (SQLite keeps a journal mode only where the database can have it: one
/// in memory stays without a write-ahead log.)
pub uninterp spec fn settings(conn: Connection) -> Map<Seq<char>, Seq<char>>;

/// Nothing set.
pub open spec fn no_settings() -> Map<Seq<char>, Seq<char>> {
    Map::empty()
}

/// Some settings with those that a ledger makes: it writes ahead, and syncs at
/// the checkpoints.
pub open spec fn with_ledger_settings(set: Map<Seq<char>, Seq<char>>) -> Map<
    Seq<char>,
    Seq<char>,
> {
    set.insert("journal_mode"@, "WAL"@).insert("synchronous"@, "NORMAL"@)
}

/// Whether every table holds what it held.
pub open spec fn unchanged(before: Connection, after: Connection) -> bool {
    &&& invite_rows(after) == invite_rows(before)
    &&& event_rows(after) == event_rows(before)
    &&& meta_rows(after) == meta_rows(before)
}

/// Whether every table is empty.
pub open spec fn no_rows(conn: Connection) -> bool {
    &&& invite_rows(conn) == Map::<Seq<char>, InviteRow>::empty()
    &&& event_rows(conn) == Map::<(Seq<char>, Seq<char>), EventRow>::empty()
    &&& meta_rows(conn) == Map::<Seq<char>, Seq<char>>::empty()
}

/// Opens a database in memory: [`Connection::open_in_memory`]. SQLite gives each
/// such connection a database of its own, which starts without tables. Nothing is
/// set on it yet.
#[verifier::external_body]
fn open_in_memory() -> (r: Result<Connection, SqliteError>)
    ensures
        r matches Ok(conn) ==> fresh(conn) && settings(conn) == no_settings(),
{
    Connection::open_in_memory()
}

/// Sets how the database journals and syncs: [`Connection::pragma_update`].
/// These two settings change no table. Whether a journal mode takes effect is up
/// to the database and its file system, and is left open.
#[verifier::external_body]
fn set_pragma(conn: &mut Connection, name: &str, value: &str) -> (r: Result<(), SqliteError>)
    requires
        (name@ == "journal_mode"@ && value@ == "WAL"@) || (name@ == "synchronous"@ && value@
            == "NORMAL"@),
    ensures
        r is Ok ==> settings(*final(conn)) == settings(*old(conn)).insert(name@, value@),
        fresh(*old(conn)) ==> fresh(*final(conn)),
        kept(*old(conn)) ==> kept(*final(conn)) && unchanged(*old(conn), *final(conn)),
{
    conn.pragma_update(None, name, value)
}

/// Creates the tables that are not there yet: [`Connection::execute_batch`]. In a
/// new database they start empty; tables that this statement made earlier keep
/// their rows.
#[verifier::external_body]
fn create_schema(conn: &mut Connection) -> (r: Result<(), SqliteError>)
    ensures
        r is Ok && fresh(*old(conn)) ==> kept(*final(conn)) && no_rows(*final(conn)),
        kept(*old(conn)) ==> kept(*final(conn)) && unchanged(*old(conn), *final(conn)),
        settings(*final(conn)) == settings(*old(conn)),
{
    conn.execute_batch(
        "CREATE TABLE IF NOT EXISTS events (
            channel_slack_id TEXT NOT NULL,
            slack_ts         TEXT NOT NULL,
            buzz_event_id    TEXT,
            state            TEXT NOT NULL,
            error            TEXT,
            updated_at       INTEGER NOT NULL,
            PRIMARY KEY (channel_slack_id, slack_ts)
        );
        CREATE TABLE IF NOT EXISTS invites (
            slack_user_id TEXT PRIMARY KEY,
            invite_code   TEXT,
            invite_url    TEXT,
            expires_at    INTEGER,
            dm_channel    TEXT,
            dm_ts         TEXT,
            state         TEXT NOT NULL,
            error         TEXT,
            updated_at    INTEGER NOT NULL
        );
        CREATE TABLE IF NOT EXISTS meta (
            key   TEXT PRIMARY KEY,
            value TEXT NOT NULL
        );",
    )
}

/// Writes one row of `invites`: [`Connection::execute`] on an upsert, which keeps
/// the earlier value of a column that is left out. Whether it succeeds depends on
/// the machine; outside a transaction, SQLite rolls a failed statement back.
#[verifier::external_body]
fn upsert_invite(
    conn: &mut Connection,
    id: &str,
    invite: (Option<&str>, Option<&str>, Option<i64>),
    dm: (Option<&str>, Option<&str>),
    state: &str,
    error: Option<&str>,
    now: i64,
) -> (r: Result<usize, SqliteError>)
    ensures
        r is Ok && kept(*old(conn)) ==> kept(*final(conn)) && invite_rows(*final(conn))
            == with_invite(
            invite_rows(*old(conn)),
            id@,
            (InviteRow {
                code: invite.0.deep_view(),
                url: invite.1.deep_view(),
                expires_at: invite.2,
                dm_channel: dm.0.deep_view(),
                dm_ts: dm.1.deep_view(),
                state: state@,
                error: error.deep_view(),
                updated_at: now,
            }),
        ) && event_rows(*final(conn)) == event_rows(*old(conn)) && meta_rows(*final(conn))
            == meta_rows(*old(conn)),
        r is Err && kept(*old(conn)) ==> kept(*final(conn)) && unchanged(*old(conn), *final(conn)),
        settings(*final(conn)) == settings(*old(conn)),
{
    conn.execute(
        "INSERT INTO invites
           (slack_user_id, invite_code, invite_url, expires_at, dm_channel, dm_ts, state, error, updated_at)
         VALUES (?1, ?2, ?3, ?4, ?5, ?6, ?7, ?8, ?9)
         ON CONFLICT(slack_user_id) DO UPDATE SET
           invite_code = COALESCE(excluded.invite_code, invites.invite_code),
           invite_url  = COALESCE(excluded.invite_url,  invites.invite_url),
           expires_at  = COALESCE(excluded.expires_at,  invites.expires_at),
           dm_channel  = COALESCE(excluded.dm_channel,  invites.dm_channel),
           dm_ts       = COALESCE(excluded.dm_ts,       invites.dm_ts),
           state       = excluded.state,
           error       = excluded.error,
           updated_at  = excluded.updated_at",
        (id, invite.0, invite.1, invite.2, dm.0, dm.1, state, error, now),
    )
}

/// What a read of `invites` gives back: state, URL, expiry and error.
pub type InviteColumns = (String, Option<String>, Option<i64>, Option<String>);

/// Reads one row of `invites`: [`Connection::query_row`], with no row made
/// `None` by [`OptionalExtension::optional`].
#[verifier::external_body]
fn select_invite(conn: &Connection, id: &str) -> (r: Result<Option<InviteColumns>, SqliteError>)
    ensures
        r matches Ok(row) ==> kept(*conn) ==> match row {
            Some((state, url, expires_at, error)) => {
                let rows = invite_rows(*conn);
                &&& rows.contains_key(id@)
                &&& rows[id@].state == state@
                &&& rows[id@].url == url.deep_view()
                &&& rows[id@].expires_at == expires_at
                &&& rows[id@].error == error.deep_view()
            },
            None => !invite_rows(*conn).contains_key(id@),
        },
{
    conn.query_row(
        "SELECT state, invite_url, expires_at, error FROM invites WHERE slack_user_id = ?1",
        [id],
        |row| Ok((row.get(0)?, row.get(1)?, row.get(2)?, row.get(3)?)),
    ).optional()
}

/// Reads the ids of the `invites` rows in one state, in order: a query prepared
/// by [`Connection::prepare`] and run by [`rusqlite::Statement::query_map`].
#[verifier::external_body]
fn select_invites_by_state(conn: &Connection, state: &str) -> (r: Result<Vec<String>, SqliteError>)
    ensures
        r matches Ok(v) ==> kept(*conn) ==> strictly_ascending(v.deep_view()) && forall|id: Seq<char>|
            #[trigger] v.deep_view().contains(id) <==> invite_rows(*conn).contains_key(id)
                && invite_rows(*conn)[id].state == state@,
{
    conn.prepare("SELECT slack_user_id FROM invites WHERE state = ?1 ORDER BY slack_user_id")?
        .query_map([state], |row| row.get(0))?
        .collect()
}

/// Writes one row of `events`: [`Connection::execute`] on an upsert, which keeps
/// the earlier event id where there is no new one. Whether it succeeds depends on
/// the machine; outside a transaction, SQLite rolls a failed statement back.
#[verifier::external_body]
fn upsert_event(
    conn: &mut Connection,
    channel: &str,
    ts: &str,
    event_id: Option<&str>,
    state: &str,
    error: Option<&str>,
    now: i64,
) -> (r: Result<usize, SqliteError>)
    ensures
        r is Ok && kept(*old(conn)) ==> kept(*final(conn)) && event_rows(*final(conn))
            == with_event(
            event_rows(*old(conn)),
            (channel@, ts@),
            (EventRow {
                event_id: event_id.deep_view(),
                state: state@,
                error: error.deep_view(),
                updated_at: now,
            }),
        ) && invite_rows(*final(conn)) == invite_rows(*old(conn)) && meta_rows(*final(conn))
            == meta_rows(*old(conn)),
        r is Err && kept(*old(conn)) ==> kept(*final(conn)) && unchanged(*old(conn), *final(conn)),
        settings(*final(conn)) == settings(*old(conn)),
{
    conn.execute(
        "INSERT INTO events
           (channel_slack_id, slack_ts, buzz_event_id, state, error, updated_at)
         VALUES (?1, ?2, ?3, ?4, ?5, ?6)
         ON CONFLICT(channel_slack_id, slack_ts) DO UPDATE SET
           buzz_event_id = COALESCE(excluded.buzz_event_id, events.buzz_event_id),
           state         = excluded.state,
           error         = excluded.error,
           updated_at    = excluded.updated_at",
        (channel, ts, event_id, state, error, now),
    )
}

/// Reads one row of `events`, its event id and its state:
/// [`Connection::query_row`], with no row made `None` by
/// [`OptionalExtension::optional`].
#[verifier::external_body]
fn select_event(conn: &Connection, channel: &str, ts: &str) -> (r: Result<
    Option<(Option<String>, String)>,
    SqliteError,
>)
    ensures
        r matches Ok(row) ==> kept(*conn) ==> match row {
            Some((event_id, state)) => {
                let rows = event_rows(*conn);
                &&& rows.contains_key((channel@, ts@))
                &&& rows[(channel@, ts@)].event_id == event_id.deep_view()
                &&& rows[(channel@, ts@)].state == state@
            },
            None => !event_rows(*conn).contains_key((channel@, ts@)),
        },
{
    conn.query_row(
        "SELECT buzz_event_id, state FROM events WHERE channel_slack_id = ?1 AND slack_ts = ?2",
        [channel, ts],
        |row| Ok((row.get(0)?, row.get(1)?)),
    ).optional()
}

/// Writes one row of `meta`: [`Connection::execute`] on an upsert. Whether it
/// succeeds depends on the machine; outside a transaction, SQLite rolls a failed
/// statement back.
#[verifier::external_body]
fn upsert_meta(conn: &mut Connection, key: &str, value: &str) -> (r: Result<usize, SqliteError>)
    ensures
        r is Ok && kept(*old(conn)) ==> kept(*final(conn)) && meta_rows(*final(conn)) == meta_rows(
            *old(conn),
        ).insert(key@, value@) && invite_rows(*final(conn)) == invite_rows(*old(conn))
            && event_rows(*final(conn)) == event_rows(*old(conn)),
        r is Err && kept(*old(conn)) ==> kept(*final(conn)) && unchanged(*old(conn), *final(conn)),
        settings(*final(conn)) == settings(*old(conn)),
{
    conn.execute(
        "INSERT INTO meta (key, value) VALUES (?1, ?2)
         ON CONFLICT(key) DO UPDATE SET value = excluded.value",
        [key, value],
    )
}

/// Reads one row of `meta`: [`Connection::query_row`], with no row made `None`
/// by [`OptionalExtension::optional`].
#[verifier::external_body]
fn select_meta(conn: &Connection, key: &str) -> (r: Result<Option<String>, SqliteError>)
    ensures
        r matches Ok(value) ==> kept(*conn) ==> match value {
            Some(v) => meta_rows(*conn).contains_key(key@) && meta_rows(*conn)[key@] == v@,
            None => !meta_rows(*conn).contains_key(key@),
        },
{
    conn.query_row("SELECT value FROM meta WHERE key = ?1", [key], |row| row.get(0)).optional()
}

// ── the ledger ───────────────────────────────────────────────────────────────

/// What a ledger holds.
#[verifier::ext_equal]
pub struct Books {
    pub invites: Map<Seq<char>, InviteRow>,
    pub events: Map<(Seq<char>, Seq<char>), EventRow>,
    pub meta: Map<Seq<char>, Seq<char>>,
}

/// A ledger in which nothing is recorded.
pub open spec fn blank_books() -> Books {
    Books { invites: Map::empty(), events: Map::empty(), meta: Map::empty() }
}

/// What an invite row says. A state this build does not know reads as a failure,
/// so that it is tried again.
pub open spec fn invite_of(id: Seq<char>, row: InviteRow) -> InviteModel {
    InviteModel {
        slack_user_id: id,
        state: match State::named(row.state) {
            Some(s) => s,
            None => State::Failed,
        },
        invite_url: row.url,
        expires_at: row.expires_at,
        error: row.error,
    }
}

impl Books {
    /// What is recorded for a person.
    pub open spec fn invite(self, id: Seq<char>) -> Option<InviteModel> {
        if self.invites.contains_key(id) {
            Some(invite_of(id, self.invites[id]))
        } else {
            None
        }
    }

    /// Whether a resumed run should skip a person.
    pub open spec fn invite_done(self, id: Seq<char>) -> bool {
        self.invite(id) matches Some(r) && r.state.done()
    }

    /// The Buzz event that a message became.
    pub open spec fn event_id(self, channel: Seq<char>, ts: Seq<char>) -> Option<Seq<char>> {
        if self.events.contains_key((channel, ts)) {
            self.events[(channel, ts)].event_id
        } else {
            None
        }
    }

    /// Whether a resumed run should skip a message.
    pub open spec fn event_done(self, channel: Seq<char>, ts: Seq<char>) -> bool {
        self.events.contains_key((channel, ts)) && (State::named(
            self.events[(channel, ts)].state,
        ) matches Some(s) && s.done())
    }

    /// The books after one more write for a person.
    pub open spec fn recording(self, id: Seq<char>, row: InviteRow) -> Books {
        Books { invites: with_invite(self.invites, id, row), ..self }
    }

    /// The books after one more write for a message.
    pub open spec fn recording_event(self, key: (Seq<char>, Seq<char>), row: EventRow) -> Books {
        Books { events: with_event(self.events, key, row), ..self }
    }
}

/// A write for a person, as a row.
pub open spec fn invite_write(
    state: State,
    invite: Option<(Seq<char>, Seq<char>, i64)>,
    dm: Option<(Seq<char>, Seq<char>)>,
    error: Option<Seq<char>>,
    now: i64,
) -> InviteRow {
    InviteRow {
        code: match invite {
            Some(i) => Some(i.0),
            None => None,
        },
        url: match invite {
            Some(i) => Some(i.1),
            None => None,
        },
        expires_at: match invite {
            Some(i) => Some(i.2),
            None => None,
        },
        dm_channel: match dm {
            Some(d) => Some(d.0),
            None => None,
        },
        dm_ts: match dm {
            Some(d) => Some(d.1),
            None => None,
        },
        state: state.word(),
        error,
        updated_at: now,
    }
}

/// What the columns of an invite row say.
pub open spec fn invite_of_columns(id: Seq<char>, columns: InviteColumns) -> InviteModel {
    InviteModel {
        slack_user_id: id,
        state: match State::named(columns.0@) {
            Some(s) => s,
            None => State::Failed,
        },
        invite_url: columns.1.deep_view(),
        expires_at: columns.2,
        error: columns.3.deep_view(),
    }
}

/// What the columns of an invite row say.
pub fn read_invite(slack_user_id: &str, columns: InviteColumns) -> (r: InviteRecord)
    ensures
        r.deep_view() == invite_of_columns(slack_user_id@, columns),
{
    let (state, invite_url, expires_at, error) = columns;
    InviteRecord {
        slack_user_id: slack_user_id.to_string(),
        state: match State::parse(state.as_str()) {
            Some(s) => s,
            None => State::Failed,
        },
        invite_url,
        expires_at,
        error,
    }
}

pub struct Ledger {
    conn: Connection,
}

/// Whether a result is an error of the ledger with this context, if it is one.
pub open spec fn fails_as<T>(r: Result<T, Error>, context: Seq<char>) -> bool {
    r matches Err(e) ==> e.deep_view() == (Failure::Ledger { context }) && e.carries_cause()
}

/// Whether a result is an error of setting up the ledger's database, if it is one.
pub open spec fn fails_to_start<T>(r: Result<T, Error>) -> bool {
    fails_as(r, "database operation failed"@) || fails_as(r, "creating ledger schema"@)
}

impl Ledger {
    /// Whether the ledger is its own: this module made its tables, and nothing
    /// else writes to it.
    pub closed spec fn is_kept(self) -> bool {
        kept(self.conn)
    }

    /// What the ledger holds.
    pub closed spec fn books(self) -> Books {
        Books {
            invites: invite_rows(self.conn),
            events: event_rows(self.conn),
            meta: meta_rows(self.conn),
        }
    }

    /// The settings that were made on the ledger's connection.
    pub closed spec fn settings(self) -> Map<Seq<char>, Seq<char>> {
        settings(self.conn)
    }

    /// An in-memory ledger, for tests and `--dry-run`.
    pub fn in_memory() -> (r: Result<Self, Error>)
        ensures
            r matches Ok(l) ==> l.is_kept() && l.books() == blank_books() && l.settings()
                == with_ledger_settings(no_settings()),
            fails_as(r, "opening an in-memory ledger"@) || fails_to_start(r),
    {
        let conn = match open_in_memory() {
            Ok(conn) => conn,
            Err(source) => {
                return Err(
                    Error::Ledger { context: "opening an in-memory ledger".to_string(), source },
                );
            },
        };
        Ledger::init(conn)
    }

    /// A ledger in the database that `conn` is open on, with its tables created
    /// where they are not there yet.
    pub fn init(conn: Connection) -> (r: Result<Self, Error>)
        ensures
            r matches Ok(l) ==> l.settings() == with_ledger_settings(settings(conn)),
            r matches Ok(l) ==> fresh(conn) ==> l.is_kept() && l.books() == blank_books(),
            r matches Ok(l) ==> kept(conn) ==> l.is_kept() && l.books() == (Books {
                invites: invite_rows(conn),
                events: event_rows(conn),
                meta: meta_rows(conn),
            }),
            fails_to_start(r),
    {
        let mut conn = conn;
        // WAL so a reader (a progress query) never blocks the writer, and so a
        // hard kill leaves a recoverable file rather than a truncated one.
        if let Err(source) = set_pragma(&mut conn, "journal_mode", "WAL") {
            return Err(Error::database(source));
        }
        if let Err(source) = set_pragma(&mut conn, "synchronous", "NORMAL") {
            return Err(Error::database(source));
        }
        if let Err(source) = create_schema(&mut conn) {
            return Err(Error::Ledger { context: "creating ledger schema".to_string(), source });
        }
        Ok(Ledger { conn })
    }

    // ── invites ──────────────────────────────────────────────────────────────

    /// Record an invite outcome, replacing any previous row for that person.
    pub fn record_invite(
        &mut self,
        slack_user_id: &str,
        state: State,
        invite: Option<(&str, &str, i64)>,
        dm: Option<(&str, &str)>,
        error: Option<&str>,
        now: i64,
    ) -> (r: Result<(), Error>)
        ensures
            r is Ok && old(self).is_kept() ==> final(self).is_kept() && final(self).books() == old(
                self,
            ).books().recording(
                slack_user_id@,
                invite_write(state, invite.deep_view(), dm.deep_view(), error.deep_view(), now),
            ),
            r is Err && old(self).is_kept() ==> final(self).is_kept() && final(self).books() == old(
                self,
            ).books(),
            final(self).settings() == old(self).settings(),
            fails_as(r, "recording invite for "@ + slack_user_id@),
    {
        let columns: (Option<&str>, Option<&str>, Option<i64>) = match invite {
            Some((c, u, e)) => (Some(c), Some(u), Some(e)),
            None => (None, None, None),
        };
        let dm_columns: (Option<&str>, Option<&str>) = match dm {
            Some((c, t)) => (Some(c), Some(t)),
            None => (None, None),
        };
        match upsert_invite(
            &mut self.conn,
            slack_user_id,
            columns,
            dm_columns,
            state.as_str(),
            error,
            now,
        ) {
            Ok(_) => Ok(()),
            Err(source) => Err(
                Error::Ledger {
                    context: text::join2("recording invite for ", slack_user_id),
                    source,
                },
            ),
        }
    }

    pub fn invite(&self, slack_user_id: &str) -> (r: Result<Option<InviteRecord>, Error>)
        ensures
            r matches Ok(record) ==> self.is_kept() ==> record.deep_view() == self.books().invite(
                slack_user_id@,
            ),
            r matches Ok(Some(record)) ==> record.slack_user_id@ == slack_user_id@,
            fails_as(r, "reading invite for "@ + slack_user_id@),
    {
        match select_invite(&self.conn, slack_user_id) {
            Ok(Some(columns)) => Ok(Some(read_invite(slack_user_id, columns))),
            Ok(None) => Ok(None),
            Err(source) => Err(
                Error::Ledger {
                    context: text::join2("reading invite for ", slack_user_id),
                    source,
                },
            ),
        }
    }

    /// Whether a resumed run should skip this person.
    pub fn invite_is_done(&self, slack_user_id: &str) -> (r: Result<bool, Error>)
        ensures
            r matches Ok(done) ==> self.is_kept() ==> done == self.books().invite_done(
                slack_user_id@,
            ),
            fails_as(r, "reading invite for "@ + slack_user_id@),
    {
        match self.invite(slack_user_id) {
            Ok(Some(record)) => Ok(record.state.is_done()),
            Ok(None) => Ok(false),
            Err(e) => Err(e),
        }
    }

    /// The people recorded in a state, in order of their ids.
    pub fn invites_by_state(&self, state: State) -> (r: Result<Vec<String>, Error>)
        ensures
            r matches Ok(v) ==> self.is_kept() ==> {
                &&& strictly_ascending(v.deep_view())
                &&& forall|id: Seq<char>| #[trigger]
                    v.deep_view().contains(id) <==> self.books().invites.contains_key(id)
                        && self.books().invites[id].state == state.word()
            },
            fails_as(r, "database operation failed"@),
    {
        match select_invites_by_state(&self.conn, state.as_str()) {
            Ok(v) => Ok(v),
            Err(source) => Err(Error::database(source)),
        }
    }

    // ── events (used by `emit`; the thread map lives here) ───────────────────

    pub fn record_event(
        &mut self,
        channel_slack_id: &str,
        slack_ts: &str,
        buzz_event_id: Option<&str>,
        state: State,
        error: Option<&str>,
        now: i64,
    ) -> (r: Result<(), Error>)
        ensures
            r is Ok && old(self).is_kept() ==> final(self).is_kept() && final(self).books() == old(
                self,
            ).books().recording_event(
                (channel_slack_id@, slack_ts@),
                (EventRow {
                    event_id: buzz_event_id.deep_view(),
                    state: state.word(),
                    error: error.deep_view(),
                    updated_at: now,
                }),
            ),
            r is Err && old(self).is_kept() ==> final(self).is_kept() && final(self).books() == old(
                self,
            ).books(),
            final(self).settings() == old(self).settings(),
            fails_as(r, "recording event "@ + channel_slack_id@ + "/"@ + slack_ts@),
    {
        match upsert_event(
            &mut self.conn,
            channel_slack_id,
            slack_ts,
            buzz_event_id,
            state.as_str(),
            error,
            now,
        ) {
            Ok(_) => Ok(()),
            Err(source) => Err(
                Error::Ledger {
                    context: text::join4("recording event ", channel_slack_id, "/", slack_ts),
                    source,
                },
            ),
        }
    }

    /// Resolve a Slack `ts` to the Buzz event id it produced.
    ///
    /// This is the thread map. `emit`'s reply pass calls it for every reply's
    /// `thread_ts`; a `None` here means the root was never successfully
    /// published and the reply must be deferred rather than orphaned.
    pub fn buzz_event_id(&self, channel_slack_id: &str, slack_ts: &str) -> (r: Result<
        Option<String>,
        Error,
    >)
        ensures
            r matches Ok(id) ==> self.is_kept() ==> id.deep_view() == self.books().event_id(
                channel_slack_id@,
                slack_ts@,
            ),
            fails_as(r, "reading thread map"@),
    {
        match select_event(&self.conn, channel_slack_id, slack_ts) {
            Ok(Some((event_id, _))) => Ok(event_id),
            Ok(None) => Ok(None),
            Err(source) => Err(
                Error::Ledger { context: "reading thread map".to_string(), source },
            ),
        }
    }

    pub fn event_is_done(&self, channel_slack_id: &str, slack_ts: &str) -> (r: Result<bool, Error>)
        ensures
            r matches Ok(done) ==> self.is_kept() ==> done == self.books().event_done(
                channel_slack_id@,
                slack_ts@,
            ),
            fails_as(r, "reading event state"@),
    {
        match select_event(&self.conn, channel_slack_id, slack_ts) {
            Ok(Some((_, state))) => match State::parse(state.as_str()) {
                Some(s) => Ok(s.is_done()),
                None => Ok(false),
            },
            Ok(None) => Ok(false),
            Err(source) => Err(
                Error::Ledger { context: "reading event state".to_string(), source },
            ),
        }
    }

    // ── meta ─────────────────────────────────────────────────────────────────

    /// Store a scalar. Used to bind a ledger to one import so a stale ledger
    /// cannot be silently reused against a different export or community.
    pub fn set_meta(&mut self, key: &str, value: &str) -> (r: Result<(), Error>)
        ensures
            r is Ok && old(self).is_kept() ==> final(self).is_kept() && final(self).books() == (
            Books { meta: old(self).books().meta.insert(key@, value@), ..old(self).books() }),
            r is Err && old(self).is_kept() ==> final(self).is_kept() && final(self).books() == old(
                self,
            ).books(),
            final(self).settings() == old(self).settings(),
            fails_as(r, "database operation failed"@),
    {
        match upsert_meta(&mut self.conn, key, value) {
            Ok(_) => Ok(()),
            Err(source) => Err(Error::database(source)),
        }
    }

    pub fn meta(&self, key: &str) -> (r: Result<Option<String>, Error>)
        ensures
            r matches Ok(value) ==> self.is_kept() ==> value.deep_view() == if self.books().meta.contains_key(
                key@,
            ) {
                Some(self.books().meta[key@])
            } else {
                None
            },
            fails_as(r, "database operation failed"@),
    {
        match select_meta(&self.conn, key) {
            Ok(value) => Ok(value),
            Err(source) => Err(Error::database(source)),
        }
    }
}

// ── laws ─────────────────────────────────────────────────────────────────────

/// What was recorded for a person is what is read back: the state and the error
/// of the last write, and the link of the last write that had one.
pub proof fn law_recorded_invite_is_read_back(
    books: Books,
    id: Seq<char>,
    state: State,
    invite: Option<(Seq<char>, Seq<char>, i64)>,
    dm: Option<(Seq<char>, Seq<char>)>,
    error: Option<Seq<char>>,
    now: i64,
)
    ensures
        ({
            let after = books.recording(id, invite_write(state, invite, dm, error, now));
            &&& after.invite(id) matches Some(r) && r.slack_user_id == id && r.state == state
                && r.error == error
            &&& invite matches Some(i) ==> after.invite(id)->0.invite_url == Some(i.1)
                && after.invite(id)->0.expires_at == Some(i.2)
            &&& after.invite_done(id) == state.done()
        }),
{
    law_states_round_trip(state);
}

/// A later write does not erase an earlier code, link, expiry or DM: what it
/// leaves out keeps its value.
pub proof fn law_later_write_keeps_earlier_columns(
    books: Books,
    id: Seq<char>,
    state: State,
    error: Option<Seq<char>>,
    now: i64,
)
    requires
        books.invites.contains_key(id),
    ensures
        ({
            let before = books.invites[id];
            let after = books.recording(
                id,
                invite_write(state, None, None, error, now),
            ).invites[id];
            &&& after.code == before.code
            &&& after.url == before.url
            &&& after.expires_at == before.expires_at
            &&& after.dm_channel == before.dm_channel
            &&& after.dm_ts == before.dm_ts
        }),
{
}

/// A write without an error clears the error of the one before.
pub proof fn law_retry_clears_the_error(
    books: Books,
    id: Seq<char>,
    state: State,
    invite: Option<(Seq<char>, Seq<char>, i64)>,
    dm: Option<(Seq<char>, Seq<char>)>,
    now: i64,
)
    ensures
        books.recording(id, invite_write(state, invite, dm, None, now)).invite(id) matches Some(r)
            && r.error is None,
{
}

/// Recording a person leaves everyone else as they were.
pub proof fn law_recording_touches_one_person(
    books: Books,
    id: Seq<char>,
    row: InviteRow,
    other: Seq<char>,
)
    requires
        other != id,
    ensures
        books.recording(id, row).invite(other) == books.invite(other),
        books.recording(id, row).events == books.events,
        books.recording(id, row).meta == books.meta,
{
}

/// Recording the same thing again changes nothing.
pub proof fn law_recording_is_idempotent(
    books: Books,
    id: Seq<char>,
    row: InviteRow,
    key: (Seq<char>, Seq<char>),
    event: EventRow,
)
    ensures
        books.recording(id, row).recording(id, row) == books.recording(id, row),
        books.recording_event(key, event).recording_event(key, event) == books.recording_event(
            key,
            event,
        ),
{
    assert(books.recording(id, row).recording(id, row).invites =~= books.recording(
        id,
        row,
    ).invites);
    assert(books.recording_event(key, event).recording_event(key, event).events
        =~= books.recording_event(key, event).events);
}

/// The thread map: a message resolves to the event id last recorded for it, and
/// messages with the same `ts` in other channels do not collide with it.
pub proof fn law_thread_map(
    books: Books,
    channel: Seq<char>,
    ts: Seq<char>,
    row: EventRow,
    other: (Seq<char>, Seq<char>),
)
    requires
        other != (channel, ts),
    ensures
        row.event_id is Some ==> books.recording_event((channel, ts), row).event_id(channel, ts)
            == row.event_id,
        row.event_id is None ==> books.recording_event((channel, ts), row).event_id(channel, ts)
            == books.event_id(channel, ts),
        books.recording_event((channel, ts), row).event_id(other.0, other.1) == books.event_id(
            other.0,
            other.1,
        ),
{
    assert((other.0, other.1) == other);
}

} // verus!
