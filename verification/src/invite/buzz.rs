//! The Buzz side of `invite`: minting a join code.
//!
//! `POST /api/invites`, NIP-98 signed:
//!
//! - **The caller must be `owner` or `admin`** of the community. A `member` key
//!   gets 403, so this must be checked *before* the first DM goes out rather
//!   than discovered halfway through.
//! - TTL defaults to **72 hours** and is clamped to `[60s, 30 days]`.
//!
//! # Codes are multi-use bearer tokens
//!
//! An invite code is a **stateless HMAC token**, not a database row. It is not
//! bound to a recipient, it is multi-use within its TTL, and it cannot be
//! revoked individually. So minting one code per person buys no enforcement —
//! only an independent nonce and the ability to correlate, in our own ledger,
//! which link went to whom. The DM must tell people not to forward the link,
//! because forwarding it genuinely does admit strangers.
//!
//! The 72-hour default is also wrong for a bulk invite: DM 200 people on a
//! Friday and a large fraction of the links die unused. `invite` therefore asks
//! for a longer TTL explicitly rather than taking the default.

use vstd::prelude::*;

use crate::error::Error;
use crate::text;

verus! {

/// Default TTL this tool requests: 14 days.
///
/// Deliberately not Buzz's 72-hour default. A bulk invite goes to people who are
/// on holiday, heads-down, or simply not checking Slack, and a link that expires
/// before they act generates support load rather than members. Still well inside
/// the 30-day cap.
pub const DEFAULT_TTL_SECS: u64 = 14 * 24 * 60 * 60;

/// Buzz's hard cap (`invite_token::MAX_INVITE_TTL_SECS`).
pub const MAX_TTL_SECS: u64 = 30 * 24 * 60 * 60;

/// Buzz's own default, for reference in help text.
pub const BUZZ_DEFAULT_TTL_SECS: u64 = 72 * 60 * 60;

/// Buzz's floor.
pub const MIN_TTL_SECS: u64 = 60;

/// The default outlives Buzz's own, and Buzz will not silently clamp it.
pub proof fn law_default_ttl_is_honoured()
    ensures
        BUZZ_DEFAULT_TTL_SECS < DEFAULT_TTL_SECS,
        MIN_TTL_SECS <= DEFAULT_TTL_SECS <= MAX_TTL_SECS,
{
}

/// A minted invite, as returned by `POST /api/invites`.
#[derive(Debug, Clone, PartialEq)]
pub struct Invite {
    pub code: String,
    pub url: String,
    /// Unix seconds.
    pub expires_at: i64,
}

/// The model of an [`Invite`].
#[verifier::ext_equal]
pub struct InviteModel {
    pub code: Seq<char>,
    pub url: Seq<char>,
    pub expires_at: i64,
}

impl DeepView for Invite {
    type V = InviteModel;

    open spec fn deep_view(&self) -> InviteModel {
        InviteModel { code: self.code@, url: self.url@, expires_at: self.expires_at }
    }
}

/// The role the authenticated key holds in the community.
#[derive(Debug, Clone, Copy, PartialEq, Eq, Structural)]
pub enum Role {
    Owner,
    Admin,
    Member,
    /// No membership at all.
    NoRole,
}

impl Role {
    /// Whether this role may mint invites.
    pub open spec fn mints(self) -> bool {
        self is Owner || self is Admin
    }

    /// The role's name.
    pub open spec fn word(self) -> Seq<char> {
        match self {
            Role::Owner => "owner"@,
            Role::Admin => "admin"@,
            Role::Member => "member"@,
            Role::NoRole => "none"@,
        }
    }

    /// Whether this role may mint invites. Mirrors the relay's check.
    pub fn can_mint(self) -> (r: bool)
        ensures
            r == self.mints(),
    {
        matches!(self, Role::Owner | Role::Admin)
    }

    pub fn as_str(self) -> (r: &'static str)
        ensures
            r@ == self.word(),
    {
        match self {
            Role::Owner => "owner",
            Role::Admin => "admin",
            Role::Member => "member",
            Role::NoRole => "none",
        }
    }
}

/// Mints Buzz invite codes.
///
/// What an implementation answers is its own affair; `role_reply` and
/// `mint_reply` are its account of it. One that gives none may answer anything.
pub trait Minter: Sized {
    /// Whether a call of `role` may lead from one minter to another with this
    /// answer.
    open spec fn role_reply(before: Self, after: Self, answer: Result<Role, Error>) -> bool {
        true
    }

    /// Whether a call of `mint` may lead from one minter to another with this
    /// answer.
    open spec fn mint_reply(
        before: Self,
        ttl_secs: u64,
        after: Self,
        answer: Result<Invite, Error>,
    ) -> bool {
        true
    }

    /// How many more codes can be asked for.
    open spec fn capacity(self, ttl_secs: u64) -> nat {
        usize::MAX as nat
    }

    /// The role our key holds. Checked once, before any DM is sent, so an
    /// under-privileged key fails with exit code 3 instead of after 40 DMs.
    fn role(&mut self) -> (r: Result<Role, Error>)
        ensures
            Self::role_reply(*old(self), *final(self), r),
            forall|ttl_secs: u64| #[trigger]
                final(self).capacity(ttl_secs) >= old(self).capacity(ttl_secs),
    ;

    /// Mint one invite code.
    fn mint(&mut self, ttl_secs: u64) -> (r: Result<Invite, Error>)
        requires
            old(self).capacity(ttl_secs) > 0,
        ensures
            Self::mint_reply(*old(self), ttl_secs, *final(self), r),
            final(self).capacity(ttl_secs) + 1 >= old(self).capacity(ttl_secs),
    ;
}

/// Mints nothing; produces obviously-fake codes. Used by `--dry-run`.
///
/// The URLs are deliberately unusable rather than plausible: a dry-run
/// transcript must not contain something a reader could mistake for a real
/// invite and paste into Slack themselves.
#[derive(Debug)]
pub struct DryRunMinter {
    pub host: String,
    pub role: Role,
    pub minted: usize,
    /// Unix seconds that expiries are measured from.
    ///
    /// Defaults to 0 so tests are reproducible without a clock. The CLI sets it
    /// to the real current time so a dry-run transcript shows the expiry date
    /// the operator would actually get, rather than a date in 1970.
    pub base_time: i64,
}

/// The `n`-th dry-run code.
pub open spec fn dry_run_code(n: nat) -> Seq<char> {
    "DRY-RUN-NOT-A-REAL-CODE-"@ + text::dec(n)
}

/// What a dry run mints.
pub open spec fn dry_run_invite(host: Seq<char>, n: nat, expires_at: int) -> InviteModel {
    InviteModel {
        code: dry_run_code(n),
        url: "https://"@ + host + "/invite/"@ + dry_run_code(n),
        expires_at: expires_at as i64,
    }
}

impl DryRunMinter {
    pub fn new(host: &str) -> (r: Self)
        ensures
            r.host@ == host@,
            r.role is Owner,
            r.minted == 0,
            r.base_time == 0,
    {
        DryRunMinter { host: host.to_string(), role: Role::Owner, minted: 0, base_time: 0 }
    }

    /// Measure expiries from `now` instead of the epoch.
    pub fn at(self, now: i64) -> (r: Self)
        ensures
            r == (DryRunMinter { base_time: now, ..self }),
    {
        DryRunMinter { host: self.host, role: self.role, minted: self.minted, base_time: now }
    }
}

impl Minter for DryRunMinter {
    open spec fn role_reply(before: Self, after: Self, answer: Result<Role, Error>) -> bool {
        after == before && answer == Ok::<Role, Error>(before.role)
    }

    open spec fn mint_reply(
        before: Self,
        ttl_secs: u64,
        after: Self,
        answer: Result<Invite, Error>,
    ) -> bool {
        &&& after == (DryRunMinter { minted: (before.minted + 1) as usize, ..before })
        &&& answer matches Ok(invite) && invite.deep_view() == dry_run_invite(
            before.host@,
            before.minted as nat + 1,
            before.base_time + (ttl_secs as i64),
        )
    }

    /// Codes are numbered, and expiries are moments an `i64` can hold.
    open spec fn capacity(self, ttl_secs: u64) -> nat {
        if i64::MIN <= self.base_time + (ttl_secs as i64) <= i64::MAX {
            (usize::MAX - self.minted) as nat
        } else {
            0
        }
    }

    fn role(&mut self) -> (r: Result<Role, Error>) {
        Ok(self.role)
    }

    fn mint(&mut self, ttl_secs: u64) -> (r: Result<Invite, Error>) {
        self.minted += 1;
        let code = text::join2("DRY-RUN-NOT-A-REAL-CODE-", text::decimal(self.minted as u64).as_str());
        let url = text::join4("https://", self.host.as_str(), "/invite/", code.as_str());
        Ok(Invite { code, url, expires_at: self.base_time + ttl_secs as i64 })
    }
}

/// Decimal numerals of different numbers differ.
pub proof fn lemma_dec_injective(a: nat, b: nat)
    requires
        text::dec(a) == text::dec(b),
    ensures
        a == b,
    decreases a,
{
    let x = text::dec(a);
    let y = text::dec(b);
    if a < 10 || b < 10 {
        if a >= 10 {
            lemma_dec_nonempty(a / 10);
            assert(x.len() > 1);
        }
        if b >= 10 {
            lemma_dec_nonempty(b / 10);
            assert(y.len() > 1);
        }
        assert(x[0] == y[0]);
    } else {
        assert(x.drop_last() =~= text::dec(a / 10));
        assert(y.drop_last() =~= text::dec(b / 10));
        assert(x.last() == y.last());
        lemma_dec_injective(a / 10, b / 10);
    }
}

proof fn lemma_dec_nonempty(n: nat)
    ensures
        text::dec(n).len() > 0,
{
}

/// No two dry-run codes are alike.
pub proof fn law_dry_run_codes_are_distinct(a: nat, b: nat)
    requires
        a != b,
    ensures
        dry_run_code(a) != dry_run_code(b),
{
    if dry_run_code(a) == dry_run_code(b) {
        let n = "DRY-RUN-NOT-A-REAL-CODE-"@.len() as int;
        assert(dry_run_code(a).skip(n) =~= text::dec(a));
        assert(dry_run_code(b).skip(n) =~= text::dec(b));
        lemma_dec_injective(a, b);
    }
}

/// The TTL that Buzz will actually honour.
pub open spec fn honoured_ttl(requested: u64) -> u64 {
    if requested > MAX_TTL_SECS {
        MAX_TTL_SECS
    } else if requested < MIN_TTL_SECS {
        MIN_TTL_SECS
    } else {
        requested
    }
}

/// What the operator is told when their TTL is changed.
pub open spec fn ttl_warning(requested: u64) -> Option<Seq<char>> {
    if requested > MAX_TTL_SECS {
        Some(
            "requested TTL of "@ + text::dec(requested as nat)
                + "s exceeds Buzz's 30-day cap; using "@ + text::dec(MAX_TTL_SECS as nat) + "s"@,
        )
    } else if requested < MIN_TTL_SECS {
        Some(
            "requested TTL of "@ + text::dec(requested as nat)
                + "s is below Buzz's 60s floor; using 60s"@,
        )
    } else {
        None
    }
}

/// Clamp a requested TTL to what Buzz will actually honour, reporting when it
/// had to change so the operator is never silently given a different expiry
/// than they asked for.
pub fn clamp_ttl(requested: u64) -> (r: (u64, Option<String>))
    ensures
        r.0 == honoured_ttl(requested),
        r.1.deep_view() == ttl_warning(requested),
{
    if requested > MAX_TTL_SECS {
        let warning = text::join5(
            "requested TTL of ",
            text::decimal(requested).as_str(),
            "s exceeds Buzz's 30-day cap; using ",
            text::decimal(MAX_TTL_SECS).as_str(),
            "s",
        );
        (MAX_TTL_SECS, Some(warning))
    } else if requested < MIN_TTL_SECS {
        let warning = text::join3(
            "requested TTL of ",
            text::decimal(requested).as_str(),
            "s is below Buzz's 60s floor; using 60s",
        );
        (MIN_TTL_SECS, Some(warning))
    } else {
        (requested, None)
    }
}

/// A TTL comes out within Buzz's limits, is left alone when it was within them,
/// and is never changed without a word.
pub proof fn law_ttl_is_clamped_aloud(requested: u64)
    ensures
        MIN_TTL_SECS <= honoured_ttl(requested) <= MAX_TTL_SECS,
        honoured_ttl(honoured_ttl(requested)) == honoured_ttl(requested),
        ttl_warning(requested) is Some <==> honoured_ttl(requested) != requested,
{
}

} // verus!
