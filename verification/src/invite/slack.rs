//! The Slack side of `invite`: sending a DM.
//!
//! A trait rather than a concrete client, for one reason that matters more than
//! testability: it makes the dry-run path and the real path structurally
//! identical. [`DryRunMessenger`] and a live client are the same code with a
//! different implementation swapped in, so a dry run genuinely exercises the
//! sequencing, the ledger writes, and the ordering — not a separate branch that
//! happens to print instead.
//!
//! Only one Slack call is needed. `chat.postMessage` accepts a user id as its
//! `channel` and opens the DM implicitly, so there is no `conversations.open`,
//! no `users.list`, and no email address anywhere in this flow.
//!
//! Required token scopes: `chat:write` (and `im:write` on some app
//! configurations). Notably *not* `users:read.email`.

use vstd::prelude::*;

use crate::error::{Error, Failure};
use crate::text;

verus! {

/// Where a sent DM landed, for the ledger.
#[derive(Debug, Clone, PartialEq)]
pub struct SentDm {
    /// Slack DM channel id the message went to.
    pub channel: String,
    /// Slack `ts` of the posted message.
    pub ts: String,
}

/// The model of a [`SentDm`].
#[verifier::ext_equal]
pub struct DmModel {
    pub channel: Seq<char>,
    pub ts: Seq<char>,
}

impl DeepView for SentDm {
    type V = DmModel;

    open spec fn deep_view(&self) -> DmModel {
        DmModel { channel: self.channel@, ts: self.ts@ }
    }
}

/// Sends a direct message to one Slack user.
///
/// What an implementation answers is its own affair; `dm_reply` is its account
/// of it. One that gives none may answer anything.
pub trait Messenger: Sized {
    /// Whether sending a DM may lead from one messenger to another with this
    /// answer.
    open spec fn dm_reply(
        before: Self,
        to: Seq<char>,
        body: Seq<char>,
        after: Self,
        answer: Result<SentDm, Error>,
    ) -> bool {
        true
    }

    /// Post `body` to `slack_user_id` as a DM.
    ///
    /// Implementations must treat a Slack `ok: false` response as an error, and
    /// must surface `ratelimited` distinguishably so the caller can back off
    /// rather than burning through the remaining recipients.
    fn send_dm(&mut self, slack_user_id: &str, body: &str) -> (r: Result<SentDm, Error>)
        ensures
            Self::dm_reply(*old(self), slack_user_id@, body@, *final(self), r),
    ;
}

/// Sends nothing. The default, and what `--dry-run` uses.
///
/// Records what *would* have been sent so the caller can print it and so tests
/// can assert on ordering and content.
#[derive(Debug)]
pub struct DryRunMessenger {
    pub sent: Vec<(String, String)>,
}

impl Default for DryRunMessenger {
    fn default() -> (r: Self)
        ensures
            r.sent@.len() == 0,
    {
        DryRunMessenger { sent: Vec::new() }
    }
}

impl Messenger for DryRunMessenger {
    open spec fn dm_reply(
        before: Self,
        to: Seq<char>,
        body: Seq<char>,
        after: Self,
        answer: Result<SentDm, Error>,
    ) -> bool {
        &&& after.sent.deep_view() == before.sent.deep_view().push((to, body))
        &&& answer matches Ok(dm) && dm.deep_view() == (DmModel {
            channel: "DRYRUN-"@ + to,
            ts: "0.000000"@,
        })
    }

    fn send_dm(&mut self, slack_user_id: &str, body: &str) -> (r: Result<SentDm, Error>) {
        let ghost before = self.sent.deep_view();
        self.sent.push((slack_user_id.to_string(), body.to_string()));
        assert(self.sent.deep_view() =~= before.push((slack_user_id@, body@)));
        Ok(
            SentDm {
                channel: text::join2("DRYRUN-", slack_user_id),
                ts: "0.000000".to_string(),
            },
        )
    }
}

/// A messenger that fails for chosen users, so retry and partial-failure
/// reporting can be tested.
#[derive(Debug)]
pub struct FlakyMessenger {
    pub fail_for: Vec<String>,
    pub sent: Vec<String>,
}

impl Default for FlakyMessenger {
    fn default() -> (r: Self)
        ensures
            r.fail_for@.len() == 0,
            r.sent@.len() == 0,
    {
        FlakyMessenger { fail_for: Vec::new(), sent: Vec::new() }
    }
}

impl Messenger for FlakyMessenger {
    open spec fn dm_reply(
        before: Self,
        to: Seq<char>,
        body: Seq<char>,
        after: Self,
        answer: Result<SentDm, Error>,
    ) -> bool {
        &&& after.fail_for.deep_view() == before.fail_for.deep_view()
        &&& if before.fail_for.deep_view().contains(to) {
            &&& after.sent.deep_view() == before.sent.deep_view()
            &&& answer matches Err(e) && e.deep_view() == Failure::Slack("ratelimited"@)
        } else {
            &&& after.sent.deep_view() == before.sent.deep_view().push(to)
            &&& answer matches Ok(dm) && dm.deep_view() == (DmModel {
                channel: "D-"@ + to,
                ts: "1.0"@,
            })
        }
    }

    fn send_dm(&mut self, slack_user_id: &str, body: &str) -> (r: Result<SentDm, Error>) {
        let ghost before = self.sent.deep_view();
        let to = slack_user_id.to_string();
        if text::holds(&self.fail_for, &to) {
            return Err(Error::Slack("ratelimited".to_string()));
        }
        self.sent.push(to);
        assert(self.sent.deep_view() =~= before.push(slack_user_id@));
        Ok(SentDm { channel: text::join2("D-", slack_user_id), ts: "1.0".to_string() })
    }
}

} // verus!
