//! What failures say, and how they end a run.

use vstd::prelude::*;

use crate::error::exit;
use crate::error::{Error, Failure};
use crate::text::dec;
use crate::text::laws::has_part;

verus! {

/// How a run ends, told by a number: 1 for input that cannot be used, 2 for Slack or
/// the relay, 3 for a key that may not do it, 4 for what went wrong here.
pub proof fn law_failures_end_runs_by_number(f: Failure)
    ensures
        f is Slack || f is Relay ==> f.code() == 2,
        f is InsufficientRole ==> f.code() == 3,
        f is Serialise || f is Ledger || f is UnknownSelectedConversation || f is Prompt
            || f is NotImplemented ==> f.code() == 4,
        f is Io || f is Zip || f is Json || f is MalformedIr || f is NoChannelsSelected
            || f is UnknownChannel || f is UnknownExcludedChannel || f is NoConversationsMatched
            || f is NoConversations || f is NothingSelected || f is UnknownPerson
            || f is NoInvitablePeople || f is NobodySelected || f is NoUserRecords ==> f.code()
            == 1,
        exit::OK == 0 && exit::INPUT == 1 && exit::NETWORK == 2 && exit::AUTH == 3 && exit::OTHER
            == 4 && exit::WRITE_CONFLICT == 5,
{
}

proof fn lemma_holds(a: Seq<char>, part: Seq<char>, b: Seq<char>, s: Seq<char>)
    requires
        s =~= a + part + b,
    ensures
        has_part(s, part),
{
    assert(s == a + part + b);
}

/// A failure says what it is about: the file, the line, the name or the key that it
/// came from stands in the message as it was given.
pub proof fn law_failures_name_what_they_are_about(f: Failure)
    ensures
        f matches Failure::Io { context } ==> f.message() == context,
        f matches Failure::Zip { path } ==> has_part(f.message(), " "@ + path + " "@),
        f matches Failure::Json { what } ==> has_part(f.message(), " "@ + what + " "@),
        f matches Failure::MalformedIr { path, line } ==> has_part(
            f.message(),
            path + ":"@ + dec(line) + ":"@,
        ),
        f matches Failure::Ledger { context } ==> f.message() == "ledger: "@ + context,
        f matches Failure::UnknownChannel { selector } ==> has_part(
            f.message(),
            "\""@ + selector + "\""@,
        ),
        f matches Failure::UnknownExcludedChannel { selector } ==> has_part(
            f.message(),
            "--exclude \""@ + selector + "\""@,
        ),
        f matches Failure::UnknownSelectedConversation { id } ==> has_part(
            f.message(),
            " "@ + id + " "@,
        ),
        f matches Failure::UnknownPerson { flag, selector } ==> has_part(
            f.message(),
            flag + " \""@ + selector + "\""@,
        ),
        f matches Failure::NoUserRecords { path } ==> f.message() == path
            + " contains no user records"@,
        f matches Failure::InsufficientRole { role, community } ==> has_part(
            f.message(),
            " role "@ + role + " in "@ + community + "; "@,
        ),
        f matches Failure::Slack(x) ==> f.message() == "slack: "@ + x,
        f matches Failure::Relay(x) ==> f.message() == "relay: "@ + x,
        f matches Failure::NotImplemented(x) ==> f.message() == x,
{
    lemma_blanks_around();
    let s = f.message();
    match f {
        Failure::Zip { path } => {
            let (a, b) = ("reading "@, " as a zip archive"@);
            lemma_holds(a.take(a.len() - 1), " "@ + path + " "@, b.skip(1), s);
        },
        Failure::Json { what } => {
            let (a, b) = ("parsing "@, " from the export"@);
            lemma_holds(a.take(a.len() - 1), " "@ + what + " "@, b.skip(1), s);
        },
        Failure::MalformedIr { path, line } => {
            let b = ": malformed IR record"@;
            lemma_holds(seq![], path + ":"@ + dec(line) + ":"@, b.skip(1), s);
        },
        Failure::UnknownChannel { selector } => {
            let (a, b) = (
                "no channel in this export matches \""@,
                "\" — run `slack2buzz probe` to list what is available"@,
            );
            lemma_holds(a.take(a.len() - 1), "\""@ + selector + "\""@, b.skip(1), s);
        },
        Failure::UnknownExcludedChannel { selector } => {
            let a = "no channel in this export matches --exclude \""@;
            lemma_holds(
                a.take(a.len() - 11),
                "--exclude \""@ + selector + "\""@,
                seq![],
                s,
            );
        },
        Failure::UnknownSelectedConversation { id } => {
            let (a, b) = ("selected conversation "@, " is not in the inventory"@);
            lemma_holds(a.take(a.len() - 1), " "@ + id + " "@, b.skip(1), s);
        },
        Failure::UnknownPerson { flag, selector } => {
            let b = "\" — run `slack2buzz invite --list` to see the candidates"@;
            lemma_holds(
                "no one in this import matches "@,
                flag + " \""@ + selector + "\""@,
                b.skip(1),
                s,
            );
        },
        Failure::InsufficientRole { role, community } => {
            let (a, b) = (
                "this key holds role "@,
                "; only owners and admins can mint invites"@,
            );
            lemma_holds(
                a.take(a.len() - 6),
                " role "@ + role + " in "@ + community + "; "@,
                b.skip(2),
                s,
            );
        },
        _ => {},
    }
}

proof fn lemma_blanks_around()
    ensures
        "reading "@ == "reading "@.take("reading "@.len() - 1) + " "@,
        " as a zip archive"@ == " "@ + " as a zip archive"@.skip(1),
        "parsing "@ == "parsing "@.take("parsing "@.len() - 1) + " "@,
        " from the export"@ == " "@ + " from the export"@.skip(1),
        ": malformed IR record"@ == ":"@ + ": malformed IR record"@.skip(1),
        "no channel in this export matches \""@ == "no channel in this export matches \""@.take(
            "no channel in this export matches \""@.len() - 1,
        ) + "\""@,
        "\" — run `slack2buzz probe` to list what is available"@ == "\""@
            + "\" — run `slack2buzz probe` to list what is available"@.skip(1),
        "no channel in this export matches --exclude \""@
            == "no channel in this export matches --exclude \""@.take(
            "no channel in this export matches --exclude \""@.len() - 11,
        ) + "--exclude \""@,
        "selected conversation "@ == "selected conversation "@.take(
            "selected conversation "@.len() - 1,
        ) + " "@,
        " is not in the inventory"@ == " "@ + " is not in the inventory"@.skip(1),
        "\" — run `slack2buzz invite --list` to see the candidates"@ == "\""@
            + "\" — run `slack2buzz invite --list` to see the candidates"@.skip(1),
        "this key holds role "@ == "this key holds role "@.take("this key holds role "@.len() - 6)
            + " role "@,
        "; only owners and admins can mint invites"@ == "; "@
            + "; only owners and admins can mint invites"@.skip(2),
{
    reveal_strlit("reading ");
    reveal_strlit(" ");
    reveal_strlit(" as a zip archive");
    reveal_strlit("parsing ");
    reveal_strlit(" from the export");
    reveal_strlit(":");
    reveal_strlit(": malformed IR record");
    reveal_strlit("no channel in this export matches \"");
    reveal_strlit("\"");
    reveal_strlit("\" — run `slack2buzz probe` to list what is available");
    reveal_strlit("no channel in this export matches --exclude \"");
    reveal_strlit("--exclude \"");
    reveal_strlit("selected conversation ");
    reveal_strlit(" is not in the inventory");
    reveal_strlit("\" — run `slack2buzz invite --list` to see the candidates");
    reveal_strlit("this key holds role ");
    reveal_strlit(" role ");
    reveal_strlit("; only owners and admins can mint invites");
    reveal_strlit("; ");
}

/// An error stands for the failure of the same name, with what it was told, and has
/// a cause where it came from reading, parsing, writing, the ledger or a prompt.
pub proof fn law_errors_stand_for_failures(e: Error)
    ensures
        e matches Error::Io { context, .. } ==> e.deep_view() == (Failure::Io { context: context@ }),
        e matches Error::Zip { path, .. } ==> e.deep_view() == (Failure::Zip { path: path@ }),
        e matches Error::Json { what, .. } ==> e.deep_view() == (Failure::Json { what: what@ }),
        e matches Error::MalformedIr { path, line, .. } ==> e.deep_view() == (Failure::MalformedIr {
            path: path@,
            line: line as nat,
        }),
        e matches Error::Ledger { context, .. } ==> e.deep_view() == (Failure::Ledger {
            context: context@,
        }),
        e matches Error::UnknownChannel { selector } ==> e.deep_view() == (
        Failure::UnknownChannel { selector: selector@ }),
        e matches Error::UnknownExcludedChannel { selector } ==> e.deep_view() == (
        Failure::UnknownExcludedChannel { selector: selector@ }),
        e matches Error::UnknownSelectedConversation { id } ==> e.deep_view() == (
        Failure::UnknownSelectedConversation { id: id@ }),
        e matches Error::UnknownPerson { flag, selector } ==> e.deep_view() == (
        Failure::UnknownPerson { flag: flag@, selector: selector@ }),
        e matches Error::NoUserRecords { path } ==> e.deep_view() == (Failure::NoUserRecords {
            path: path@,
        }),
        e matches Error::InsufficientRole { role, community } ==> e.deep_view() == (
        Failure::InsufficientRole { role: role@, community: community@ }),
        e matches Error::Slack(x) ==> e.deep_view() == Failure::Slack(x@),
        e matches Error::Relay(x) ==> e.deep_view() == Failure::Relay(x@),
        e.carries_cause() <==> e is Io || e is Zip || e is Json || e is MalformedIr || e is Serialise
            || e is Ledger || e is Prompt,
{
}

} // verus!
