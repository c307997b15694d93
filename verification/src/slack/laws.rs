//! How Slack's records are read, case by case.

use vstd::prelude::*;

use crate::slack::{
    handling_of, law_handling_classes_are_disjoint, purpose_words, SlackFile, SlackProfile,
    SlackPurpose, SlackUser,
};
use crate::text::laws::{all_white, law_blank_text};
use crate::text::trimmed;

verus! {

/// Membership churn is the joining and the leaving of channels and of groups:
/// four subtypes, and no other.
pub proof fn law_churn_is_joining_and_leaving(s: Seq<char>)
    ensures
        handling_of(Some(s)) is JoinLeave <==> s == "channel_join"@ || s == "channel_leave"@ || s
            == "group_join"@ || s == "group_leave"@,
{
}

/// A reply that went to the channel too has one of two subtypes, the new spelling
/// or the old.
pub proof fn law_broadcasts_have_two_spellings(s: Seq<char>)
    ensures
        handling_of(Some(s)) is Broadcast <==> s == "thread_broadcast"@ || s == "reply_broadcast"@,
{
    law_handling_classes_are_disjoint(s);
}

/// The subtypes whose messages are known to be imported right as they stand.
pub open spec fn vouched_for() -> Seq<Seq<char>> {
    seq![
        "bot_message"@,
        "me_message"@,
        "file_share"@,
        "file_comment"@,
        "file_mention"@,
        "channel_topic"@,
        "channel_purpose"@,
        "channel_name"@,
        "channel_archive"@,
        "channel_unarchive"@,
        "group_topic"@,
        "group_purpose"@,
        "group_name"@,
        "group_archive"@,
        "group_unarchive"@,
        "pinned_item"@,
        "unpinned_item"@,
        "reminder_add"@,
        "bot_add"@,
        "bot_remove"@,
        "bot_enable"@,
        "bot_disable"@,
        "huddle_thread"@,
        "sh_room_created"@,
        "tombstone"@,
    ]
}

/// A message without a subtype is an ordinary one. One with a subtype is churn, a
/// broadcast, or vouched for by name; any other subtype is unknown.
pub proof fn law_what_is_not_vouched_for_is_unknown(s: Seq<char>)
    ensures
        handling_of(None) is Plain,
        !(handling_of(Some(s)) is Plain),
        handling_of(Some(s)) is AsPlainText <==> vouched_for().contains(s),
        handling_of(Some(s)) is Unknown <==> !vouched_for().contains(s) && s != "channel_join"@ && s
            != "channel_leave"@ && s != "group_join"@ && s != "group_leave"@ && s
            != "thread_broadcast"@ && s != "reply_broadcast"@,
{
    law_handling_classes_are_disjoint(s);
    let v = vouched_for();
    assert(v[0] == "bot_message"@ && v[1] == "me_message"@ && v[2] == "file_share"@ && v[3]
        == "file_comment"@ && v[4] == "file_mention"@ && v[5] == "channel_topic"@ && v[6]
        == "channel_purpose"@ && v[7] == "channel_name"@ && v[8] == "channel_archive"@ && v[9]
        == "channel_unarchive"@ && v[10] == "group_topic"@ && v[11] == "group_purpose"@ && v[12]
        == "group_name"@ && v[13] == "group_archive"@ && v[14] == "group_unarchive"@ && v[15]
        == "pinned_item"@ && v[16] == "unpinned_item"@ && v[17] == "reminder_add"@ && v[18]
        == "bot_add"@ && v[19] == "bot_remove"@ && v[20] == "bot_enable"@ && v[21]
        == "bot_disable"@ && v[22] == "huddle_thread"@ && v[23] == "sh_room_created"@ && v[24]
        == "tombstone"@);
    assert(v.len() == 25);
    if v.contains(s) {
        let k = choose|k: int| 0 <= k < v.len() && v[k] == s;
        assert(k == 0 || k == 1 || k == 2 || k == 3 || k == 4 || k == 5 || k == 6 || k == 7 || k
            == 8 || k == 9 || k == 10 || k == 11 || k == 12 || k == 13 || k == 14 || k == 15 || k
            == 16 || k == 17 || k == 18 || k == 19 || k == 20 || k == 21 || k == 22 || k == 23 || k
            == 24);
    }
}

// ── people ───────────────────────────────────────────────────────────────────

/// Whether an optional text is absent or made of blanks alone.
pub open spec fn unset(s: Option<String>) -> bool {
    match s {
        Some(t) => all_white(t@),
        None => true,
    }
}

/// A person is shown under their display name where they have set one, else under
/// their real name, else under their handle, else under their id.
pub proof fn law_names_are_shown_in_order_of_preference(u: SlackUser, p: SlackProfile)
    ensures
        u.profile == Some(p) && !unset(p.display_name) ==> u.shown_name() == p.display_name->0@,
        u.profile == Some(p) && unset(p.display_name) && !unset(p.real_name) ==> u.shown_name()
            == p.real_name->0@,
        u.profile == Some(p) && unset(p.display_name) && unset(p.real_name) && !all_white(u.name@)
            ==> u.shown_name() == u.name@,
        u.profile == Some(p) && unset(p.display_name) && unset(p.real_name) && all_white(u.name@)
            ==> u.shown_name() == u.id@,
        u.profile is None ==> u.shown_name() == if all_white(u.name@) {
            u.id@
        } else {
            u.name@
        },
{
    law_blank_text(u.name@);
    if let Some(t) = p.display_name {
        law_blank_text(t@);
    }
    if let Some(t) = p.real_name {
        law_blank_text(t@);
    }
}

/// A real name counts where it is set; the avatar is the larger picture where
/// there is one, else the smaller.
pub proof fn law_real_names_and_avatars(u: SlackUser, p: SlackProfile)
    ensures
        u.profile is None ==> u.real_name_text() is None && u.avatar() is None,
        u.profile == Some(p) && unset(p.real_name) ==> u.real_name_text() is None,
        u.profile == Some(p) && !unset(p.real_name) ==> u.real_name_text() == Some(
            p.real_name->0@,
        ),
        u.profile == Some(p) ==> (p.image_512 matches Some(url) ==> u.avatar() == Some(url@)),
        u.profile == Some(p) && p.image_512 is None ==> (p.image_192 matches Some(url)
            ==> u.avatar() == Some(url@)),
        u.profile == Some(p) && p.image_512 is None && p.image_192 is None ==> u.avatar() is None,
{
    if let Some(t) = p.real_name {
        law_blank_text(t@);
    }
}

// ── conversations and files ──────────────────────────────────────────────────

/// A topic or purpose is its text without the blanks around it, and none at all
/// where it is blank.
pub proof fn law_topics_are_trimmed(p: SlackPurpose)
    ensures
        purpose_words(None) is None,
        all_white(p.value@) ==> purpose_words(Some(p)) is None,
        !all_white(p.value@) ==> purpose_words(Some(p)) == Some(trimmed(p.value@)),
{
    law_blank_text(p.value@);
}

/// A file's bytes are known to be gone in three modes, and in no other.
pub proof fn law_files_are_gone_in_three_modes(f: SlackFile)
    ensures
        f.gone() <==> (f.mode matches Some(m) && (m@ == "hidden_by_limit"@ || m@ == "file_deleted"@
            || m@ == "tombstone"@)),
{
}

} // verus!
