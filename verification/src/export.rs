//! A Slack export, whether it is still a `.zip` or has been unzipped.
//!
//! Operators unzip exports as often as not, so both are supported. Slack zips
//! sometimes wrap everything in a single top-level directory and sometimes do
//! not. [`ZipIndex::of_archive`] strips that prefix if present, so every path
//! used elsewhere in the crate is relative to the export root.
//!
//! What was read is an [`Export`]: the parsed manifests and day files, and
//! where the day files stood.

use serde_json::Error as JsonError;
use vstd::prelude::*;

use crate::error::{Error, Failure};
use crate::order::{sort_set, sort_texts, sorted, sorted_set};
use crate::slack::{SlackConversation, SlackMessage, SlackUser};
use crate::text;
use crate::text::{find_char, index_of, lemma_index_of, matches_at, stands_at};

pub mod laws;
pub mod paths;

verus! {

// ── paths ────────────────────────────────────────────────────────────────────

/// Whether a path names something inside a directory.
pub open spec fn nested(path: Seq<char>) -> bool {
    index_of(path, '/') < path.len()
}

/// The first component of a path.
pub open spec fn head(path: Seq<char>) -> Seq<char> {
    path.take(index_of(path, '/'))
}

/// What follows the first slash of a path.
pub open spec fn tail(path: Seq<char>) -> Seq<char> {
    path.skip(index_of(path, '/') + 1)
}

/// Whether `s` ends in `part`.
pub open spec fn ends_with(s: Seq<char>, part: Seq<char>) -> bool {
    stands_at(s, part, s.len() - part.len())
}

/// The pieces of a path that has a slash: ahead of the first one, and behind.
fn split_once(path: &str) -> (r: Option<(String, String)>)
    ensures
        r is Some == nested(path@),
        r matches Some((a, b)) ==> a@ == head(path@) && b@ == tail(path@),
{
    let v = text::chars_of(path);
    let slash = find_char(&v, 0, '/');
    assert(v@.skip(0) =~= v@);
    proof {
        lemma_index_of(v@, '/');
    }
    if slash == v.len() {
        return None;
    }
    let a = text::string_of(&v, 0, slash);
    let b = text::string_of(&v, slash + 1, v.len());
    assert(a@ =~= head(path@));
    assert(b@ =~= tail(path@));
    Some((a, b))
}

/// Whether `s` ends in `part`.
fn has_suffix(s: &str, part: &str) -> (r: bool)
    ensures
        r == ends_with(s@, part@),
{
    let v = text::chars_of(s);
    let p = text::chars_of(part);
    if p.len() > v.len() {
        return false;
    }
    matches_at(&v, v.len() - p.len(), &p)
}

/// What follows `prefix` in `s`, if `s` starts with it.
fn after_prefix(s: &str, prefix: &str) -> (r: Option<String>)
    ensures
        r is Some == stands_at(s@, prefix@, 0),
        r matches Some(t) ==> t@ == s@.skip(prefix@.len() as int),
{
    let v = text::chars_of(s);
    let p = text::chars_of(prefix);
    if matches_at(&v, 0, &p) {
        let t = text::string_of(&v, p.len(), v.len());
        assert(t@ =~= s@.skip(prefix@.len() as int));
        Some(t)
    } else {
        None
    }
}

// ── zip archives ─────────────────────────────────────────────────────────────

/// The directory that wraps a whole export, with its trailing slash: the one
/// that every entry lies in, when the user table lies right inside it. Empty
/// when there is no such directory.
pub open spec fn wrapper_of(names: Seq<Seq<char>>) -> Seq<char> {
    if names.len() > 0 && (forall|i: int|
        0 <= i < names.len() ==> nested(#[trigger] names[i]) && head(names[i]) == head(names[0]))
        && names.contains(head(names[0]) + "/users.json"@) {
        head(names[0]) + "/"@
    } else {
        seq![]
    }
}

/// Find the single wrapping directory to strip, if there is exactly one.
///
/// Returns `""` when entries live at the archive root, or when there are
/// several top-level entries (in which case none of them is a wrapper).
pub fn detect_prefix(names: &[String]) -> (r: String)
    ensures
        r@ == wrapper_of(names.deep_view()),
{
    let ghost all = names.deep_view();
    if names.len() == 0 {
        return String::new();
    }
    let first = match split_once(names[0].as_str()) {
        Some((h, _)) => h,
        None => {
            assert(!nested(all[0]));
            return String::new();
        },
    };
    // Treat it as a wrapper only if the manifests we expect live inside it
    // rather than beside it.
    let wrapped = text::join2(first.as_str(), "/users.json");
    let mut holds_users = false;
    let mut i: usize = 0;
    while i < names.len()
        invariant
            i <= names@.len(),
            all == names.deep_view(),
            all.len() > 0,
            first@ == head(all[0]),
            wrapped@ == first@ + "/users.json"@,
            forall|k: int| 0 <= k < i ==> nested(#[trigger] all[k]) && head(all[k]) == head(all[0]),
            holds_users == exists|k: int| 0 <= k < i && #[trigger] all[k] == wrapped@,
        decreases names@.len() - i,
    {
        assert(all[i as int] == names@[i as int]@);
        match split_once(names[i].as_str()) {
            Some((h, _)) => {
                // Several top-level directories: none of them is a wrapper.
                if h != first {
                    return String::new();
                }
            },
            // A file at the root means the root *is* the export root.
            None => {
                return String::new();
            },
        }
        if names[i] == wrapped {
            holds_users = true;
        }
        i += 1;
    }
    if holds_users {
        text::join2(first.as_str(), "/")
    } else {
        String::new()
    }
}

/// The entries that lie under `prefix`, relative to it.
pub open spec fn under(raw: Seq<Seq<char>>, prefix: Seq<char>) -> Seq<Seq<char>>
    decreases raw.len(),
{
    if raw.len() == 0 {
        seq![]
    } else {
        let ahead = under(raw.drop_last(), prefix);
        if stands_at(raw.last(), prefix, 0) && raw.last().len() > prefix.len() {
            ahead.push(raw.last().skip(prefix.len() as int))
        } else {
            ahead
        }
    }
}

/// Whether an entry is a day file of a channel directory: a direct child whose
/// name ends in `.json`.
pub open spec fn day_file_of(name: Seq<char>, dir: Seq<char>) -> bool {
    let want = dir + "/"@;
    stands_at(name, want, 0) && ends_with(name, ".json"@) && !nested(name.skip(want.len() as int))
}

/// The directories that hold entries.
pub open spec fn holding_dirs(names: Seq<Seq<char>>) -> Seq<Seq<char>>
    decreases names.len(),
{
    if names.len() == 0 {
        seq![]
    } else {
        let ahead = holding_dirs(names.drop_last());
        if nested(names.last()) && tail(names.last()).len() > 0 {
            ahead.push(head(names.last()))
        } else {
            ahead
        }
    }
}

/// What a zip archive holds, by name.
pub struct ZipIndex {
    /// Top-level wrapper directory to strip, with trailing slash.
    pub prefix: String,
    /// Every entry name, prefix already stripped.
    pub names: Vec<String>,
}

impl ZipIndex {
    /// Index an archive by the names of its entries.
    pub fn of_archive(raw: &[String]) -> (r: Self)
        ensures
            r.prefix@ == wrapper_of(raw.deep_view()),
            r.names.deep_view() == under(raw.deep_view(), r.prefix@),
    {
        let ghost all = raw.deep_view();
        let prefix = detect_prefix(raw);
        let mut names: Vec<String> = Vec::new();
        assert(names.deep_view() =~= seq![]);
        let mut i: usize = 0;
        while i < raw.len()
            invariant
                i <= raw@.len(),
                all == raw.deep_view(),
                names.deep_view() == under(all.take(i as int), prefix@),
            decreases raw@.len() - i,
        {
            let ghost upto = all.take(i + 1);
            let ghost was = names.deep_view();
            assert(upto.drop_last() =~= all.take(i as int));
            assert(upto.last() == raw@[i as int]@);
            if let Some(rest) = after_prefix(raw[i].as_str(), prefix.as_str()) {
                if !rest.as_str().is_empty() {
                    names.push(rest);
                    assert(names.deep_view() =~= was.push(rest@));
                }
            }
            i += 1;
        }
        assert(all.take(i as int) =~= all);
        ZipIndex { prefix, names }
    }

    /// The name an entry has inside the archive.
    pub fn full_name(&self, name: &str) -> (r: String)
        ensures
            r@ == self.prefix@ + name@,
    {
        text::join2(self.prefix.as_str(), name)
    }

    /// Names of the per-day message files inside one channel directory,
    /// sorted. Slack names them `YYYY-MM-DD.json`, so lexical order is
    /// chronological order.
    pub fn channel_day_files(&self, channel_dir: &str) -> (r: Vec<String>)
        ensures
            r.deep_view() == sorted(
                self.names.deep_view().filter(|n: Seq<char>| day_file_of(n, channel_dir@)),
            ),
    {
        let ghost all = self.names.deep_view();
        let ghost pred = |n: Seq<char>| day_file_of(n, channel_dir@);
        let want = text::join2(channel_dir, "/");
        let mut days: Vec<String> = Vec::new();
        assert(days.deep_view() =~= all.take(0).filter(pred)) by {
            reveal(Seq::filter);
        }
        let mut i: usize = 0;
        while i < self.names.len()
            invariant
                i <= self.names@.len(),
                all == self.names.deep_view(),
                want@ == channel_dir@ + "/"@,
                pred == (|n: Seq<char>| day_file_of(n, channel_dir@)),
                days.deep_view() == all.take(i as int).filter(pred),
            decreases self.names@.len() - i,
        {
            let ghost upto = all.take(i + 1);
            let ghost was = days.deep_view();
            assert(upto.drop_last() =~= all.take(i as int));
            assert(upto.last() == self.names@[i as int]@);
            assert(upto.filter(pred) == if pred(upto.last()) {
                was.push(upto.last())
            } else {
                was
            }) by {
                reveal(Seq::filter);
            }
            let name = self.names[i].as_str();
            if let Some(rest) = after_prefix(name, want.as_str()) {
                // Only direct children; Slack does not nest, but a
                // hand-edited zip might.
                if has_suffix(name, ".json") && split_once(rest.as_str()).is_none() {
                    days.push(self.names[i].clone());
                    assert(days.deep_view() =~= was.push(upto.last()));
                }
            }
            i += 1;
        }
        assert(all.take(i as int) =~= all);
        sort_texts(&days)
    }

    /// Directory names at the export root. These are the per-conversation
    /// message directories; Slack names them after the channel (`general`) or
    /// the DM id (`D024BE7LH`).
    pub fn top_level_dirs(&self) -> (r: Vec<String>)
        ensures
            r.deep_view() == sorted_set(holding_dirs(self.names.deep_view())),
    {
        let ghost all = self.names.deep_view();
        let mut dirs: Vec<String> = Vec::new();
        assert(dirs.deep_view() =~= seq![]);
        let mut i: usize = 0;
        while i < self.names.len()
            invariant
                i <= self.names@.len(),
                all == self.names.deep_view(),
                dirs.deep_view() == holding_dirs(all.take(i as int)),
            decreases self.names@.len() - i,
        {
            let ghost upto = all.take(i + 1);
            let ghost was = dirs.deep_view();
            assert(upto.drop_last() =~= all.take(i as int));
            assert(upto.last() == self.names@[i as int]@);
            if let Some((h, rest)) = split_once(self.names[i].as_str()) {
                if !rest.as_str().is_empty() {
                    dirs.push(h);
                    assert(dirs.deep_view() =~= was.push(h@));
                }
            }
            i += 1;
        }
        assert(all.take(i as int) =~= all);
        sort_set(&dirs)
    }
}

// ── unzipped exports ─────────────────────────────────────────────────────────

/// The paths of the `.json` files of a directory listing.
pub open spec fn json_paths(listing: Seq<Seq<char>>, dir: Seq<char>) -> Seq<Seq<char>>
    decreases listing.len(),
{
    if listing.len() == 0 {
        seq![]
    } else {
        let ahead = json_paths(listing.drop_last(), dir);
        if ends_with(listing.last(), ".json"@) {
            ahead.push(dir + "/"@ + listing.last())
        } else {
            ahead
        }
    }
}

/// Names of the per-day message files of an unzipped channel directory, sorted,
/// from the names that the directory lists.
pub fn day_files_of_listing(channel_dir: &str, listing: &[String]) -> (r: Vec<String>)
    ensures
        r.deep_view() == sorted_set(json_paths(listing.deep_view(), channel_dir@)),
{
    let ghost all = listing.deep_view();
    let mut days: Vec<String> = Vec::new();
    assert(days.deep_view() =~= seq![]);
    let mut i: usize = 0;
    while i < listing.len()
        invariant
            i <= listing@.len(),
            all == listing.deep_view(),
            days.deep_view() == json_paths(all.take(i as int), channel_dir@),
        decreases listing@.len() - i,
    {
        let ghost upto = all.take(i + 1);
        let ghost was = days.deep_view();
        assert(upto.drop_last() =~= all.take(i as int));
        assert(upto.last() == listing@[i as int]@);
        if has_suffix(listing[i].as_str(), ".json") {
            let path = text::join3(channel_dir, "/", listing[i].as_str());
            days.push(path);
            assert(days.deep_view() =~= was.push(path@));
        }
        i += 1;
    }
    assert(all.take(i as int) =~= all);
    sort_set(&days)
}

/// Directory names at the root of an unzipped export, sorted and without
/// repeats, from the names of the directories that the root lists.
pub fn dirs_of_listing(listing: &Vec<String>) -> (r: Vec<String>)
    ensures
        r.deep_view() == sorted_set(listing.deep_view()),
{
    sort_set(listing)
}

// ── what was read ────────────────────────────────────────────────────────────

/// One day file of a conversation.
#[derive(Debug, Clone)]
pub struct DayFile {
    /// The directory it stands in.
    pub dir: String,
    /// Its messages; `None` when it does not parse.
    pub messages: Option<Vec<SlackMessage>>,
}

/// An opened Slack export.
///
/// Most of the top-level manifests are optional, and a workspace with no private
/// channels simply has no `groups.json`, so each is `None` when it is absent.
#[derive(Debug, Clone)]
pub struct Export {
    /// `users.json`.
    pub users: Option<Vec<SlackUser>>,
    /// `channels.json`.
    pub channels: Option<Vec<SlackConversation>>,
    /// `groups.json`.
    pub groups: Option<Vec<SlackConversation>>,
    /// `mpims.json`.
    pub mpims: Option<Vec<SlackConversation>>,
    /// `dms.json`.
    pub dms: Option<Vec<SlackConversation>>,
    /// `emoji.json`, as it stands in the export.
    pub emoji: Option<Vec<u8>>,
    /// Directory names at the export root.
    pub dirs: Vec<String>,
    /// The day files, those of one directory in order of their names.
    pub days: Vec<DayFile>,
}

/// The entries of a custom emoji table in JSON, in order of their names; nothing
/// when the bytes are not such a table.
pub uninterp spec fn emoji_entries(json: Seq<u8>) -> Option<Seq<(Seq<char>, Seq<char>)>>;

/// Whether the names of a table stand in strictly ascending order.
pub open spec fn table_ascends(table: Seq<(Seq<char>, Seq<char>)>) -> bool {
    forall|i: int, j: int|
        0 <= i < j < table.len() ==> text::lt(#[trigger] table[i].0, #[trigger] table[j].0)
}

/// Reads a JSON object of strings: [`serde_json::from_slice`] into a
/// [`BTreeMap`](std::collections::BTreeMap), which hands its entries out in
/// order of their names. What it reads depends on the bytes alone. Which bytes
/// are such an object, and what its entries are, is left to `serde_json`.
#[verifier::external_body]
fn parse_emoji_table(json: &Vec<u8>) -> (r: Result<Vec<(String, String)>, JsonError>)
    ensures
        r is Ok == emoji_entries(json@) is Some,
        r matches Ok(v) ==> emoji_entries(json@) == Some(v.deep_view()) && table_ascends(v.deep_view()),
{
    let table: std::collections::BTreeMap<String, String> = serde_json::from_slice(json)?;
    Ok(table.into_iter().collect())
}

impl Export {
    /// The custom emoji: names and images, in order of the names. Empty when the
    /// export has no table; an error when it has one that does not parse.
    pub fn emoji_table(&self) -> (r: Result<Vec<(String, String)>, Error>)
        ensures
            match (r, self.emoji) {
                (Ok(v), Some(json)) => emoji_entries(json@) == Some(v.deep_view())
                    && table_ascends(v.deep_view()),
                (Ok(v), None) => v.deep_view() == Seq::<(Seq<char>, Seq<char>)>::empty(),
                (Err(e), Some(json)) => emoji_entries(json@) is None && e.deep_view() == (
                Failure::Json { what: "emoji.json"@ }),
                (Err(_), None) => false,
            },
    {
        match &self.emoji {
            Some(json) => match parse_emoji_table(json) {
                Ok(v) => Ok(v),
                Err(source) => Err(Error::Json { what: "emoji.json".to_string(), source }),
            },
            None => {
                let v: Vec<(String, String)> = Vec::new();
                assert(v.deep_view() =~= Seq::<(Seq<char>, Seq<char>)>::empty());
                Ok(v)
            },
        }
    }
}

} // verus!
