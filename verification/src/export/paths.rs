//! Which paths of an export are what.

use vstd::prelude::*;

use crate::export::{day_file_of, ends_with, head, holding_dirs, json_paths, nested, tail, under, wrapper_of};
use crate::mrkdwn::laws::lacks;
use crate::text::{index_of, lemma_index_of, lemma_index_of_is, stands_at};

verus! {

proof fn lemma_nested(path: Seq<char>)
    ensures
        nested(path) <==> !lacks(path, '/'),
        nested(path) ==> path == head(path) + seq!['/'] + tail(path) && lacks(head(path), '/'),
{
    lemma_index_of(path, '/');
    let k = index_of(path, '/');
    if k < path.len() {
        assert(path[k] == '/');
        assert(path =~= path.take(k) + seq!['/'] + path.skip(k + 1));
    }
}

proof fn lemma_joined_path(dir: Seq<char>, rest: Seq<char>)
    requires
        lacks(dir, '/'),
    ensures
        nested(dir + "/"@ + rest),
        head(dir + "/"@ + rest) == dir,
        tail(dir + "/"@ + rest) == rest,
{
    reveal_strlit("/");
    let s = dir + "/"@ + rest;
    let k = dir.len() as int;
    assert(s[k] == '/');
    assert forall|i: int| 0 <= i < k implies s[i] != '/' by {
        assert(s[i] == dir[i]);
    }
    lemma_index_of_is(s, '/', k);
    assert(s.take(k) =~= dir);
    assert(s.skip(k + 1) =~= rest);
}

/// A day file is one that stands directly in its conversation's directory and is
/// named `.json`.
pub proof fn law_day_files_stand_in_the_directory(dir: Seq<char>, name: Seq<char>, stem: Seq<char>)
    ensures
        lacks(stem, '/') ==> day_file_of(dir + "/"@ + (stem + ".json"@), dir),
        day_file_of(name, dir) ==> exists|f: Seq<char>|
            lacks(f, '/') && name == #[trigger] (dir + "/"@ + (f + ".json"@)),
{
    reveal_strlit("/");
    reveal_strlit(".json");
    let want = dir + "/"@;
    let json = ".json"@;
    if lacks(stem, '/') {
        let f = stem + json;
        let s = want + f;
        assert(s.subrange(0, want.len() as int) =~= want);
        assert(s.skip(want.len() as int) =~= f);
        assert(s.subrange(s.len() - 5, s.len() as int) =~= json);
        assert(lacks(f, '/')) by {
            assert forall|i: int| 0 <= i < f.len() implies #[trigger] f[i] != '/' by {
                if i < stem.len() {
                    assert(f[i] == stem[i]);
                } else {
                    assert(f[i] == json[i - stem.len()]);
                }
            }
        }
        lemma_nested(f);
        assert(dir + "/"@ + (stem + ".json"@) == s);
    }
    if day_file_of(name, dir) {
        let f = name.skip(want.len() as int);
        lemma_nested(f);
        assert(name.subrange(0, want.len() as int) =~= want);
        assert(name =~= want + f);
        let n = name.len() as int;
        assert(name.subrange(n - 5, n) =~= json);
        if f.len() < 5 {
            let i = 4 - f.len();
            assert(name[want.len() - 1] == '/');
            assert(name.subrange(n - 5, n)[i] == name[n - 5 + i]);
            assert(json[i] != '/');
        }
        let g = f.take(f.len() - 5);
        assert(f.skip(f.len() - 5) =~= json) by {
            assert forall|i: int| 0 <= i < 5 implies f.skip(f.len() - 5)[i] == json[i] by {
                assert(name.subrange(n - 5, n)[i] == name[n - 5 + i]);
            }
        }
        assert(f =~= g + json);
        assert(lacks(g, '/')) by {
            assert forall|i: int| 0 <= i < g.len() implies #[trigger] g[i] != '/' by {
                assert(g[i] == f[i]);
            }
        }
        assert(name == dir + "/"@ + (g + ".json"@));
    }
}

/// The entries of an archive are known by what follows the wrapper; what is not
/// under it, or is the wrapper itself, is left out.
pub proof fn law_entries_are_known_without_the_wrapper(
    raw: Seq<Seq<char>>,
    prefix: Seq<char>,
    name: Seq<char>,
)
    ensures
        under(raw, prefix).contains(name) <==> name.len() > 0 && raw.contains(prefix + name),
    decreases raw.len(),
{
    if raw.len() > 0 {
        let front = raw.drop_last();
        let last = raw.last();
        let before = under(front, prefix);
        let all = under(raw, prefix);
        law_entries_are_known_without_the_wrapper(front, prefix, name);
        assert(raw[raw.len() - 1] == last);
        let kept = stands_at(last, prefix, 0) && last.len() > prefix.len();
        if kept {
            assert(last.subrange(0, prefix.len() as int) =~= prefix);
            assert(last =~= prefix + last.skip(prefix.len() as int));
            assert(all[before.len() as int] == last.skip(prefix.len() as int));
        }
        if all.contains(name) {
            let k = all.index_of(name);
            if k < before.len() {
                assert(before[k] == name);
                let j = front.index_of(prefix + name);
                assert(raw[j] == prefix + name);
            }
        }
        if name.len() > 0 && raw.contains(prefix + name) {
            let j = raw.index_of(prefix + name);
            if j < front.len() {
                assert(front[j] == prefix + name);
                let k = before.index_of(name);
                assert(all[k] == name);
            } else {
                assert(last.subrange(0, prefix.len() as int) =~= prefix);
                assert(last.skip(prefix.len() as int) =~= name);
                assert(kept);
            }
        }
    }
}

/// The directories of an archive are those that something stands in.
pub proof fn law_directories_are_those_that_hold_something(
    names: Seq<Seq<char>>,
    dir: Seq<char>,
)
    ensures
        holding_dirs(names).contains(dir) <==> lacks(dir, '/') && exists|f: Seq<char>|
            f.len() > 0 && names.contains(#[trigger] (dir + "/"@ + f)),
    decreases names.len(),
{
    reveal_strlit("/");
    if names.len() > 0 {
        let front = names.drop_last();
        let last = names.last();
        let before = holding_dirs(front);
        let all = holding_dirs(names);
        law_directories_are_those_that_hold_something(front, dir);
        assert(names[names.len() - 1] == last);
        lemma_nested(last);
        let held = nested(last) && tail(last).len() > 0;
        if held {
            assert(all[before.len() as int] == head(last));
            assert("/"@ =~= seq!['/']);
        }
        if all.contains(dir) {
            let k = all.index_of(dir);
            if k < before.len() {
                assert(before[k] == dir);
                let f = choose|f: Seq<char>|
                    f.len() > 0 && front.contains(#[trigger] (dir + "/"@ + f));
                let j = front.index_of(dir + "/"@ + f);
                assert(names[j] == dir + "/"@ + f);
            } else {
                let f = tail(last);
                assert(names.contains(dir + "/"@ + f));
            }
        }
        if lacks(dir, '/') && exists|f: Seq<char>|
            f.len() > 0 && names.contains(#[trigger] (dir + "/"@ + f)) {
            let f = choose|f: Seq<char>| f.len() > 0 && names.contains(#[trigger] (dir + "/"@ + f));
            let j = names.index_of(dir + "/"@ + f);
            if j < front.len() {
                assert(front[j] == dir + "/"@ + f);
                let k = before.index_of(dir);
                assert(all[k] == dir);
            } else {
                lemma_joined_path(dir, f);
            }
        }
    } else {
        assert(!holding_dirs(names).contains(dir));
    }
}

/// An archive is wrapped where everything in it stands in one directory, the users
/// among it; else it is not.
pub proof fn law_wrappers_hold_everything(names: Seq<Seq<char>>, dir: Seq<char>, i: int)
    requires
        0 <= i < names.len(),
        lacks(dir, '/'),
        (dir + "/"@).is_prefix_of(names[i]),
    ensures
        (forall|k: int| 0 <= k < names.len() ==> (dir + "/"@).is_prefix_of(#[trigger] names[k]))
            && names.contains(dir + "/users.json"@) ==> wrapper_of(names) == dir + "/"@,
        !(forall|k: int| 0 <= k < names.len() ==> (dir + "/"@).is_prefix_of(#[trigger] names[k]))
            || !names.contains(dir + "/users.json"@) ==> wrapper_of(names).len() == 0,
{
    reveal_strlit("/");
    let want = dir + "/"@;
    assert forall|k: int| 0 <= k < names.len() implies (want.is_prefix_of(#[trigger] names[k])
        <==> nested(names[k]) && head(names[k]) == dir) by {
        let s = names[k];
        if want.is_prefix_of(s) {
            assert(s =~= dir + "/"@ + s.skip(want.len() as int)) by {
                assert(s.subrange(0, want.len() as int) =~= want);
            }
            lemma_joined_path(dir, s.skip(want.len() as int));
        }
        if nested(s) && head(s) == dir {
            lemma_nested(s);
            assert(s =~= want + tail(s));
            assert(s.subrange(0, want.len() as int) =~= want);
        }
    }
    assert(nested(names[i]) && head(names[i]) == dir);
    if forall|k: int| 0 <= k < names.len() ==> want.is_prefix_of(#[trigger] names[k]) {
        assert forall|k: int| 0 <= k < names.len() implies nested(#[trigger] names[k]) && head(
            names[k],
        ) == head(names[0]) by {
            assert(want.is_prefix_of(names[k]));
            assert(want.is_prefix_of(names[0]));
        }
        assert(want.is_prefix_of(names[0]));
    }
    if forall|k: int|
        0 <= k < names.len() ==> nested(#[trigger] names[k]) && head(names[k]) == head(names[0]) {
        assert forall|k: int| 0 <= k < names.len() implies want.is_prefix_of(#[trigger] names[k]) by {
            assert(nested(names[i]) && head(names[i]) == head(names[0]));
            assert(nested(names[k]) && head(names[k]) == head(names[0]));
        }
    }
}

/// An archive in which something stands in no directory is not wrapped.
pub proof fn law_archives_with_loose_entries_are_not_wrapped(names: Seq<Seq<char>>, i: int)
    requires
        0 <= i < names.len(),
        lacks(names[i], '/'),
    ensures
        wrapper_of(names).len() == 0,
{
    lemma_nested(names[i]);
    assert(!nested(names[i]));
}

/// Of a directory's files, those named `.json` are day files, by the path through
/// the directory.
pub proof fn law_listed_day_files(listing: Seq<Seq<char>>, dir: Seq<char>, path: Seq<char>)
    ensures
        json_paths(listing, dir).contains(path) <==> exists|stem: Seq<char>|
            listing.contains(stem + ".json"@) && path == #[trigger] (dir + "/"@ + (stem
                + ".json"@)),
    decreases listing.len(),
{
    reveal_strlit(".json");
    if listing.len() > 0 {
        let front = listing.drop_last();
        let last = listing.last();
        let before = json_paths(front, dir);
        let all = json_paths(listing, dir);
        let json = ".json"@;
        law_listed_day_files(front, dir, path);
        assert(listing[listing.len() - 1] == last);
        let kept = ends_with(last, json);
        let n = last.len() as int;
        if kept {
            assert(last.subrange(n - 5, n) =~= json);
            assert(last =~= last.take(n - 5) + json);
            assert(all[before.len() as int] == dir + "/"@ + last);
        }
        if all.contains(path) {
            let k = all.index_of(path);
            if k < before.len() {
                assert(before[k] == path);
                let stem = choose|stem: Seq<char>|
                    front.contains(stem + ".json"@) && path == #[trigger] (dir + "/"@ + (stem
                        + ".json"@));
                let j = front.index_of(stem + ".json"@);
                assert(listing[j] == stem + ".json"@);
                assert(listing.contains(stem + ".json"@));
            } else {
                let stem = last.take(n - 5);
                assert(listing.contains(stem + ".json"@));
                assert(path == dir + "/"@ + (stem + ".json"@));
            }
        }
        if exists|stem: Seq<char>|
            listing.contains(stem + ".json"@) && path == #[trigger] (dir + "/"@ + (stem
                + ".json"@)) {
            let stem = choose|stem: Seq<char>|
                listing.contains(stem + ".json"@) && path == #[trigger] (dir + "/"@ + (stem
                    + ".json"@));
            let j = listing.index_of(stem + ".json"@);
            if j < front.len() {
                assert(front[j] == stem + ".json"@);
                assert(front.contains(stem + ".json"@));
                let k = before.index_of(path);
                assert(all[k] == path);
            } else {
                assert(last.subrange(n - 5, n) =~= json);
                assert(kept);
            }
        }
    } else {
        assert(!json_paths(listing, dir).contains(path));
    }
}

} // verus!
