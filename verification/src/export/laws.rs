//! What holds of reading an export, zipped or not.

use vstd::prelude::*;

use crate::export::{day_file_of, ends_with, head, holding_dirs, json_paths, nested, tail, under, wrapper_of};
use crate::order::{lemma_ascending_unique, lemma_kept, lemma_sorted_distinct, law_sorted_set, sorted, sorted_set};
use crate::text::{index_of, lemma_index_of, lemma_index_of_is, stands_at};

verus! {

/// Entry names, wrapped in a directory.
pub open spec fn wrapped(names: Seq<Seq<char>>, dir: Seq<char>) -> Seq<Seq<char>> {
    Seq::new(names.len(), |i: int| dir + "/"@ + names[i])
}

proof fn lemma_wrapped_name(dir: Seq<char>, name: Seq<char>)
    requires
        !nested(dir),
    ensures
        nested(dir + "/"@ + name),
        head(dir + "/"@ + name) == dir,
        stands_at(dir + "/"@ + name, dir + "/"@, 0),
        (dir + "/"@ + name).skip((dir + "/"@).len() as int) == name,
{
    reveal_strlit("/");
    let s = dir + "/"@ + name;
    lemma_index_of(dir, '/');
    assert(s[dir.len() as int] == '/');
    assert forall|k: int| 0 <= k < dir.len() implies s[k] != '/' by {
        assert(s[k] == dir[k]);
    }
    lemma_index_of_is(s, '/', dir.len() as int);
    assert(s.take(dir.len() as int) =~= dir);
    assert(s.subrange(0, (dir + "/"@).len() as int) =~= dir + "/"@);
    assert(s.skip((dir + "/"@).len() as int) =~= name);
}

proof fn lemma_under_wrapped(names: Seq<Seq<char>>, dir: Seq<char>)
    requires
        !nested(dir),
    ensures
        under(wrapped(names, dir), dir + "/"@) == under(names, seq![]),
    decreases names.len(),
{
    if names.len() > 0 {
        let ahead = names.drop_last();
        lemma_under_wrapped(ahead, dir);
        let w = wrapped(names, dir);
        assert(w.drop_last() =~= wrapped(ahead, dir));
        assert(w.last() == dir + "/"@ + names.last());
        lemma_wrapped_name(dir, names.last());
        assert(names.last().subrange(0, 0) =~= seq![]);
        assert(names.last().skip(0) =~= names.last());
    }
}

/// A wrapper directory is invisible: an archive that holds everything in one
/// directory is indexed like one that does not. Slack does both.
pub proof fn law_wrapper_is_invisible(names: Seq<Seq<char>>, dir: Seq<char>)
    requires
        !nested(dir),
        names.contains("users.json"@),
    ensures
        wrapper_of(wrapped(names, dir)) == dir + "/"@,
        wrapper_of(names) == Seq::<char>::empty(),
        under(wrapped(names, dir), wrapper_of(wrapped(names, dir))) == under(
            names,
            wrapper_of(names),
        ),
{
    let w = wrapped(names, dir);
    let k = choose|k: int| 0 <= k < names.len() && names[k] == "users.json"@;
    reveal_strlit("users.json");
    reveal_strlit("/users.json");
    reveal_strlit("/");
    lemma_index_of(names[k], '/');
    assert(!nested(names[k]));
    assert forall|i: int| 0 <= i < w.len() implies nested(#[trigger] w[i]) && head(w[i])
        == dir by {
        lemma_wrapped_name(dir, names[i]);
    }
    assert(head(w[0]) == dir);
    assert("/"@ + "users.json"@ =~= "/users.json"@);
    assert(w[k] =~= dir + "/users.json"@);
    assert(w.contains(dir + "/users.json"@));
    lemma_under_wrapped(names, dir);
}

proof fn lemma_json_paths(listing: Seq<Seq<char>>, dir: Seq<char>, path: Seq<char>)
    ensures
        json_paths(listing, dir).contains(path) <==> exists|f: Seq<char>| #[trigger]
            listing.contains(f) && ends_with(f, ".json"@) && path == dir + "/"@ + f,
    decreases listing.len(),
{
    if listing.len() > 0 {
        let ahead = listing.drop_last();
        let last = listing.last();
        lemma_json_paths(ahead, dir, path);
        let before = json_paths(ahead, dir);
        let now = json_paths(listing, dir);
        if now.contains(path) {
            let k = choose|k: int| 0 <= k < now.len() && now[k] == path;
            if k < before.len() {
                assert(before[k] == path);
                let f = choose|f: Seq<char>| #[trigger]
                    ahead.contains(f) && ends_with(f, ".json"@) && path == dir + "/"@ + f;
                let i = choose|i: int| 0 <= i < ahead.len() && ahead[i] == f;
                assert(listing[i] == f);
                assert(listing.contains(f));
            } else {
                assert(listing[listing.len() - 1] == last);
                assert(listing.contains(last));
            }
        }
        assert forall|f: Seq<char>| #[trigger]
            listing.contains(f) && ends_with(f, ".json"@) && path == dir + "/"@
                + f implies now.contains(path) by {
            let i = choose|i: int| 0 <= i < listing.len() && listing[i] == f;
            if i < ahead.len() {
                assert(ahead[i] == f);
                assert(ahead.contains(f));
                assert(before.contains(path));
                let k = choose|k: int| 0 <= k < before.len() && before[k] == path;
                assert(now[k] == path);
            } else {
                assert(now.last() == path);
            }
        }
    }
}

/// The ending of a path is that of its last component.
proof fn lemma_json_ending(dir: Seq<char>, f: Seq<char>)
    ensures
        ends_with(dir + "/"@ + f, ".json"@) == ends_with(f, ".json"@),
{
    reveal_strlit("/");
    reveal_strlit(".json");
    let s = dir + "/"@ + f;
    let part = ".json"@;
    assert(part.len() == 5);
    if f.len() >= 5 {
        assert(s.subrange(s.len() - 5, s.len() as int) =~= f.subrange(f.len() - 5, f.len() as int));
    } else if s.len() >= 5 {
        let at = dir.len() - (s.len() - 5);
        assert(s.subrange(s.len() - 5, s.len() as int)[at] == '/');
        assert(part[0] == '.' && part[1] == 'j' && part[2] == 's' && part[3] == 'o' && part[4]
            == 'n');
        assert(!ends_with(s, part));
        assert(!ends_with(f, part));
    }
}

/// Whether a directory of an unzipped export lists the JSON files that an archive
/// holds right inside it.
pub open spec fn lists_json_of(
    listing: Seq<Seq<char>>,
    names: Seq<Seq<char>>,
    dir: Seq<char>,
) -> bool {
    forall|f: Seq<char>|
        ends_with(f, ".json"@) ==> (#[trigger] listing.contains(f) <==> !nested(f)
            && names.contains(dir + "/"@ + f))
}

/// A zip archive gives the same day files, in the same order, as a directory that
/// lists the same names, in whatever order it lists them.
pub proof fn law_zip_agrees_with_directory(
    names: Seq<Seq<char>>,
    dir: Seq<char>,
    listing: Seq<Seq<char>>,
)
    requires
        names.no_duplicates(),
        lists_json_of(listing, names, dir),
    ensures
        sorted(names.filter(|n: Seq<char>| day_file_of(n, dir))) == sorted_set(
            json_paths(listing, dir),
        ),
{
    let pred = |n: Seq<char>| day_file_of(n, dir);
    let days = names.filter(pred);
    let paths = json_paths(listing, dir);
    let want = dir + "/"@;
    lemma_kept(names, pred);
    lemma_filter_distinct(names, pred);
    assert forall|x: Seq<char>| #[trigger] days.contains(x) <==> paths.contains(x) by {
        lemma_json_paths(listing, dir, x);
        if days.contains(x) {
            assert(names.contains(x) && day_file_of(x, dir));
            let f = x.skip(want.len() as int);
            assert(x =~= want + f) by {
                assert(x.subrange(0, want.len() as int) =~= want);
            }
            lemma_json_ending(dir, f);
            assert(listing.contains(f));
        }
        if paths.contains(x) {
            let f = choose|f: Seq<char>| #[trigger]
                listing.contains(f) && ends_with(f, ".json"@) && x == dir + "/"@ + f;
            lemma_json_ending(dir, f);
            assert(x.subrange(0, want.len() as int) =~= want);
            assert(x.skip(want.len() as int) =~= f);
            assert(names.contains(x));
            assert(pred(x));
            assert(days.contains(x));
        }
    }
    lemma_sorted_distinct(days);
    law_sorted_set(days);
    law_sorted_set(paths);
    assert forall|x: Seq<char>| #[trigger] sorted_set(days).contains(x) <==> sorted_set(
        paths,
    ).contains(x) by {
        assert(days.contains(x) <==> paths.contains(x));
    }
    lemma_ascending_unique(sorted_set(days), sorted_set(paths));
}

/// Whether the root of an unzipped export lists the directories that an archive
/// holds something in.
pub open spec fn lists_dirs_of(root: Seq<Seq<char>>, names: Seq<Seq<char>>) -> bool {
    forall|d: Seq<char>| #[trigger]
        root.contains(d) <==> !nested(d) && exists|f: Seq<char>|
            f.len() > 0 && names.contains(#[trigger] (d + "/"@ + f))
}

proof fn lemma_holding_dirs(names: Seq<Seq<char>>, d: Seq<char>)
    ensures
        holding_dirs(names).contains(d) <==> exists|i: int|
            0 <= i < names.len() && nested(#[trigger] names[i]) && tail(names[i]).len() > 0
                && head(names[i]) == d,
    decreases names.len(),
{
    if names.len() > 0 {
        let ahead = names.drop_last();
        let last = names.last();
        let before = holding_dirs(ahead);
        let now = holding_dirs(names);
        lemma_holding_dirs(ahead, d);
        if now.contains(d) {
            let k = choose|k: int| 0 <= k < now.len() && now[k] == d;
            if k < before.len() {
                assert(before[k] == d);
                let i = choose|i: int|
                    0 <= i < ahead.len() && nested(#[trigger] ahead[i]) && tail(ahead[i]).len() > 0
                        && head(ahead[i]) == d;
                assert(names[i] == ahead[i]);
            } else {
                assert(names[names.len() - 1] == last);
            }
        }
        assert forall|i: int|
            0 <= i < names.len() && nested(#[trigger] names[i]) && tail(names[i]).len() > 0 && head(
                names[i],
            ) == d implies now.contains(d) by {
            if i < ahead.len() {
                assert(ahead[i] == names[i]);
                assert(before.contains(d));
                let k = choose|k: int| 0 <= k < before.len() && before[k] == d;
                assert(now[k] == d);
            } else {
                assert(now.last() == d);
            }
        }
    }
}

/// An archive holds something in the directory of each of its entries.
pub proof fn lemma_holds(names: Seq<Seq<char>>, d: Seq<char>, f: Seq<char>)
    requires
        !nested(d),
        f.len() > 0,
        names.contains(d + "/"@ + f),
    ensures
        holding_dirs(names).contains(d),
{
    reveal_strlit("/");
    let n = d + "/"@ + f;
    let i = choose|i: int| 0 <= i < names.len() && names[i] == n;
    lemma_wrapped_name(d, f);
    lemma_index_of(n, '/');
    assert(index_of(n, '/') == d.len());
    assert(tail(n) =~= f);
    assert(nested(names[i]));
    lemma_holding_dirs(names, d);
}

/// A zip archive gives the same directories, in the same order, as an unzipped
/// export whose root lists them, in whatever order it does. (Both speak of
/// directories that hold something: an archive has no others.)
pub proof fn law_zip_lists_the_same_directories(names: Seq<Seq<char>>, root: Seq<Seq<char>>)
    requires
        lists_dirs_of(root, names),
    ensures
        sorted_set(holding_dirs(names)) == sorted_set(root),
{
    reveal_strlit("/");
    let held = holding_dirs(names);
    assert forall|d: Seq<char>| #[trigger] held.contains(d) <==> root.contains(d) by {
        lemma_holding_dirs(names, d);
        if held.contains(d) {
            let i = choose|i: int|
                0 <= i < names.len() && nested(#[trigger] names[i]) && tail(names[i]).len() > 0
                    && head(names[i]) == d;
            let n = names[i];
            lemma_index_of(n, '/');
            lemma_index_of(d, '/');
            assert(n =~= d + "/"@ + tail(n));
            if nested(d) {
                assert(d[index_of(d, '/')] == n[index_of(d, '/')]);
            }
            assert(names.contains(d + "/"@ + tail(n)));
            assert(root.contains(d));
        }
        if root.contains(d) {
            let f = choose|f: Seq<char>|
                f.len() > 0 && names.contains(#[trigger] (d + "/"@ + f));
            lemma_holds(names, d, f);
        }
    }
    law_sorted_set(held);
    law_sorted_set(root);
    assert forall|x: Seq<char>| #[trigger] sorted_set(held).contains(x) <==> sorted_set(
        root,
    ).contains(x) by {
        assert(held.contains(x) <==> root.contains(x));
    }
    lemma_ascending_unique(sorted_set(held), sorted_set(root));
}

proof fn lemma_filter_distinct(s: Seq<Seq<char>>, pred: spec_fn(Seq<char>) -> bool)
    requires
        s.no_duplicates(),
    ensures
        s.filter(pred).no_duplicates(),
    decreases s.len(),
{
    reveal(Seq::filter);
    if s.len() > 0 {
        let ahead = s.drop_last();
        assert(ahead.no_duplicates());
        lemma_filter_distinct(ahead, pred);
        lemma_kept(ahead, pred);
        let kept = ahead.filter(pred);
        if pred(s.last()) {
            assert(s.filter(pred) =~= kept.push(s.last()));
            assert forall|i: int| 0 <= i < kept.len() implies kept[i] != s.last() by {
                assert(kept.contains(kept[i]));
                assert(ahead.contains(kept[i]));
                let k = choose|k: int| 0 <= k < ahead.len() && ahead[k] == kept[i];
                assert(s[k] != s[s.len() - 1]);
            }
        }
    }
}

} // verus!
