//! What becomes of refs, emphasis and mentions in a message.

use vstd::prelude::*;

use crate::mrkdwn::laws::{
    fence, lacks, law_code_splits_a_message, law_loose_delimiters_are_literal,
    law_mentions_are_distinct, lemma_closes_at, lemma_decoded_lacking, lemma_index_of_lacking,
    lemma_no_code, lemma_runs_shift, lemma_skip_to_code,
};
use crate::mrkdwn::{
    closes, decoded, emphasised, first_ref, link_address, next_at, next_code, normal_mentions,
    normal_text, noted, opens, ref_label, ref_mention, ref_target, ref_text, refs_mentions,
    refs_text, runs, runs_mentions, runs_text, span_end, text_run, Run,
};
use crate::text::{index_of, lemma_index_of, stands_at, white};

verus! {

// ── mentions ─────────────────────────────────────────────────────────────────

/// What `<` and `>` enclose in a message.
pub open spec fn bracketed(body: Seq<char>) -> Seq<char> {
    seq!['<'] + body + seq!['>']
}

/// Whether every bracket that a text opens is followed by one that closes, so that
/// nothing after the text can be taken into a ref of it.
pub open spec fn settled(a: Seq<char>) -> bool {
    forall|i: int|
        0 <= i < a.len() && a[i] == '<' ==> exists|j: int| i < j < a.len() && #[trigger] a[j] == '>'
}

proof fn lemma_index_at(s: Seq<char>, c: char, k: int)
    requires
        0 <= k < s.len(),
        s[k] == c,
        forall|i: int| 0 <= i < k ==> #[trigger] s[i] != c,
    ensures
        index_of(s, c) == k,
{
    lemma_index_of(s, c);
    if index_of(s, c) < k {
        assert(s[index_of(s, c)] != c);
    }
}

proof fn lemma_index_ahead(a: Seq<char>, t: Seq<char>, c: char)
    requires
        index_of(a, c) < a.len(),
    ensures
        index_of(a + t, c) == index_of(a, c),
{
    lemma_index_of(a, c);
    let k = index_of(a, c);
    assert forall|i: int| 0 <= i < k implies #[trigger] (a + t)[i] != c by {
        assert((a + t)[i] == a[i]);
    }
    assert((a + t)[k] == a[k]);
    lemma_index_at(a + t, c, k);
}

proof fn lemma_index_behind(a: Seq<char>, t: Seq<char>, c: char)
    requires
        lacks(a, c),
    ensures
        index_of(a + t, c) == a.len() + index_of(t, c),
{
    let s = a + t;
    lemma_index_of(s, c);
    lemma_index_of(t, c);
    let k = index_of(s, c);
    let m = index_of(t, c);
    if k < a.len() {
        assert(s[k] == a[k]);
    }
    if m < t.len() {
        assert(s[a.len() + m] == t[m]);
        if k < a.len() + m {
            assert(s[k] == t[k - a.len()]);
        }
    } else if k < s.len() {
        assert(s[k] == t[k - a.len()]);
    }
}

proof fn lemma_first_ref_ahead(a: Seq<char>, t: Seq<char>)
    requires
        settled(a),
        !lacks(a, '<'),
    ensures
        first_ref(a) is Some,
        first_ref(a + t) == first_ref(a),
        ({
            let (open, len) = first_ref(a)->0;
            0 <= open && 0 <= len && open + len + 2 <= a.len() && settled(a.skip(open + len + 2))
        }),
{
    lemma_index_of(a, '<');
    let open = index_of(a, '<');
    assert(open < a.len()) by {
        if open == a.len() {
            assert(lacks(a, '<'));
        }
    }
    let tail = a.skip(open + 1);
    lemma_index_of(tail, '>');
    let len = index_of(tail, '>');
    assert(len < tail.len()) by {
        let j = choose|j: int| open < j < a.len() && #[trigger] a[j] == '>';
        assert(tail[j - open - 1] == '>');
    }
    lemma_index_ahead(a, t, '<');
    assert((a + t).skip(open + 1) =~= tail + t);
    lemma_index_ahead(tail, t, '>');
    let rest = a.skip(open + len + 2);
    assert forall|i: int| 0 <= i < rest.len() && rest[i] == '<' implies exists|j: int|
        i < j < rest.len() && #[trigger] rest[j] == '>' by {
        let k = i + open + len + 2;
        assert(a[k] == '<');
        let j = choose|j: int| k < j < a.len() && #[trigger] a[j] == '>';
        assert(rest[j - open - len - 2] == '>');
    }
}

proof fn lemma_first_ref_behind(a: Seq<char>, t: Seq<char>)
    requires
        lacks(a, '<'),
    ensures
        first_ref(a) is None,
        first_ref(a + t) == match first_ref(t) {
            Some((open, len)) => Some((a.len() + open, len)),
            None => None,
        },
{
    lemma_index_of_lacking(a, '<');
    lemma_index_behind(a, t, '<');
    lemma_index_of(t, '<');
    if index_of(t, '<') < t.len() {
        assert((a + t).skip(a.len() + index_of(t, '<') + 1) =~= t.skip(index_of(t, '<') + 1));
    }
}

proof fn lemma_mentions_follow(a: Seq<char>, t: Seq<char>, seen: Seq<Seq<char>>)
    requires
        settled(a),
    ensures
        refs_mentions(a + t, seen) == refs_mentions(t, refs_mentions(a, seen)),
    decreases a.len(),
{
    let s = a + t;
    if lacks(a, '<') {
        lemma_first_ref_behind(a, t);
        if let Some((open, len)) = first_ref(t) {
            lemma_index_of(t, '<');
            lemma_index_of(t.skip(open + 1), '>');
            assert(s.subrange(a.len() + open + 1, a.len() + open + 1 + len) =~= t.subrange(
                open + 1,
                open + 1 + len,
            ));
            assert(s.skip(a.len() + open + len + 2) =~= t.skip(open + len + 2));
        }
    } else {
        lemma_first_ref_ahead(a, t);
        let (open, len) = first_ref(a)->0;
        let rest = a.skip(open + len + 2);
        let body = a.subrange(open + 1, open + 1 + len);
        assert(s.subrange(open + 1, open + 1 + len) =~= body);
        assert(s.skip(open + len + 2) =~= rest + t);
        lemma_mentions_follow(rest, t, noted(seen, ref_mention(body)));
    }
}

proof fn lemma_texts_follow(
    a: Seq<char>,
    t: Seq<char>,
    users: Map<Seq<char>, Seq<char>>,
    channels: Map<Seq<char>, Seq<char>>,
)
    requires
        settled(a),
    ensures
        refs_text(a + t, users, channels) == refs_text(a, users, channels) + refs_text(
            t,
            users,
            channels,
        ),
    decreases a.len(),
{
    let s = a + t;
    if lacks(a, '<') {
        lemma_first_ref_behind(a, t);
        if let Some((open, len)) = first_ref(t) {
            lemma_index_of(t, '<');
            lemma_index_of(t.skip(open + 1), '>');
            assert(s.subrange(a.len() + open + 1, a.len() + open + 1 + len) =~= t.subrange(
                open + 1,
                open + 1 + len,
            ));
            assert(s.skip(a.len() + open + len + 2) =~= t.skip(open + len + 2));
            assert(s.take(a.len() + open) =~= a + t.take(open));
            assert(refs_text(s, users, channels) =~= a + refs_text(t, users, channels));
        } else {
            assert(refs_text(s, users, channels) =~= a + t);
        }
    } else {
        lemma_first_ref_ahead(a, t);
        let (open, len) = first_ref(a)->0;
        let rest = a.skip(open + len + 2);
        let body = a.subrange(open + 1, open + 1 + len);
        assert(s.subrange(open + 1, open + 1 + len) =~= body);
        assert(s.skip(open + len + 2) =~= rest + t);
        assert(s.take(open) =~= a.take(open));
        lemma_texts_follow(rest, t, users, channels);
        assert(refs_text(s, users, channels) =~= refs_text(a, users, channels) + refs_text(
            t,
            users,
            channels,
        ));
    }
}

proof fn lemma_one_ref(
    body: Seq<char>,
    b: Seq<char>,
    seen: Seq<Seq<char>>,
    users: Map<Seq<char>, Seq<char>>,
    channels: Map<Seq<char>, Seq<char>>,
)
    requires
        lacks(body, '>'),
    ensures
        refs_mentions(bracketed(body) + b, seen) == refs_mentions(
            b,
            noted(seen, ref_mention(body)),
        ),
        refs_text(bracketed(body) + b, users, channels) == ref_text(body, users, channels)
            + refs_text(b, users, channels),
{
    let s = bracketed(body) + b;
    assert(s[0] == '<');
    lemma_index_at(s, '<', 0);
    let tail = s.skip(1);
    assert forall|i: int| 0 <= i < body.len() implies #[trigger] tail[i] != '>' by {
        assert(tail[i] == body[i]);
    }
    assert(tail[body.len() as int] == '>');
    lemma_index_at(tail, '>', body.len() as int);
    assert(s.subrange(1, 1 + body.len() as int) =~= body);
    assert(s.skip(body.len() as int + 2) =~= b);
    assert(s.take(0) =~= seq![]);
    assert(refs_text(s, users, channels) =~= ref_text(body, users, channels) + refs_text(
        b,
        users,
        channels,
    ));
}

/// What the mentions of a text are that starts with some already noted.
proof fn lemma_mentions_added(s: Seq<char>, seen: Seq<Seq<char>>)
    ensures
        seen.is_prefix_of(refs_mentions(s, seen)),
        forall|id: Seq<char>| #[trigger]
            refs_mentions(s, seen).contains(id) <==> seen.contains(id) || refs_mentions(
                s,
                seq![],
            ).contains(id),
    decreases s.len(),
{
    match first_ref(s) {
        Some((open, len)) => {
            lemma_index_of(s, '<');
            lemma_index_of(s.skip(open + 1), '>');
            let rest = s.skip(open + len + 2);
            let m = ref_mention(s.subrange(open + 1, open + 1 + len));
            lemma_mentions_added(rest, noted(seen, m));
            lemma_mentions_added(rest, noted(seq![], m));
            let none = Seq::<Seq<char>>::empty();
            assert forall|id: Seq<char>| #[trigger]
                refs_mentions(s, seen).contains(id) <==> seen.contains(id) || refs_mentions(
                    s,
                    seq![],
                ).contains(id) by {
                assert(refs_mentions(s, seen) == refs_mentions(rest, noted(seen, m)));
                assert(refs_mentions(s, none) == refs_mentions(rest, noted(none, m)));
                lemma_noted(seen, m, id);
                lemma_noted(none, m, id);
            }
        },
        None => {},
    }
}

proof fn lemma_noted(seen: Seq<Seq<char>>, m: Option<Seq<char>>, id: Seq<char>)
    ensures
        noted(seen, m).contains(id) <==> seen.contains(id) || m == Some(id),
        seen.is_prefix_of(noted(seen, m)),
{
    if let Some(x) = m {
        if !seen.contains(x) {
            let all = seen.push(x);
            assert(all[seen.len() as int] == x);
            if seen.contains(id) {
                let k = seen.index_of(id);
                assert(all[k] == id);
            }
            if all.contains(id) {
                let k = all.index_of(id);
                if k < seen.len() {
                    assert(seen[k] == id);
                }
            }
        }
    }
}

proof fn lemma_text_only(
    s: Seq<char>,
    users: Map<Seq<char>, Seq<char>>,
    channels: Map<Seq<char>, Seq<char>>,
)
    requires
        lacks(s, '`'),
    ensures
        normal_mentions(s) == refs_mentions(s, seq![]),
        normal_text(s, users, channels) == decoded(
            emphasised(emphasised(refs_text(s, users, channels), '*', 0), '~', 0),
        ),
{
    reveal_with_fuel(runs_text, 2);
    reveal_with_fuel(runs_mentions, 2);
    lemma_no_code(s, 0);
    assert(s.skip(0) =~= s);
    let rs = text_run(s);
    assert(runs(s, 0) == rs);
    if s.len() > 0 {
        assert(rs.drop_last() =~= seq![]);
        assert(runs_text(rs, users, channels) =~= decoded(
            emphasised(emphasised(refs_text(s, users, channels), '*', 0), '~', 0),
        ));
    } else {
        lemma_index_of_lacking(s, '<');
        assert(refs_text(s, users, channels) =~= s);
        assert(emphasised(s, '*', 0) =~= s);
        assert(emphasised(s, '~', 0) =~= s);
        assert(decoded(s) =~= s);
        assert(refs_mentions(s, seq![]) =~= seq![]);
    }
}

proof fn lemma_runs_mentions_add(a: Seq<Run>, b: Seq<Run>)
    ensures
        runs_mentions(a).is_prefix_of(runs_mentions(a + b)),
        forall|id: Seq<char>| #[trigger]
            runs_mentions(a + b).contains(id) <==> runs_mentions(a).contains(id) || runs_mentions(
                b,
            ).contains(id),
    decreases b.len(),
{
    if b.len() == 0 {
        assert(a + b =~= a);
    } else {
        let front = b.drop_last();
        assert((a + b).drop_last() =~= a + front);
        lemma_runs_mentions_add(a, front);
        match b.last() {
            Run::Text(v) => {
                lemma_mentions_added(v, runs_mentions(a + front));
                lemma_mentions_added(v, runs_mentions(front));
                assert forall|id: Seq<char>| #[trigger]
                    runs_mentions(a + b).contains(id) <==> runs_mentions(a).contains(id)
                        || runs_mentions(b).contains(id) by {
                    assert(runs_mentions(a + b) == refs_mentions(v, runs_mentions(a + front)));
                    assert(runs_mentions(b) == refs_mentions(v, runs_mentions(front)));
                    assert(runs_mentions(a + front).contains(id) <==> runs_mentions(a).contains(id)
                        || runs_mentions(front).contains(id));
                }
            },
            Run::Code(_) => {
                assert forall|id: Seq<char>| #[trigger]
                    runs_mentions(a + b).contains(id) <==> runs_mentions(a).contains(id)
                        || runs_mentions(b).contains(id) by {
                    assert(runs_mentions(a + b) == runs_mentions(a + front));
                    assert(runs_mentions(b) == runs_mentions(front));
                }
            },
        }
    }
}

/// Code does not part the mentions of a message: those ahead of it come first, in
/// their order, and those behind it are added to them. The code itself mentions
/// nobody.
pub proof fn law_mentions_are_gathered_over_code(
    lead: Seq<char>,
    n: nat,
    body: Seq<char>,
    rest: Seq<char>,
    id: Seq<char>,
)
    requires
        n == 1 || n == 3,
        lacks(lead, '`'),
        lacks(body, '`'),
        n == 1 && body.len() == 0 && rest.len() > 0 ==> rest[0] != '`',
    ensures
        ({
            let all = normal_mentions(lead + (fence(n) + body + fence(n)) + rest);
            &&& all.contains(id) <==> normal_mentions(lead).contains(id) || normal_mentions(
                rest,
            ).contains(id)
            &&& normal_mentions(lead).is_prefix_of(all)
            &&& all.no_duplicates()
        }),
{
    let code = fence(n) + body + fence(n);
    let s = lead + code + rest;
    law_code_splits_a_message(lead, n, body, rest, Map::empty(), Map::empty());
    law_mentions_are_distinct(s);
    lemma_no_code(lead, 0);
    assert(lead.skip(0) =~= lead);
    assert(runs(lead, 0) == text_run(lead));
    let first = text_run(lead) + seq![Run::Code(code)];
    assert(first.drop_last() =~= text_run(lead));
    assert(runs_mentions(first) == normal_mentions(lead));
    lemma_runs_mentions_add(first, runs(rest, 0));
    assert(runs_mentions(first + runs(rest, 0)).contains(id) <==> runs_mentions(first).contains(id)
        || runs_mentions(runs(rest, 0)).contains(id));
}

/// How a user is mentioned: by id, with or without a label.
pub open spec fn user_ref(id: Seq<char>, label: Option<Seq<char>>) -> Seq<char> {
    match label {
        Some(l) => seq!['@'] + id + seq!['|'] + l,
        None => seq!['@'] + id,
    }
}

/// Every user that a text refers to is mentioned, with or without a label, behind
/// those that the text mentions ahead, and with those that it mentions after.
pub proof fn law_user_refs_are_mentions(
    a: Seq<char>,
    id: Seq<char>,
    label: Option<Seq<char>>,
    b: Seq<char>,
    other: Seq<char>,
)
    requires
        settled(a),
        id.len() > 0,
        lacks(id, '>'),
        lacks(id, '|'),
        label matches Some(l) ==> lacks(l, '>'),
        lacks(a + bracketed(user_ref(id, label)) + b, '`'),
    ensures
        ({
            let all = normal_mentions(a + bracketed(user_ref(id, label)) + b);
            &&& all.contains(id)
            &&& all.contains(other) <==> other == id || normal_mentions(a).contains(other)
                || normal_mentions(b).contains(other)
            &&& normal_mentions(a).is_prefix_of(all)
            &&& !normal_mentions(a).contains(id) ==> all[normal_mentions(a).len() as int] == id
        }),
{
    let body = user_ref(id, label);
    let s = a + bracketed(body) + b;
    let t = bracketed(body) + b;
    assert(s =~= a + t);
    assert forall|i: int| 0 <= i < a.len() implies #[trigger] a[i] != '`' by {
        assert(s[i] == a[i]);
    }
    assert forall|i: int| 0 <= i < b.len() implies #[trigger] b[i] != '`' by {
        assert(s[a.len() + bracketed(body).len() + i] == b[i]);
    }
    lemma_text_only(s, Map::empty(), Map::empty());
    lemma_text_only(a, Map::empty(), Map::empty());
    lemma_text_only(b, Map::empty(), Map::empty());
    lemma_user_ref(id, label);
    let before = refs_mentions(a, seq![]);
    lemma_mentions_follow(a, t, seq![]);
    lemma_one_ref(body, b, before, Map::empty(), Map::empty());
    let with = noted(before, Some(id));
    lemma_mentions_added(b, with);
    lemma_noted(before, Some(id), id);
    lemma_noted(before, Some(id), other);
    assert(refs_mentions(b, with).contains(id) <==> with.contains(id) || refs_mentions(
        b,
        seq![],
    ).contains(id));
    assert(refs_mentions(b, with).contains(other) <==> with.contains(other) || refs_mentions(
        b,
        seq![],
    ).contains(other));
}

proof fn lemma_user_ref(id: Seq<char>, label: Option<Seq<char>>)
    requires
        id.len() > 0,
        lacks(id, '>'),
        lacks(id, '|'),
        label matches Some(l) ==> lacks(l, '>'),
    ensures
        lacks(user_ref(id, label), '>'),
        ref_mention(user_ref(id, label)) == Some(id),
{
    lemma_split_ref(seq!['@'] + id, label);
    assert((seq!['@'] + id).drop_first() =~= id);
}

/// Where a ref has its label.
proof fn lemma_split_ref(target: Seq<char>, label: Option<Seq<char>>)
    requires
        lacks(target, '|'),
        lacks(target, '>'),
        label matches Some(l) ==> lacks(l, '>'),
    ensures
        ({
            let body = match label {
                Some(l) => target + seq!['|'] + l,
                None => target,
            };
            &&& lacks(body, '>')
            &&& ref_target(body) == target
            &&& ref_label(body) == match label {
                Some(l) => l,
                None => seq![],
            }
        }),
{
    match label {
        Some(l) => {
            let body = target + seq!['|'] + l;
            assert forall|i: int| 0 <= i < target.len() implies #[trigger] body[i] != '|' by {
                assert(body[i] == target[i]);
            }
            assert(body[target.len() as int] == '|');
            lemma_index_at(body, '|', target.len() as int);
            assert(body.take(target.len() as int) =~= target);
            assert(body.skip(target.len() as int + 1) =~= l);
            assert forall|i: int| 0 <= i < body.len() implies #[trigger] body[i] != '>' by {
                if i < target.len() {
                    assert(body[i] == target[i]);
                } else if i > target.len() {
                    assert(body[i] == l[i - target.len() - 1]);
                }
            }
        },
        None => {
            lemma_index_of_lacking(target, '|');
            assert(target.take(target.len() as int) =~= target);
        },
    }
}

/// Only refs to users mention anyone: one that does not start with `@`, or that
/// names nobody, leaves the mentions of the text around it as they are.
pub proof fn law_other_refs_mention_nobody(
    a: Seq<char>,
    body: Seq<char>,
    b: Seq<char>,
    other: Seq<char>,
)
    requires
        settled(a),
        lacks(body, '>'),
        body.len() == 0 || body[0] != '@' || body.len() == 1 || body[1] == '|',
        lacks(a + bracketed(body) + b, '`'),
    ensures
        normal_mentions(a + bracketed(body) + b).contains(other) <==> normal_mentions(a).contains(
            other,
        ) || normal_mentions(b).contains(other),
{
    let s = a + bracketed(body) + b;
    let t = bracketed(body) + b;
    assert(s =~= a + t);
    assert forall|i: int| 0 <= i < a.len() implies #[trigger] a[i] != '`' by {
        assert(s[i] == a[i]);
    }
    assert forall|i: int| 0 <= i < b.len() implies #[trigger] b[i] != '`' by {
        assert(s[a.len() + bracketed(body).len() + i] == b[i]);
    }
    lemma_text_only(s, Map::empty(), Map::empty());
    lemma_text_only(a, Map::empty(), Map::empty());
    lemma_text_only(b, Map::empty(), Map::empty());
    lemma_index_of(body, '|');
    assert(ref_mention(body) is None) by {
        let p = index_of(body, '|');
        if p > 0 {
            assert(ref_target(body)[0] == body[0]);
        }
        if body.len() > 1 && body[1] == '|' && p > 1 {
            assert(body[1] != '|');
        }
    }
    let before = refs_mentions(a, seq![]);
    lemma_mentions_follow(a, t, seq![]);
    lemma_one_ref(body, b, before, Map::empty(), Map::empty());
    lemma_mentions_added(b, before);
    assert(refs_mentions(b, before).contains(other) <==> before.contains(other) || refs_mentions(
        b,
        seq![],
    ).contains(other));
}

// ── texts of refs ────────────────────────────────────────────────────────────

/// Whether a text has nothing in it that is rewritten.
pub open spec fn unmarked(s: Seq<char>) -> bool {
    lacks(s, '`') && lacks(s, '<') && lacks(s, '*') && lacks(s, '~') && lacks(s, '&')
}

/// Whether a text that stands for a ref has nothing in it that is rewritten.
pub open spec fn unstyled(s: Seq<char>) -> bool {
    lacks(s, '*') && lacks(s, '~') && lacks(s, '&')
}

proof fn lemma_plain_parts(x: Seq<char>, y: Seq<char>, z: Seq<char>, c: char)
    requires
        lacks(x, c),
        lacks(y, c),
        lacks(z, c),
    ensures
        lacks(x + y + z, c),
{
    let s = x + y + z;
    assert forall|i: int| 0 <= i < s.len() implies #[trigger] s[i] != c by {
        if i < x.len() {
            assert(s[i] == x[i]);
        } else if i < x.len() + y.len() {
            assert(s[i] == y[i - x.len()]);
        } else {
            assert(s[i] == z[i - x.len() - y.len()]);
        }
    }
}

proof fn lemma_ref_shown(
    a: Seq<char>,
    body: Seq<char>,
    b: Seq<char>,
    users: Map<Seq<char>, Seq<char>>,
    channels: Map<Seq<char>, Seq<char>>,
)
    requires
        unmarked(a),
        unmarked(b),
        lacks(body, '>'),
        lacks(body, '`'),
        unstyled(ref_text(body, users, channels)),
    ensures
        normal_text(a + bracketed(body) + b, users, channels) == a + ref_text(body, users, channels)
            + b,
{
    let s = a + bracketed(body) + b;
    let t = bracketed(body) + b;
    let shown = ref_text(body, users, channels);
    assert(s =~= a + t);
    assert(lacks(bracketed(body), '`')) by {
        assert forall|i: int| 0 <= i < bracketed(body).len() implies #[trigger] bracketed(body)[i]
            != '`' by {
            if 0 < i <= body.len() {
                assert(bracketed(body)[i] == body[i - 1]);
            }
        }
    }
    lemma_plain_parts(a, bracketed(body), b, '`');
    lemma_text_only(s, users, channels);
    lemma_texts_follow(a, t, users, channels);
    lemma_one_ref(body, b, seq![], users, channels);
    lemma_index_of_lacking(a, '<');
    lemma_index_of_lacking(b, '<');
    let out = a + shown + b;
    assert(refs_text(s, users, channels) =~= out);
    lemma_plain_parts(a, shown, b, '*');
    lemma_plain_parts(a, shown, b, '~');
    lemma_plain_parts(a, shown, b, '&');
    law_loose_delimiters_are_literal(out, '*');
    law_loose_delimiters_are_literal(out, '~');
    lemma_decoded_lacking(out);
}

/// What a ref holds: what it refers to, and its label where it has one.
pub open spec fn labelled(target: Seq<char>, label: Option<Seq<char>>) -> Seq<char> {
    match label {
        Some(l) => target + seq!['|'] + l,
        None => target,
    }
}

/// Whether what a ref refers to can stand between brackets, ahead of a label.
pub open spec fn referable(target: Seq<char>) -> bool {
    lacks(target, '|') && lacks(target, '>') && lacks(target, '`')
}

/// Whether a label says anything.
pub open spec fn says(label: Option<Seq<char>>) -> bool {
    label matches Some(l) && l.len() > 0
}

/// Whether a label can stand in a ref, in text that is not rewritten.
pub open spec fn label_fits(label: Option<Seq<char>>) -> bool {
    label matches Some(l) ==> lacks(l, '>') && lacks(l, '`') && unstyled(l)
}

proof fn lemma_labelled(target: Seq<char>, label: Option<Seq<char>>)
    requires
        referable(target),
        label_fits(label),
    ensures
        lacks(labelled(target, label), '>'),
        lacks(labelled(target, label), '`'),
        ref_target(labelled(target, label)) == target,
        ref_label(labelled(target, label)) == match label {
            Some(l) => l,
            None => seq![],
        },
{
    lemma_split_ref(target, label);
    if let Some(l) = label {
        assert(lacks(seq!['|'], '`'));
        lemma_plain_parts(target, seq!['|'], l, '`');
    }
}

/// A ref to a user reads `@` and their name: the label where the ref has one, else
/// the name that the id is listed under, else the id. A ref to a channel reads `#`
/// and the channel's name, found in the same way among the channels.
pub proof fn law_user_and_channel_refs_read_as_names(
    a: Seq<char>,
    id: Seq<char>,
    label: Option<Seq<char>>,
    b: Seq<char>,
    users: Map<Seq<char>, Seq<char>>,
    channels: Map<Seq<char>, Seq<char>>,
)
    requires
        unmarked(a),
        unmarked(b),
        referable(id),
        label_fits(label),
    ensures
        says(label) ==> normal_text(
            a + bracketed(labelled(seq!['@'] + id, label)) + b,
            users,
            channels,
        ) == a + (seq!['@'] + label->0) + b,
        says(label) ==> normal_text(
            a + bracketed(labelled(seq!['#'] + id, label)) + b,
            users,
            channels,
        ) == a + (seq!['#'] + label->0) + b,
        !says(label) && users.contains_key(id) && unstyled(users[id]) ==> normal_text(
            a + bracketed(labelled(seq!['@'] + id, label)) + b,
            users,
            channels,
        ) == a + (seq!['@'] + users[id]) + b,
        !says(label) && channels.contains_key(id) && unstyled(channels[id]) ==> normal_text(
            a + bracketed(labelled(seq!['#'] + id, label)) + b,
            users,
            channels,
        ) == a + (seq!['#'] + channels[id]) + b,
        !says(label) && !users.contains_key(id) && unstyled(id) ==> normal_text(
            a + bracketed(labelled(seq!['@'] + id, label)) + b,
            users,
            channels,
        ) == a + (seq!['@'] + id) + b,
        !says(label) && !channels.contains_key(id) && unstyled(id) ==> normal_text(
            a + bracketed(labelled(seq!['#'] + id, label)) + b,
            users,
            channels,
        ) == a + (seq!['#'] + id) + b,
{
    let user = seq!['@'] + id;
    let channel = seq!['#'] + id;
    assert(user.drop_first() =~= id);
    assert(channel.drop_first() =~= id);
    assert forall|i: int| 0 <= i < id.len() implies user[i + 1] == #[trigger] id[i] by {}
    lemma_front_fits('@', id);
    lemma_front_fits('#', id);
    lemma_labelled(user, label);
    lemma_labelled(channel, label);
    if says(label) {
        lemma_front_unstyled('@', label->0);
        lemma_front_unstyled('#', label->0);
        lemma_ref_shown(a, labelled(user, label), b, users, channels);
        lemma_ref_shown(a, labelled(channel, label), b, users, channels);
    } else {
        if users.contains_key(id) && unstyled(users[id]) {
            lemma_front_unstyled('@', users[id]);
            lemma_ref_shown(a, labelled(user, label), b, users, channels);
        }
        if channels.contains_key(id) && unstyled(channels[id]) {
            lemma_front_unstyled('#', channels[id]);
            lemma_ref_shown(a, labelled(channel, label), b, users, channels);
        }
        if !users.contains_key(id) && unstyled(id) {
            lemma_front_unstyled('@', id);
            lemma_ref_shown(a, labelled(user, label), b, users, channels);
        }
        if !channels.contains_key(id) && unstyled(id) {
            lemma_front_unstyled('#', id);
            lemma_ref_shown(a, labelled(channel, label), b, users, channels);
        }
    }
}

proof fn lemma_front_fits(c: char, s: Seq<char>)
    requires
        referable(s),
        c != '|' && c != '>' && c != '`',
    ensures
        referable(seq![c] + s),
{
    lemma_plain_parts(seq![], seq![c], s, '|');
    lemma_plain_parts(seq![], seq![c], s, '>');
    lemma_plain_parts(seq![], seq![c], s, '`');
    assert(Seq::<char>::empty() + seq![c] + s =~= seq![c] + s);
}

proof fn lemma_front_unstyled(c: char, s: Seq<char>)
    requires
        unstyled(s),
        c != '*' && c != '~' && c != '&',
    ensures
        unstyled(seq![c] + s),
{
    lemma_plain_parts(seq![], seq![c], s, '*');
    lemma_plain_parts(seq![], seq![c], s, '~');
    lemma_plain_parts(seq![], seq![c], s, '&');
    assert(Seq::<char>::empty() + seq![c] + s =~= seq![c] + s);
}

/// A ref to a keyword reads as its label where it has one, else as `@` and the
/// keyword, which ends ahead of a `^`.
pub proof fn law_keyword_refs_read_as_keywords(
    a: Seq<char>,
    word: Seq<char>,
    more: Seq<char>,
    label: Option<Seq<char>>,
    b: Seq<char>,
    users: Map<Seq<char>, Seq<char>>,
    channels: Map<Seq<char>, Seq<char>>,
)
    requires
        unmarked(a),
        unmarked(b),
        referable(word),
        lacks(word, '^'),
        more.len() > 0 ==> more[0] == '^',
        referable(more),
        label_fits(label),
    ensures
        says(label) ==> normal_text(
            a + bracketed(labelled(seq!['!'] + word + more, label)) + b,
            users,
            channels,
        ) == a + label->0 + b,
        !says(label) && unstyled(word) ==> normal_text(
            a + bracketed(labelled(seq!['!'] + word + more, label)) + b,
            users,
            channels,
        ) == a + (seq!['@'] + word) + b,
{
    let target = seq!['!'] + word + more;
    lemma_plain_parts(seq!['!'], word, more, '|');
    lemma_plain_parts(seq!['!'], word, more, '>');
    lemma_plain_parts(seq!['!'], word, more, '`');
    lemma_labelled(target, label);
    assert(target.drop_first() =~= word + more);
    let tail = word + more;
    if more.len() > 0 {
        assert forall|i: int| 0 <= i < word.len() implies #[trigger] tail[i] != '^' by {
            assert(tail[i] == word[i]);
        }
        assert(tail[word.len() as int] == '^');
        lemma_index_at(tail, '^', word.len() as int);
    } else {
        assert(tail =~= word);
        lemma_index_of_lacking(tail, '^');
    }
    assert(tail.take(word.len() as int) =~= word);
    if says(label) {
        lemma_ref_shown(a, labelled(target, label), b, users, channels);
    } else if unstyled(word) {
        lemma_front_unstyled('@', word);
        lemma_ref_shown(a, labelled(target, label), b, users, channels);
    }
}

/// Whether a link is none of the other refs.
pub open spec fn is_link(target: Seq<char>) -> bool {
    target.len() > 0 && target[0] != '@' && target[0] != '#' && target[0] != '!'
}

/// A link reads as its address where it has no label, or one that says the same;
/// else as a link with that label. Mail addresses and phone numbers stand without
/// the scheme.
pub proof fn law_links_read_as_addresses(
    a: Seq<char>,
    scheme: Seq<char>,
    address: Seq<char>,
    label: Option<Seq<char>>,
    b: Seq<char>,
    users: Map<Seq<char>, Seq<char>>,
    channels: Map<Seq<char>, Seq<char>>,
)
    requires
        unmarked(a),
        unmarked(b),
        scheme == "mailto:"@ || scheme == "tel:"@ || (scheme.len() == 0 && is_link(address)
            && !"mailto:"@.is_prefix_of(address) && !"tel:"@.is_prefix_of(address)),
        referable(scheme + address),
        unstyled(address),
        label_fits(label),
    ensures
        !says(label) || label->0 == address ==> normal_text(
            a + bracketed(labelled(scheme + address, label)) + b,
            users,
            channels,
        ) == a + address + b,
        says(label) && label->0 != address ==> normal_text(
            a + bracketed(labelled(scheme + address, label)) + b,
            users,
            channels,
        ) == a + (seq!['['] + label->0 + seq![']', '('] + address + seq![')']) + b,
{
    let target = scheme + address;
    reveal_strlit("mailto:");
    reveal_strlit("tel:");
    lemma_labelled(target, label);
    if scheme.len() > 0 {
        assert(target[0] == scheme[0]);
        assert(target.subrange(0, scheme.len() as int) =~= scheme);
        assert(target.skip(scheme.len() as int) =~= address);
        if scheme == "tel:"@ && target.len() >= 7 {
            assert(target.subrange(0, 7)[0] == 't');
            assert("mailto:"@[0] == 'm');
        }
    } else {
        assert(target =~= address);
        if stands_at(target, "mailto:"@, 0) {
            assert("mailto:"@ =~= address.subrange(0, 7));
            assert("mailto:"@.is_prefix_of(address));
        }
        if stands_at(target, "tel:"@, 0) {
            assert("tel:"@ =~= address.subrange(0, 4));
            assert("tel:"@.is_prefix_of(address));
        }
    }
    assert(link_address(target) == address);
    if !says(label) || label->0 == address {
        lemma_ref_shown(a, labelled(target, label), b, users, channels);
    } else {
        let l = label->0;
        let shown = seq!['['] + l + seq![']', '('] + address + seq![')'];
        let front = seq!['['] + l + seq![']', '('];
        lemma_plain_parts(seq!['['], l, seq![']', '('], '*');
        lemma_plain_parts(seq!['['], l, seq![']', '('], '~');
        lemma_plain_parts(seq!['['], l, seq![']', '('], '&');
        lemma_plain_parts(front, address, seq![')'], '*');
        lemma_plain_parts(front, address, seq![')'], '~');
        lemma_plain_parts(front, address, seq![')'], '&');
        lemma_ref_shown(a, labelled(target, label), b, users, channels);
    }
}

/// A bracket that is never closed is no ref: a text that opens one and closes none
/// after it stays as it is, and mentions nobody.
pub proof fn law_open_brackets_are_text(
    a: Seq<char>,
    b: Seq<char>,
    users: Map<Seq<char>, Seq<char>>,
    channels: Map<Seq<char>, Seq<char>>,
)
    requires
        unmarked(a),
        unmarked(b),
        lacks(b, '>'),
    ensures
        normal_text(a + seq!['<'] + b, users, channels) == a + seq!['<'] + b,
        normal_mentions(a + seq!['<'] + b) == Seq::<Seq<char>>::empty(),
{
    let s = a + seq!['<'] + b;
    lemma_plain_parts(a, seq!['<'], b, '`');
    lemma_plain_parts(a, seq!['<'], b, '*');
    lemma_plain_parts(a, seq!['<'], b, '~');
    lemma_plain_parts(a, seq!['<'], b, '&');
    assert forall|i: int| 0 <= i < a.len() implies #[trigger] s[i] != '<' by {
        assert(s[i] == a[i]);
    }
    assert(s[a.len() as int] == '<');
    lemma_index_at(s, '<', a.len() as int);
    assert(s.skip(a.len() as int + 1) =~= b);
    lemma_index_of_lacking(b, '>');
    lemma_text_only(s, users, channels);
    law_loose_delimiters_are_literal(s, '*');
    law_loose_delimiters_are_literal(s, '~');
    lemma_decoded_lacking(s);
}

// ── emphasis and entities ────────────────────────────────────────────────────

proof fn lemma_plain_from(s: Seq<char>, delim: char, i: int, to: int)
    requires
        0 <= i <= to <= s.len(),
        forall|k: int| i <= k < to ==> #[trigger] s[k] != delim,
    ensures
        emphasised(s, delim, i) == s.subrange(i, to) + emphasised(s, delim, to),
    decreases to - i,
{
    if i < to {
        assert(s[i] != delim);
        lemma_plain_from(s, delim, i + 1, to);
        assert(s.subrange(i, to) =~= seq![s[i]] + s.subrange(i + 1, to));
        assert(emphasised(s, delim, i) =~= s.subrange(i, to) + emphasised(s, delim, to));
    } else {
        assert(s.subrange(i, to) =~= seq![]);
        assert(emphasised(s, delim, i) =~= s.subrange(i, to) + emphasised(s, delim, to));
    }
}

proof fn lemma_span_doubled(a: Seq<char>, w: Seq<char>, b: Seq<char>, delim: char)
    requires
        lacks(a, delim),
        lacks(b, delim),
        lacks(w, delim),
        lacks(w, '\n'),
        w.len() > 0,
        !white(w[0]),
        !white(w.last()),
        delim != '\n',
    ensures
        emphasised(a + (seq![delim] + w + seq![delim]) + b, delim, 0) == a + (seq![delim, delim] + w
            + seq![delim, delim]) + b,
{
    let s = a + (seq![delim] + w + seq![delim]) + b;
    let at = a.len() as int;
    let end = at + 1 + w.len();
    assert forall|k: int| 0 <= k < at implies #[trigger] s[k] != delim by {
        assert(s[k] == a[k]);
    }
    assert forall|k: int| at + 1 <= k < end implies s[k] != delim && #[trigger] s[k] != '\n' by {
        assert(s[k] == w[k - at - 1]);
    }
    assert forall|k: int| end + 1 <= k < s.len() implies #[trigger] s[k] != delim by {
        assert(s[k] == b[k - end - 1]);
    }
    assert(s[at] == delim && s[end] == delim);
    assert(s[at + 1] == w[0]);
    assert(s[end - 1] == w.last());
    lemma_plain_from(s, delim, 0, at);
    lemma_closes_at(s, delim, at + 1, end);
    lemma_plain_from(s, delim, end + 1, s.len() as int);
    assert(s.subrange(at + 1, end) =~= w);
    assert(s.subrange(0, at) =~= a);
    assert(s.subrange(end + 1, s.len() as int) =~= b);
    assert(emphasised(s, delim, s.len() as int) =~= seq![]);
    assert(emphasised(s, delim, 0) =~= a + (seq![delim, delim] + w + seq![delim, delim]) + b);
}

/// Bold and struck-out text keep their emphasis, in the doubled form: a `*` or `~`
/// on either side of a span that it hugs, on one line, becomes two. What stands
/// around the span is left as it is.
pub proof fn law_bold_and_strike_are_doubled(
    a: Seq<char>,
    w: Seq<char>,
    b: Seq<char>,
    delim: char,
    users: Map<Seq<char>, Seq<char>>,
    channels: Map<Seq<char>, Seq<char>>,
)
    requires
        unmarked(a),
        unmarked(w),
        unmarked(b),
        delim == '*' || delim == '~',
        w.len() > 0,
        lacks(w, '\n'),
        !white(w[0]),
        !white(w.last()),
    ensures
        normal_text(a + (seq![delim] + w + seq![delim]) + b, users, channels) == a + (seq![
            delim,
            delim,
        ] + w + seq![delim, delim]) + b,
{
    let one = seq![delim] + w + seq![delim];
    let two = seq![delim, delim] + w + seq![delim, delim];
    let s = a + one + b;
    let out = a + two + b;
    lemma_plain_parts(seq![delim], w, seq![delim], '`');
    lemma_plain_parts(a, one, b, '`');
    lemma_plain_parts(seq![delim], w, seq![delim], '<');
    lemma_plain_parts(a, one, b, '<');
    lemma_index_of_lacking(s, '<');
    lemma_text_only(s, users, channels);
    assert(refs_text(s, users, channels) == s);
    lemma_span_doubled(a, w, b, delim);
    lemma_plain_parts(seq![delim, delim], w, seq![delim, delim], '&');
    lemma_plain_parts(a, two, b, '&');
    lemma_decoded_lacking(out);
    if delim == '*' {
        lemma_plain_parts(seq![delim, delim], w, seq![delim, delim], '~');
        lemma_plain_parts(a, two, b, '~');
        law_loose_delimiters_are_literal(out, '~');
    } else {
        lemma_plain_parts(seq![delim], w, seq![delim], '*');
        lemma_plain_parts(a, one, b, '*');
        law_loose_delimiters_are_literal(s, '*');
    }
}

/// A `*` or `~` that hugs nothing is text: one ahead of a blank or at the end opens
/// no span, and one that opens has to find its fellow, behind something other than
/// a blank, on the same line.
pub proof fn law_lone_delimiters_are_text(
    a: Seq<char>,
    w: Seq<char>,
    b: Seq<char>,
    delim: char,
    users: Map<Seq<char>, Seq<char>>,
    channels: Map<Seq<char>, Seq<char>>,
)
    requires
        unmarked(a),
        unmarked(w),
        unmarked(b),
        delim == '*' || delim == '~',
        w.len() > 0,
        b.len() > 0 ==> white(b[0]),
        white(w[0]) || white(w.last()) || !lacks(w, '\n'),
    ensures
        normal_text(a + (seq![delim] + w + seq![delim]) + b, users, channels) == a + (seq![delim]
            + w + seq![delim]) + b,
        normal_text(a + seq![delim] + w, users, channels) == a + seq![delim] + w,
{
    let one = seq![delim] + w + seq![delim];
    lemma_lone_pair(a, w, b, delim);
    lemma_lone_one(a, w, delim);
    lemma_plain_parts(seq![delim], w, seq![delim], '`');
    lemma_plain_parts(seq![delim], w, seq![delim], '<');
    lemma_plain_parts(seq![delim], w, seq![delim], '&');
    if delim == '*' {
        lemma_plain_parts(seq![delim], w, seq![delim], '~');
    } else {
        lemma_plain_parts(seq![delim], w, seq![delim], '*');
    }
    lemma_literal(a, one, b, delim, users, channels);
    lemma_literal(a, seq![delim], w, delim, users, channels);
}

proof fn lemma_literal(
    a: Seq<char>,
    m: Seq<char>,
    b: Seq<char>,
    delim: char,
    users: Map<Seq<char>, Seq<char>>,
    channels: Map<Seq<char>, Seq<char>>,
)
    requires
        unmarked(a),
        unmarked(b),
        delim == '*' || delim == '~',
        lacks(m, '`'),
        lacks(m, '<'),
        lacks(m, '&'),
        delim == '*' ==> lacks(m, '~'),
        delim == '~' ==> lacks(m, '*'),
        emphasised(a + m + b, delim, 0) == a + m + b,
    ensures
        normal_text(a + m + b, users, channels) == a + m + b,
{
    let s = a + m + b;
    lemma_plain_parts(a, m, b, '`');
    lemma_plain_parts(a, m, b, '<');
    lemma_plain_parts(a, m, b, '&');
    lemma_index_of_lacking(s, '<');
    lemma_text_only(s, users, channels);
    lemma_decoded_lacking(s);
    if delim == '*' {
        lemma_plain_parts(a, m, b, '~');
        law_loose_delimiters_are_literal(s, '~');
    } else {
        lemma_plain_parts(a, m, b, '*');
        law_loose_delimiters_are_literal(s, '*');
    }
}

proof fn lemma_lone_pair(a: Seq<char>, w: Seq<char>, b: Seq<char>, delim: char)
    requires
        lacks(a, delim),
        lacks(w, delim),
        lacks(b, delim),
        delim != '\n',
        w.len() > 0,
        b.len() > 0 ==> white(b[0]),
        white(w[0]) || white(w.last()) || !lacks(w, '\n'),
    ensures
        emphasised(a + (seq![delim] + w + seq![delim]) + b, delim, 0) == a + (seq![delim] + w
            + seq![delim]) + b,
{
    let s = a + (seq![delim] + w + seq![delim]) + b;
    let at = a.len() as int;
    let end = at + 1 + w.len();
    assert forall|k: int| 0 <= k < at implies #[trigger] s[k] != delim by {
        assert(s[k] == a[k]);
    }
    assert forall|k: int| at + 1 <= k < end implies #[trigger] s[k] != delim by {
        assert(s[k] == w[k - at - 1]);
    }
    assert forall|k: int| end + 1 <= k < s.len() implies #[trigger] s[k] != delim by {
        assert(s[k] == b[k - end - 1]);
    }
    assert(s[at] == delim && s[end] == delim);
    assert(s[at + 1] == w[0]);
    lemma_plain_from(s, delim, 0, at);
    assert(span_end(s, delim, at) is None) by {
        if !white(w[0]) {
            if !lacks(w, '\n') {
                let k = choose|k: int| 0 <= k < w.len() && #[trigger] w[k] == '\n';
                assert(s[at + 1 + k] == '\n');
                lemma_closes_not_past(s, delim, at + 1, at + 1 + k);
            } else {
                assert(s[end - 1] == w.last());
                lemma_closes_blank(s, delim, at + 1, end);
            }
        }
    }
    lemma_plain_from(s, delim, at + 1, end);
    assert(span_end(s, delim, end) is None) by {
        if end + 1 < s.len() {
            assert(s[end + 1] == b[0]);
        }
    }
    lemma_plain_from(s, delim, end + 1, s.len() as int);
    assert(emphasised(s, delim, s.len() as int) =~= seq![]);
    assert(emphasised(s, delim, end) =~= s.subrange(end, s.len() as int));
    assert(emphasised(s, delim, at) =~= s.subrange(at, s.len() as int));
    assert(emphasised(s, delim, 0) =~= s);
}

proof fn lemma_lone_one(a: Seq<char>, w: Seq<char>, delim: char)
    requires
        lacks(a, delim),
        lacks(w, delim),
    ensures
        emphasised(a + seq![delim] + w, delim, 0) == a + seq![delim] + w,
{
    let t = a + seq![delim] + w;
    let at = a.len() as int;
    assert forall|k: int| 0 <= k < at implies #[trigger] t[k] != delim by {
        assert(t[k] == a[k]);
    }
    assert forall|k: int| at + 1 <= k < t.len() implies #[trigger] t[k] != delim by {
        assert(t[k] == w[k - at - 1]);
    }
    lemma_plain_from(t, delim, 0, at);
    lemma_closes_nowhere(t, delim, at + 1);
    assert(span_end(t, delim, at) is None);
    lemma_plain_from(t, delim, at + 1, t.len() as int);
    assert(emphasised(t, delim, t.len() as int) =~= seq![]);
    assert(emphasised(t, delim, at) =~= t.subrange(at, t.len() as int));
    assert(emphasised(t, delim, 0) =~= t);
}

proof fn lemma_closes_nowhere(s: Seq<char>, delim: char, j: int)
    requires
        0 <= j,
        forall|k: int| j <= k < s.len() ==> #[trigger] s[k] != delim,
    ensures
        closes(s, delim, j) is None,
    decreases s.len() - j,
{
    if j < s.len() {
        assert(s[j] != delim);
        lemma_closes_nowhere(s, delim, j + 1);
    }
}

proof fn lemma_closes_not_past(s: Seq<char>, delim: char, j: int, line: int)
    requires
        0 <= j <= line < s.len(),
        s[line] == '\n',
        forall|k: int| j <= k < line ==> #[trigger] s[k] != delim,
    ensures
        closes(s, delim, j) is None,
    decreases line - j,
{
    if j < line {
        assert(s[j] != delim);
        lemma_closes_not_past(s, delim, j + 1, line);
    }
}

proof fn lemma_closes_blank(s: Seq<char>, delim: char, j: int, end: int)
    requires
        1 <= j <= end < s.len(),
        forall|k: int| j <= k < s.len() && k != end ==> #[trigger] s[k] != delim,
        white(s[end - 1]),
    ensures
        closes(s, delim, j) is None,
    decreases end - j,
{
    if j < end {
        assert(s[j] != delim);
        lemma_closes_blank(s, delim, j + 1, end);
    } else {
        lemma_closes_nowhere(s, delim, j + 1);
    }
}

/// Whether a delimiter in a text never hugs what stands ahead of it: a blank or
/// another delimiter does.
pub open spec fn hugs_nothing(w: Seq<char>, delim: char) -> bool {
    forall|k: int|
        0 < k < w.len() && #[trigger] w[k] == delim ==> white(w[k - 1]) || w[k - 1] == delim
}

proof fn lemma_closes_past(s: Seq<char>, delim: char, j: int, end: int)
    requires
        1 <= j <= end < s.len(),
        forall|k: int|
            j <= k < end ==> #[trigger] s[k] != '\n' && (s[k] == delim ==> white(s[k - 1]) || s[k
                - 1] == delim),
        s[end] == delim,
        delim != '\n',
        s[end - 1] != delim,
        !white(s[end - 1]),
    ensures
        closes(s, delim, j) == Some(end),
    decreases end - j,
{
    if j < end {
        assert(s[j] != '\n');
        lemma_closes_past(s, delim, j + 1, end);
    }
}

/// A span ends at the first delimiter that hugs it: one behind a blank, or behind
/// another, is part of it, and stays single.
pub proof fn law_spans_end_where_they_are_hugged(
    a: Seq<char>,
    w: Seq<char>,
    b: Seq<char>,
    delim: char,
)
    requires
        lacks(a, delim),
        lacks(b, delim),
        lacks(w, '\n'),
        w.len() > 0,
        w[0] != delim && !white(w[0]),
        w.last() != delim && !white(w.last()),
        hugs_nothing(w, delim),
        delim != '\n',
    ensures
        emphasised(a + (seq![delim] + w + seq![delim]) + b, delim, 0) == a + (seq![delim, delim] + w
            + seq![delim, delim]) + b,
{
    let s = a + (seq![delim] + w + seq![delim]) + b;
    let at = a.len() as int;
    let end = at + 1 + w.len();
    assert forall|k: int| 0 <= k < at implies #[trigger] s[k] != delim by {
        assert(s[k] == a[k]);
    }
    assert forall|k: int| at + 1 <= k < end implies #[trigger] s[k] != '\n' && (s[k] == delim
        ==> white(s[k - 1]) || s[k - 1] == delim) by {
        assert(s[k] == w[k - at - 1]);
        if k > at + 1 {
            assert(s[k - 1] == w[k - at - 2]);
        }
    }
    assert forall|k: int| end + 1 <= k < s.len() implies #[trigger] s[k] != delim by {
        assert(s[k] == b[k - end - 1]);
    }
    assert(s[at] == delim && s[end] == delim);
    assert(s[at + 1] == w[0]);
    assert(s[end - 1] == w.last());
    lemma_plain_from(s, delim, 0, at);
    lemma_closes_past(s, delim, at + 1, end);
    lemma_plain_from(s, delim, end + 1, s.len() as int);
    assert(s.subrange(at + 1, end) =~= w);
    assert(s.subrange(0, at) =~= a);
    assert(s.subrange(end + 1, s.len() as int) =~= b);
    assert(emphasised(s, delim, s.len() as int) =~= seq![]);
    assert(emphasised(s, delim, 0) =~= a + (seq![delim, delim] + w + seq![delim, delim]) + b);
}

/// Struck-out text in bold keeps both: each delimiter doubles on its own.
pub proof fn law_bold_may_hold_strike(
    a: Seq<char>,
    w: Seq<char>,
    b: Seq<char>,
    users: Map<Seq<char>, Seq<char>>,
    channels: Map<Seq<char>, Seq<char>>,
)
    requires
        unmarked(a),
        unmarked(w),
        unmarked(b),
        w.len() > 0,
        lacks(w, '\n'),
        !white(w[0]),
        !white(w.last()),
    ensures
        normal_text(a + (seq!['*', '~'] + w + seq!['~', '*']) + b, users, channels) == a + (seq![
            '*',
            '*',
            '~',
            '~',
        ] + w + seq!['~', '~', '*', '*']) + b,
{
    let inner = seq!['~'] + w + seq!['~'];
    let s = a + (seq!['*', '~'] + w + seq!['~', '*']) + b;
    let (front, back) = (a + seq!['*', '*'], seq!['*', '*'] + b);
    let out = front + (seq!['~', '~'] + w + seq!['~', '~']) + back;
    assert(s =~= a + (seq!['*'] + inner + seq!['*']) + b);
    lemma_plain_parts(seq!['*', '~'], w, seq!['~', '*'], '`');
    lemma_plain_parts(a, seq!['*', '~'] + w + seq!['~', '*'], b, '`');
    lemma_plain_parts(seq!['*', '~'], w, seq!['~', '*'], '<');
    lemma_plain_parts(a, seq!['*', '~'] + w + seq!['~', '*'], b, '<');
    lemma_index_of_lacking(s, '<');
    lemma_text_only(s, users, channels);
    lemma_plain_parts(seq!['~'], w, seq!['~'], '*');
    lemma_plain_parts(seq!['~'], w, seq!['~'], '\n');
    lemma_span_doubled(a, inner, b, '*');
    let bold = a + (seq!['*', '*'] + inner + seq!['*', '*']) + b;
    assert(bold =~= front + (seq!['~'] + w + seq!['~']) + back);
    lemma_plain_parts(seq![], a, seq!['*', '*'], '~');
    assert(Seq::<char>::empty() + a + seq!['*', '*'] =~= front);
    lemma_plain_parts(seq![], seq!['*', '*'], b, '~');
    assert(Seq::<char>::empty() + seq!['*', '*'] + b =~= back);
    lemma_span_doubled(front, w, back, '~');
    lemma_plain_parts(seq![], a, seq!['*', '*'], '&');
    lemma_plain_parts(seq![], seq!['*', '*'], b, '&');
    lemma_plain_parts(seq!['~', '~'], w, seq!['~', '~'], '&');
    lemma_plain_parts(front, seq!['~', '~'] + w + seq!['~', '~'], back, '&');
    lemma_decoded_lacking(out);
    assert(out =~= a + (seq!['*', '*', '~', '~'] + w + seq!['~', '~', '*', '*']) + b);
}

/// Whether one of the three entities stands at a place of a text.
pub open spec fn entity_at(s: Seq<char>, i: int) -> bool {
    ||| i + 5 <= s.len() && s.subrange(i, i + 5) == "&amp;"@
    ||| i + 4 <= s.len() && s.subrange(i, i + 4) == "&lt;"@
    ||| i + 4 <= s.len() && s.subrange(i, i + 4) == "&gt;"@
}

/// Nothing but the three entities is decoded: a text in which none stands is as it
/// was, other ampersands included.
pub proof fn law_other_ampersands_are_text(s: Seq<char>)
    requires
        forall|i: int| 0 <= i < s.len() ==> !#[trigger] entity_at(s, i),
    ensures
        decoded(s) == s,
    decreases s.len(),
{
    if s.len() > 0 {
        let rest = s.drop_first();
        reveal_strlit("&amp;");
        reveal_strlit("&lt;");
        reveal_strlit("&gt;");
        assert("&amp;"@ =~= seq!['&', 'a', 'm', 'p', ';']);
        assert("&lt;"@ =~= seq!['&', 'l', 't', ';']);
        assert("&gt;"@ =~= seq!['&', 'g', 't', ';']);
        assert(!entity_at(s, 0));
        assert forall|i: int| 0 <= i < rest.len() implies !#[trigger] entity_at(rest, i) by {
            assert(!entity_at(s, i + 1));
            if i + 5 <= rest.len() {
                assert(rest.subrange(i, i + 5) =~= s.subrange(i + 1, i + 6));
            }
            if i + 4 <= rest.len() {
                assert(rest.subrange(i, i + 4) =~= s.subrange(i + 1, i + 5));
            }
        }
        law_other_ampersands_are_text(rest);
        assert(decoded(s) =~= seq![s[0]] + rest);
        assert(seq![s[0]] + rest =~= s);
    } else {
        assert(decoded(s) =~= s);
    }
}

/// A block of code ends at the first three backticks behind it; fewer of them are
/// part of it.
pub proof fn law_blocks_may_hold_backticks(lead: Seq<char>, body: Seq<char>, rest: Seq<char>)
    requires
        lacks(lead, '`'),
        body.len() > 0 ==> body.last() != '`',
        forall|i: int|
            0 <= i && i + 3 <= body.len() ==> #[trigger] body.subrange(i, i + 3) != fence(3),
    ensures
        runs(lead + (fence(3) + body + fence(3)) + rest, 0) == text_run(lead) + seq![
            Run::Code(fence(3) + body + fence(3)),
        ] + runs(rest, 0),
{
    let code = fence(3) + body + fence(3);
    let s = lead + code + rest;
    let triple = seq!['`', '`', '`'];
    let at = lead.len() as int;
    let close = at + 3 + body.len();
    let end = at + code.len();
    assert(fence(3) =~= triple);
    assert forall|k: int| 0 <= k < at implies s[k] != '`' by {
        assert(s[k] == lead[k]);
    }
    lemma_skip_to_code(s, 0, at);
    assert(s[at] == '`');
    assert(s.subrange(at, at + 3) =~= triple);
    assert(s.subrange(close, close + 3) =~= triple);
    assert forall|k: int| at + 3 <= k < close implies !stands_at(s, triple, k) by {
        let i = k - at - 3;
        if i + 3 <= body.len() {
            assert(s.subrange(k, k + 3) =~= body.subrange(i, i + 3));
        } else {
            let j = body.len() - 1 - i;
            assert(s[k + j] == body.last());
            assert(s.subrange(k, k + 3)[j] == body.last());
        }
    }
    lemma_next_block(s, triple, at + 3, close);
    assert(next_code(s, 0) == Some((at, end)));
    assert(s.subrange(0, at) =~= lead);
    assert(s.subrange(at, end) =~= code);
    lemma_runs_shift(lead + code, rest, 0);
}

proof fn lemma_next_block(s: Seq<char>, delim: Seq<char>, i: int, close: int)
    requires
        0 <= i <= close,
        stands_at(s, delim, close),
        forall|k: int| i <= k < close ==> !stands_at(s, delim, k),
    ensures
        next_at(s, delim, i) == Some(close),
    decreases close - i,
{
    if i < close {
        lemma_next_block(s, delim, i + 1, close);
    }
}

} // verus!
