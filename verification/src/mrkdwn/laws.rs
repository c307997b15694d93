//! What holds of normalisation as a whole.

use vstd::prelude::*;

use crate::mrkdwn::{
    closes, decoded, emphasised, fence_at, first_ref, lemma_closes, lemma_next_code, next_at,
    next_code, normal_mentions, normal_text, noted, opens, ref_mention, refs_mentions, runs,
    runs_mentions, runs_text, span_end, text_run, Run,
};
use crate::text::{index_of, lemma_index_of, stands_at, white};

verus! {

/// The characters of a run, as they stood in the message.
pub open spec fn raw(run: Run) -> Seq<char> {
    match run {
        Run::Code(v) => v,
        Run::Text(v) => v,
    }
}

/// The characters of a sequence of runs.
pub open spec fn joined(rs: Seq<Run>) -> Seq<char>
    decreases rs.len(),
{
    if rs.len() == 0 {
        seq![]
    } else {
        joined(rs.drop_last()) + raw(rs.last())
    }
}

proof fn lemma_joined_add(a: Seq<Run>, b: Seq<Run>)
    ensures
        joined(a + b) == joined(a) + joined(b),
    decreases b.len(),
{
    if b.len() == 0 {
        assert(a + b =~= a);
        assert(joined(a) + joined(b) =~= joined(a));
    } else {
        lemma_joined_add(a, b.drop_last());
        assert((a + b).drop_last() =~= a + b.drop_last());
        assert(joined(a + b) =~= joined(a) + joined(b));
    }
}

proof fn lemma_joined_one(run: Run)
    ensures
        joined(seq![run]) == raw(run),
{
    reveal_with_fuel(joined, 2);
    assert(joined(seq![run]) =~= raw(run));
}

proof fn lemma_runs_lossless(s: Seq<char>, from: int)
    requires
        0 <= from <= s.len(),
    ensures
        joined(runs(s, from)) == s.skip(from),
    decreases s.len() - from,
{
    lemma_next_code(s, from);
    match next_code(s, from) {
        Some((open, end)) => {
            let lead = s.subrange(from, open);
            let code = Run::Code(s.subrange(open, end));
            lemma_runs_lossless(s, end);
            lemma_joined_add(text_run(lead) + seq![code], runs(s, end));
            lemma_joined_add(text_run(lead), seq![code]);
            lemma_joined_one(code);
            lemma_joined_one(Run::Text(lead));
            assert(joined(text_run(lead)) =~= lead);
            assert(lead + s.subrange(open, end) + s.skip(end) =~= s.skip(from));
        },
        None => {
            lemma_joined_one(Run::Text(s.skip(from)));
            assert(joined(text_run(s.skip(from))) =~= s.skip(from));
        },
    }
}

/// Splitting a message into code and text loses nothing: the runs, put back
/// together, are the message.
pub proof fn law_segmentation_is_lossless(s: Seq<char>)
    ensures
        joined(runs(s, 0)) == s,
{
    lemma_runs_lossless(s, 0);
    assert(s.skip(0) =~= s);
}

/// `c` as Slack writes it on the wire.
pub open spec fn escape_char(c: char) -> Seq<char> {
    if c == '&' {
        seq!['&', 'a', 'm', 'p', ';']
    } else if c == '<' {
        seq!['&', 'l', 't', ';']
    } else if c == '>' {
        seq!['&', 'g', 't', ';']
    } else {
        seq![c]
    }
}

/// `t` as Slack writes it on the wire.
pub open spec fn escaped(t: Seq<char>) -> Seq<char>
    decreases t.len(),
{
    if t.len() == 0 {
        seq![]
    } else {
        escape_char(t[0]) + escaped(t.drop_first())
    }
}

/// Decoding undoes Slack's escaping, exactly once: whatever a person typed,
/// entities of their own included, comes back as they typed it.
pub proof fn law_decoding_undoes_escaping(t: Seq<char>)
    ensures
        decoded(escaped(t)) == t,
    decreases t.len(),
{
    if t.len() > 0 {
        let rest = t.drop_first();
        law_decoding_undoes_escaping(rest);
        let e = escape_char(t[0]);
        let s = escaped(t);
        let amp = seq!['&', 'a', 'm', 'p', ';'];
        let lt = seq!['&', 'l', 't', ';'];
        let gt = seq!['&', 'g', 't', ';'];
        assert(s.skip(e.len() as int) =~= escaped(rest));
        assert(s.subrange(0, e.len() as int) =~= e);
        if t[0] == '&' {
            assert(stands_at(s, amp, 0));
        } else if t[0] == '<' {
            assert(stands_at(s, lt, 0));
            assert(s[1] == 'l');
            if s.len() >= 5 {
                assert(s.subrange(0, 5)[1] == 'l');
            }
            assert(!stands_at(s, amp, 0));
        } else if t[0] == '>' {
            assert(stands_at(s, gt, 0));
            assert(s[1] == 'g');
            if s.len() >= 5 {
                assert(s.subrange(0, 5)[1] == 'g');
            }
            assert(s.subrange(0, 4)[1] == 'g');
            assert(!stands_at(s, amp, 0));
            assert(!stands_at(s, lt, 0));
        } else {
            assert(s[0] != '&');
            if s.len() >= 5 {
                assert(s.subrange(0, 5)[0] != '&');
            }
            if s.len() >= 4 {
                assert(s.subrange(0, 4)[0] != '&');
            }
            assert(s.drop_first() =~= escaped(rest));
        }
        assert(decoded(s) =~= seq![t[0]] + rest);
        assert(seq![t[0]] + rest =~= t);
    } else {
        assert(decoded(escaped(t)) =~= t);
    }
}

/// Whether `c` stands nowhere in `s`.
pub open spec fn lacks(s: Seq<char>, c: char) -> bool {
    forall|i: int| 0 <= i < s.len() ==> #[trigger] s[i] != c
}

pub(crate) proof fn lemma_index_of_lacking(s: Seq<char>, c: char)
    requires
        lacks(s, c),
    ensures
        index_of(s, c) == s.len(),
{
    lemma_index_of(s, c);
}

pub(crate) proof fn lemma_no_code(s: Seq<char>, i: int)
    requires
        lacks(s, '`'),
        0 <= i,
    ensures
        next_code(s, i) is None,
    decreases s.len() - i,
{
    if i < s.len() {
        lemma_no_code(s, i + 1);
    }
}

/// Text in which no delimiter may open a span keeps its shape: arithmetic such
/// as `2 * 3` is not emphasis.
pub proof fn law_loose_delimiters_are_literal(s: Seq<char>, delim: char)
    requires
        forall|i: int| 0 <= i < s.len() && s[i] == delim ==> !opens(s, delim, i),
    ensures
        emphasised(s, delim, 0) == s,
{
    lemma_loose_from(s, delim, 0);
    assert(s.skip(0) =~= s);
}

proof fn lemma_loose_from(s: Seq<char>, delim: char, i: int)
    requires
        forall|k: int| 0 <= k < s.len() && s[k] == delim ==> !opens(s, delim, k),
        0 <= i <= s.len(),
    ensures
        emphasised(s, delim, i) == s.skip(i),
    decreases s.len() - i,
{
    if i < s.len() {
        lemma_loose_from(s, delim, i + 1);
        assert(s.skip(i) =~= seq![s[i]] + s.skip(i + 1));
    } else {
        assert(s.skip(i) =~= seq![]);
    }
}

/// A delimiter that hugs a span on one line doubles on both sides of it.
pub proof fn law_hugged_span_is_doubled(w: Seq<char>, delim: char)
    requires
        w.len() > 0,
        lacks(w, delim),
        lacks(w, '\n'),
        !white(w[0]),
        !white(w.last()),
        delim != '\n',
    ensures
        emphasised(seq![delim] + w + seq![delim], delim, 0) == seq![delim, delim] + w + seq![
            delim,
            delim,
        ],
{
    let s = seq![delim] + w + seq![delim];
    let end: int = w.len() + 1int;
    assert forall|j: int| 1 <= j < end implies s[j] != delim && s[j] != '\n' by {
        assert(s[j] == w[j - 1]);
    }
    assert(s[end] == delim);
    assert(s[end - 1] == w.last());
    lemma_closes_at(s, delim, 1, end);
    assert(span_end(s, delim, 0) == Some(end));
    assert(s.subrange(1, end) =~= w);
    assert(emphasised(s, delim, end + 1) =~= seq![]);
    assert(emphasised(s, delim, 0) =~= seq![delim, delim] + w + seq![delim, delim]);
}

pub(crate) proof fn lemma_closes_at(s: Seq<char>, delim: char, j: int, end: int)
    requires
        1 <= j <= end < s.len(),
        forall|k: int| j <= k < end ==> s[k] != delim && #[trigger] s[k] != '\n',
        s[end] == delim,
        delim != '\n',
        s[end - 1] != delim,
        !white(s[end - 1]),
    ensures
        closes(s, delim, j) == Some(end),
    decreases end - j,
{
    if j < end {
        assert(s[j] != delim);
        lemma_closes_at(s, delim, j + 1, end);
    }
}

/// A message without code, refs or emphasis is only decoded, and mentions
/// nobody.
pub proof fn law_unmarked_text_is_only_decoded(
    s: Seq<char>,
    users: Map<Seq<char>, Seq<char>>,
    channels: Map<Seq<char>, Seq<char>>,
)
    requires
        lacks(s, '`'),
        lacks(s, '<'),
        lacks(s, '*'),
        lacks(s, '~'),
    ensures
        normal_text(s, users, channels) == decoded(s),
        normal_mentions(s) == Seq::<Seq<char>>::empty(),
{
    reveal_with_fuel(runs_text, 2);
    reveal_with_fuel(runs_mentions, 2);
    lemma_no_code(s, 0);
    assert(s.skip(0) =~= s);
    let rs = text_run(s);
    assert(runs(s, 0) == rs);
    if s.len() > 0 {
        assert(rs.drop_last() =~= seq![]);
        lemma_index_of_lacking(s, '<');
        law_loose_delimiters_are_literal(s, '*');
        law_loose_delimiters_are_literal(s, '~');
        assert(runs_text(rs, users, channels) =~= decoded(s));
        assert(runs_mentions(rs) =~= seq![]);
    } else {
        assert(runs_text(rs, users, channels) =~= decoded(s));
    }
}

/// A message without any character that means something to Slack is unchanged.
pub proof fn law_plain_text_is_unchanged(
    s: Seq<char>,
    users: Map<Seq<char>, Seq<char>>,
    channels: Map<Seq<char>, Seq<char>>,
)
    requires
        lacks(s, '`'),
        lacks(s, '<'),
        lacks(s, '*'),
        lacks(s, '~'),
        lacks(s, '&'),
    ensures
        normal_text(s, users, channels) == s,
        normal_mentions(s) == Seq::<Seq<char>>::empty(),
{
    law_unmarked_text_is_only_decoded(s, users, channels);
    lemma_decoded_lacking(s);
}

pub(crate) proof fn lemma_decoded_lacking(s: Seq<char>)
    requires
        lacks(s, '&'),
    ensures
        decoded(s) == s,
    decreases s.len(),
{
    if s.len() > 0 {
        let rest = s.drop_first();
        assert forall|i: int| 0 <= i < rest.len() implies #[trigger] rest[i] != '&' by {
            assert(rest[i] == s[i + 1]);
        }
        lemma_decoded_lacking(rest);
        assert(s[0] != '&');
        if s.len() >= 5 {
            assert(s.subrange(0, 5)[0] == s[0]);
        }
        if s.len() >= 4 {
            assert(s.subrange(0, 4)[0] == s[0]);
        }
        assert(seq![s[0]] + rest =~= s);
    } else {
        assert(decoded(s) =~= s);
    }
}

/// Escaping brings in none of the characters that mark code or emphasis, and
/// leaves no bracket that could open a ref.
proof fn lemma_escaped_lacks(t: Seq<char>, c: char)
    requires
        c == '<' || (lacks(t, c) && (c == '`' || c == '*' || c == '~')),
    ensures
        lacks(escaped(t), c),
    decreases t.len(),
{
    if t.len() > 0 {
        let rest = t.drop_first();
        if c != '<' {
            assert forall|i: int| 0 <= i < rest.len() implies #[trigger] rest[i] != c by {
                assert(rest[i] == t[i + 1]);
            }
            assert(t[0] != c);
        }
        lemma_escaped_lacks(rest, c);
        let e = escape_char(t[0]);
        let s = escaped(t);
        assert forall|i: int| 0 <= i < s.len() implies #[trigger] s[i] != c by {
            if i < e.len() {
                assert(s[i] == e[i]);
            } else {
                assert(s[i] == escaped(rest)[i - e.len()]);
            }
        }
    }
}

/// Angle brackets a person typed are literal: they come back as typed and
/// never turn into a mention.
pub proof fn law_escaped_brackets_are_not_refs(
    t: Seq<char>,
    users: Map<Seq<char>, Seq<char>>,
    channels: Map<Seq<char>, Seq<char>>,
)
    requires
        lacks(t, '`'),
        lacks(t, '*'),
        lacks(t, '~'),
    ensures
        normal_text(escaped(t), users, channels) == t,
        normal_mentions(escaped(t)) == Seq::<Seq<char>>::empty(),
{
    lemma_escaped_lacks(t, '`');
    lemma_escaped_lacks(t, '<');
    lemma_escaped_lacks(t, '*');
    lemma_escaped_lacks(t, '~');
    law_unmarked_text_is_only_decoded(escaped(t), users, channels);
    law_decoding_undoes_escaping(t);
}

/// A backtick fence: one for an inline span, three for a block.
pub open spec fn fence(n: nat) -> Seq<char> {
    Seq::new(n, |i: int| '`')
}

/// Code is not rewritten: between backticks only entities are decoded, and
/// nobody is mentioned.
pub proof fn law_code_is_literal(
    n: nat,
    body: Seq<char>,
    users: Map<Seq<char>, Seq<char>>,
    channels: Map<Seq<char>, Seq<char>>,
)
    requires
        n == 1 || n == 3,
        lacks(body, '`'),
    ensures
        normal_text(fence(n) + body + fence(n), users, channels) == decoded(
            fence(n) + body + fence(n),
        ),
        normal_mentions(fence(n) + body + fence(n)) == Seq::<Seq<char>>::empty(),
{
    reveal_with_fuel(runs_text, 2);
    reveal_with_fuel(runs_mentions, 2);
    let s = fence(n) + body + fence(n);
    let triple = seq!['`', '`', '`'];
    assert(fence(3) =~= triple);
    assert(s.subrange(0, n as int) =~= fence(n));
    assert(s.subrange((n + body.len()) as int, s.len() as int) =~= fence(n));
    if n == 3 {
        assert(stands_at(s, triple, 0));
    } else if s.len() >= 3 {
        assert(s[1] == body[0]);
        assert(s.subrange(0, 3)[1] == body[0]);
        assert(!stands_at(s, triple, 0));
    }
    assert(fence_at(s, 0) == n);
    assert forall|k: int| n <= k < n + body.len() implies s[k] != '`' by {
        assert(s[k] == body[k - n]);
    }
    lemma_next_fence(s, fence(n), n as int, (n + body.len()) as int);
    assert(next_code(s, 0) == Some((0int, s.len() as int)));
    assert(s.subrange(0, s.len() as int) =~= s);
    assert(s.subrange(0, 0) =~= seq![]);
    assert(next_code(s, s.len() as int) is None);
    assert(s.skip(s.len() as int) =~= seq![]);
    assert(runs(s, s.len() as int) =~= seq![]);
    let rs = seq![Run::Code(s)];
    assert(runs(s, 0) =~= rs);
    assert(rs.drop_last() =~= seq![]);
    assert(runs_text(rs, users, channels) =~= decoded(s));
}

proof fn lemma_next_fence(s: Seq<char>, delim: Seq<char>, i: int, close: int)
    requires
        0 <= i <= close,
        delim.len() > 0,
        delim[0] == '`',
        stands_at(s, delim, close),
        forall|k: int| i <= k < close ==> s[k] != '`',
    ensures
        next_at(s, delim, i) == Some(close),
    decreases close - i,
{
    if i < close {
        assert(s[i] != '`');
        if i + delim.len() <= s.len() {
            assert(s.subrange(i, i + delim.len())[0] == s[i]);
        }
        lemma_next_fence(s, delim, i + 1, close);
    }
}

/// Whether every id is there once, and none is empty.
pub open spec fn proper_mentions(ids: Seq<Seq<char>>) -> bool {
    ids.no_duplicates() && forall|i: int| 0 <= i < ids.len() ==> (#[trigger] ids[i]).len() > 0
}

proof fn lemma_refs_mentions_proper(s: Seq<char>, seen: Seq<Seq<char>>)
    requires
        proper_mentions(seen),
    ensures
        proper_mentions(refs_mentions(s, seen)),
        seen.is_prefix_of(refs_mentions(s, seen)),
    decreases s.len(),
{
    lemma_index_of(s, '<');
    match first_ref(s) {
        Some((open, len)) => {
            lemma_index_of(s.skip(open + 1), '>');
            let next = noted(seen, ref_mention(s.subrange(open + 1, open + 1 + len)));
            lemma_refs_mentions_proper(s.skip(open + len + 2), next);
        },
        None => {},
    }
}

proof fn lemma_runs_mentions_proper(rs: Seq<Run>)
    ensures
        proper_mentions(runs_mentions(rs)),
    decreases rs.len(),
{
    if rs.len() > 0 {
        lemma_runs_mentions_proper(rs.drop_last());
        match rs.last() {
            Run::Text(v) => {
                lemma_refs_mentions_proper(v, runs_mentions(rs.drop_last()));
            },
            Run::Code(_) => {},
        }
    }
}

/// Nobody is mentioned twice in one message, and no mention is without an id.
pub proof fn law_mentions_are_distinct(s: Seq<char>)
    ensures
        proper_mentions(normal_mentions(s)),
{
    lemma_runs_mentions_proper(runs(s, 0));
}

proof fn lemma_stands_at_shift(a: Seq<char>, b: Seq<char>, part: Seq<char>, i: int)
    requires
        0 <= i,
    ensures
        stands_at(a + b, part, a.len() + i) == stands_at(b, part, i),
{
    if i + part.len() <= b.len() {
        assert((a + b).subrange(a.len() + i, a.len() + i + part.len()) =~= b.subrange(
            i,
            i + part.len(),
        ));
    }
}

proof fn lemma_next_at_shift(a: Seq<char>, b: Seq<char>, part: Seq<char>, i: int)
    requires
        0 <= i,
    ensures
        next_at(a + b, part, a.len() + i) == match next_at(b, part, i) {
            Some(k) => Some(a.len() + k),
            None => None,
        },
    decreases b.len() - i + 1,
{
    lemma_stands_at_shift(a, b, part, i);
    if i + part.len() <= b.len() && !stands_at(b, part, i) {
        lemma_next_at_shift(a, b, part, i + 1);
    }
}

proof fn lemma_next_code_shift(a: Seq<char>, b: Seq<char>, i: int)
    requires
        0 <= i,
    ensures
        next_code(a + b, a.len() + i) == match next_code(b, i) {
            Some((open, end)) => Some((a.len() + open, a.len() + end)),
            None => None,
        },
    decreases b.len() - i,
{
    if i < b.len() {
        let s = a + b;
        assert(s[a.len() + i] == b[i]);
        if b[i] != '`' {
            lemma_next_code_shift(a, b, i + 1);
        } else {
            lemma_stands_at_shift(a, b, seq!['`', '`', '`'], i);
            let n = fence_at(b, i);
            assert(fence_at(s, a.len() + i) == n);
            assert(i + n <= b.len());
            assert(s.subrange(a.len() + i, a.len() + i + n) =~= b.subrange(i, i + n));
            lemma_next_at_shift(a, b, b.subrange(i, i + n), i + n);
            lemma_next_code_shift(a, b, i + n);
        }
    }
}

pub(crate) proof fn lemma_runs_shift(a: Seq<char>, b: Seq<char>, from: int)
    requires
        0 <= from <= b.len(),
    ensures
        runs(a + b, a.len() + from) == runs(b, from),
    decreases b.len() - from,
{
    let s = a + b;
    lemma_next_code_shift(a, b, from);
    lemma_next_code(b, from);
    match next_code(b, from) {
        Some((open, end)) => {
            lemma_runs_shift(a, b, end);
            assert(s.subrange(a.len() + from, a.len() + open) =~= b.subrange(from, open));
            assert(s.subrange(a.len() + open, a.len() + end) =~= b.subrange(open, end));
        },
        None => {
            assert(s.skip(a.len() + from) =~= b.skip(from));
        },
    }
}

proof fn lemma_runs_text_add(
    a: Seq<Run>,
    b: Seq<Run>,
    users: Map<Seq<char>, Seq<char>>,
    channels: Map<Seq<char>, Seq<char>>,
)
    ensures
        runs_text(a + b, users, channels) == runs_text(a, users, channels) + runs_text(
            b,
            users,
            channels,
        ),
    decreases b.len(),
{
    if b.len() == 0 {
        assert(a + b =~= a);
        assert(runs_text(a, users, channels) + runs_text(b, users, channels) =~= runs_text(
            a,
            users,
            channels,
        ));
    } else {
        lemma_runs_text_add(a, b.drop_last(), users, channels);
        assert((a + b).drop_last() =~= a + b.drop_last());
        assert(runs_text(a + b, users, channels) =~= runs_text(a, users, channels) + runs_text(
            b,
            users,
            channels,
        ));
    }
}

pub(crate) proof fn lemma_skip_to_code(s: Seq<char>, i: int, open: int)
    requires
        0 <= i <= open <= s.len(),
        forall|k: int| i <= k < open ==> s[k] != '`',
    ensures
        next_code(s, i) == next_code(s, open),
    decreases open - i,
{
    if i < open {
        assert(s[i] != '`');
        lemma_skip_to_code(s, i + 1, open);
    }
}

/// Code stands between text that is normalised on its own: what leads up to the
/// first code span and what follows it do not change how it is read, nor it them.
/// (Two backticks with nothing between them are a span only where no third one
/// follows.)
pub proof fn law_code_splits_a_message(
    lead: Seq<char>,
    n: nat,
    body: Seq<char>,
    rest: Seq<char>,
    users: Map<Seq<char>, Seq<char>>,
    channels: Map<Seq<char>, Seq<char>>,
)
    requires
        n == 1 || n == 3,
        lacks(lead, '`'),
        lacks(body, '`'),
        n == 1 && body.len() == 0 && rest.len() > 0 ==> rest[0] != '`',
    ensures
        ({
            let code = fence(n) + body + fence(n);
            &&& runs(lead + code + rest, 0) == text_run(lead) + seq![Run::Code(code)] + runs(
                rest,
                0,
            )
            &&& normal_text(lead + code + rest, users, channels) == normal_text(
                lead,
                users,
                channels,
            ) + decoded(code) + normal_text(rest, users, channels)
        }),
{
    let code = fence(n) + body + fence(n);
    let s = lead + code + rest;
    let triple = seq!['`', '`', '`'];
    let at = lead.len() as int;
    let close = (at + n + body.len()) as int;
    let end = at + code.len();
    assert forall|k: int| 0 <= k < at implies s[k] != '`' by {
        assert(s[k] == lead[k]);
    }
    assert forall|k: int| at + n <= k < close implies s[k] != '`' by {
        assert(s[k] == body[k - at - n]);
    }
    lemma_skip_to_code(s, 0, at);
    assert(s[at] == '`');
    assert(fence(3) =~= triple);
    assert(s.subrange(at, at + n) =~= fence(n));
    assert(s.subrange(close, close + n) =~= fence(n));
    if n == 1 && at + 3 <= s.len() {
        if body.len() > 0 {
            assert(s[at + 1] == body[0]);
            assert(s.subrange(at, at + 3)[1] == body[0]);
        } else {
            assert(s[at + 2] == rest[0]);
            assert(s.subrange(at, at + 3)[2] == rest[0]);
        }
        assert(!stands_at(s, triple, at));
    }
    assert(fence_at(s, at) == n);
    lemma_next_fence(s, fence(n), at + n, close);
    assert(next_code(s, 0) == Some((at, end)));
    assert(s.subrange(0, at) =~= lead);
    assert(s.subrange(at, end) =~= code);
    lemma_runs_shift(lead + code, rest, 0);
    assert(runs(s, 0) == text_run(lead) + seq![Run::Code(code)] + runs(rest, 0));

    lemma_no_code(lead, 0);
    assert(lead.skip(0) =~= lead);
    assert(runs(lead, 0) == text_run(lead));
    let first = text_run(lead) + seq![Run::Code(code)];
    lemma_runs_text_add(first, runs(rest, 0), users, channels);
    assert(first.drop_last() =~= text_run(lead));
}

/// A fence that is never closed opens nothing: it stays in the text, and does not
/// eat the rest of the message.
pub proof fn law_unterminated_fence_is_text(lead: Seq<char>, n: nat, rest: Seq<char>)
    requires
        n == 1 || n == 3,
        lacks(lead, '`'),
        lacks(rest, '`'),
    ensures
        runs(lead + fence(n) + rest, 0) == seq![Run::Text(lead + fence(n) + rest)],
{
    let s = lead + fence(n) + rest;
    let triple = seq!['`', '`', '`'];
    let at = lead.len() as int;
    assert forall|k: int| 0 <= k < at implies s[k] != '`' by {
        assert(s[k] == lead[k]);
    }
    assert forall|k: int| at + n <= k < s.len() implies s[k] != '`' by {
        assert(s[k] == rest[k - at - n]);
    }
    lemma_skip_to_code(s, 0, at);
    assert(s[at] == '`');
    assert(fence(3) =~= triple);
    assert(s.subrange(at, at + n) =~= fence(n));
    if n == 1 && at + 3 <= s.len() {
        assert(s[at + 1] == rest[0]);
        assert(s.subrange(at, at + 3)[1] == rest[0]);
        assert(!stands_at(s, triple, at));
    }
    assert(fence_at(s, at) == n);
    lemma_no_fence(s, fence(n), at + n);
    lemma_skip_to_code(s, at + n, s.len() as int);
    assert(next_code(s, 0) is None);
    assert(s.skip(0) =~= s);
}

proof fn lemma_no_fence(s: Seq<char>, delim: Seq<char>, i: int)
    requires
        0 <= i,
        delim.len() > 0,
        delim[0] == '`',
        forall|k: int| i <= k < s.len() ==> s[k] != '`',
    ensures
        next_at(s, delim, i) is None,
    decreases s.len() - i + 1,
{
    if i + delim.len() <= s.len() {
        assert(s[i] != '`');
        assert(s.subrange(i, i + delim.len())[0] == s[i]);
        lemma_no_fence(s, delim, i + 1);
    }
}

/// Emphasis stays on its line: a line break parts a text into two that are
/// emphasised on their own.
pub proof fn law_emphasis_stays_on_its_line(a: Seq<char>, b: Seq<char>, delim: char)
    requires
        delim != '\n',
    ensures
        emphasised(a + seq!['\n'] + b, delim, 0) == emphasised(a, delim, 0) + seq!['\n']
            + emphasised(b, delim, 0),
{
    lemma_emphasis_ahead(a, b, delim, 0);
}

proof fn lemma_closes_ahead(a: Seq<char>, b: Seq<char>, delim: char, j: int)
    requires
        1 <= j <= a.len(),
    ensures
        closes(a + seq!['\n'] + b, delim, j) == closes(a, delim, j),
    decreases a.len() - j,
{
    let s = a + seq!['\n'] + b;
    assert(s[j - 1] == a[j - 1]);
    if j < a.len() {
        assert(s[j] == a[j]);
        lemma_closes_ahead(a, b, delim, j + 1);
    } else {
        assert(s[j] == '\n');
    }
}

proof fn lemma_emphasis_ahead(a: Seq<char>, b: Seq<char>, delim: char, i: int)
    requires
        delim != '\n',
        0 <= i <= a.len(),
    ensures
        emphasised(a + seq!['\n'] + b, delim, i) == emphasised(a, delim, i) + seq!['\n']
            + emphasised(b, delim, 0),
    decreases a.len() - i,
{
    let s = a + seq!['\n'] + b;
    let tail = seq!['\n'] + emphasised(b, delim, 0);
    if i < a.len() {
        assert(s[i] == a[i]);
        if i + 1 < a.len() {
            assert(s[i + 1] == a[i + 1]);
        } else {
            assert(s[i + 1] == '\n');
        }
        lemma_closes_ahead(a, b, delim, i + 1);
        assert(span_end(s, delim, i) == span_end(a, delim, i));
        match span_end(a, delim, i) {
            Some(end) => {
                lemma_closes(a, delim, i + 1);
                lemma_emphasis_ahead(a, b, delim, end + 1);
                assert(s.subrange(i + 1, end) =~= a.subrange(i + 1, end));
                assert(emphasised(s, delim, i) =~= emphasised(a, delim, i) + seq!['\n']
                    + emphasised(b, delim, 0));
            },
            None => {
                lemma_emphasis_ahead(a, b, delim, i + 1);
                assert(emphasised(s, delim, i) =~= emphasised(a, delim, i) + seq!['\n']
                    + emphasised(b, delim, 0));
            },
        }
    } else {
        assert(s[i] == '\n');
        lemma_emphasis_shift(a + seq!['\n'], b, delim, 0);
        assert(emphasised(s, delim, i) =~= emphasised(a, delim, i) + seq!['\n'] + emphasised(
            b,
            delim,
            0,
        ));
    }
}

proof fn lemma_closes_shift(a: Seq<char>, b: Seq<char>, delim: char, j: int)
    requires
        1 <= j,
    ensures
        closes(a + b, delim, a.len() + j) == match closes(b, delim, j) {
            Some(k) => Some(a.len() + k),
            None => None,
        },
    decreases b.len() - j,
{
    let s = a + b;
    if j < b.len() {
        assert(s[a.len() + j] == b[j]);
        assert(s[a.len() + j - 1] == b[j - 1]);
        lemma_closes_shift(a, b, delim, j + 1);
    }
}

proof fn lemma_emphasis_shift(a: Seq<char>, b: Seq<char>, delim: char, i: int)
    requires
        0 <= i,
    ensures
        emphasised(a + b, delim, a.len() + i) == emphasised(b, delim, i),
    decreases b.len() - i,
{
    let s = a + b;
    if i < b.len() {
        assert(s[a.len() + i] == b[i]);
        if i + 1 < b.len() {
            assert(s[a.len() + i + 1] == b[i + 1]);
        }
        lemma_closes_shift(a, b, delim, i + 1);
        match span_end(b, delim, i) {
            Some(end) => {
                lemma_closes(b, delim, i + 1);
                lemma_emphasis_shift(a, b, delim, end + 1);
                assert(s.subrange(a.len() + i + 1, a.len() + end) =~= b.subrange(i + 1, end));
            },
            None => {
                lemma_emphasis_shift(a, b, delim, i + 1);
            },
        }
    }
}

} // verus!
