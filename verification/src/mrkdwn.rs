//! Slack mrkdwn → Markdown normalisation.
//!
//! This module is the fidelity-critical part of `parse`. Everything else
//! reshuffles JSON; this rewrites human text, and every bug here is a
//! permanently wrong archive. It is therefore pure (no I/O, no clock).
//!
//! # Two ordering rules that are easy to get backwards
//!
//! **Refs before entities.** Slack escapes exactly three characters in message
//! text — `&` → `&amp;`, `<` → `&lt;`, `>` → `&gt;` — and it does *not* escape
//! the angle brackets that delimit its own refs (`<@U1>`, `<http://x|y>`). So
//! on the wire, an unescaped `<` is always a ref delimiter and `&lt;` is always
//! literal user text. Parsing refs first, while that distinction still exists,
//! is what makes `a &lt;@U1&gt; b` come out as the literal text `a <@U1> b`
//! instead of a bogus mention.
//!
//! **Code before everything.** Text inside a fence or an inline span must not
//! have its emphasis or refs rewritten — a code sample containing `*ptr` or
//! `<@U1>` means those characters literally. Entity decoding *does* still apply
//! inside code, because Slack escapes there too.

use vstd::prelude::*;

use crate::names::{name_or_id, Names};
use crate::text;
use crate::text::{chars_of, find_char, index_of, is_white, lemma_index_of, matches_at, stands_at, string_of, white};

pub mod laws;
pub mod refs;

verus! {

/// Resolves Slack ids to the names used in normalised text.
///
/// Both maps are consulted only for refs that omit their own label. Slack
/// usually includes a label (`<#C1|general>`), but older exports often do not.
#[derive(Default)]
pub struct Resolver {
    /// Slack user id → display name, without the `@`.
    pub users: Names,
    /// Slack channel id → channel name, without the `#`.
    pub channels: Names,
}

/// Result of normalising one message's text.
#[derive(Debug, Clone, PartialEq)]
pub struct Normalized {
    pub text: String,
    /// Slack user ids mentioned, deduplicated, in order of first appearance.
    pub mentions: Vec<String>,
}

// ── code segmentation ────────────────────────────────────────────────────────

/// A run of message text, as characters.
pub enum Segment {
    /// Includes its delimiters, so reassembly is lossless.
    Code(Vec<char>),
    Text(Vec<char>),
}

/// The model of a [`Segment`].
pub enum Run {
    Code(Seq<char>),
    Text(Seq<char>),
}

impl DeepView for Segment {
    type V = Run;

    open spec fn deep_view(&self) -> Run {
        match self {
            Segment::Code(v) => Run::Code(v@),
            Segment::Text(v) => Run::Text(v@),
        }
    }
}

/// Where `part` first stands in `s` at or after `i`.
pub open spec fn next_at(s: Seq<char>, part: Seq<char>, i: int) -> Option<int>
    decreases s.len() - i + 1,
{
    if i + part.len() > s.len() {
        None
    } else if stands_at(s, part, i) {
        Some(i)
    } else {
        next_at(s, part, i + 1)
    }
}

/// How many backticks open a code run at `i`: three win over one.
pub open spec fn fence_at(s: Seq<char>, i: int) -> int {
    if stands_at(s, seq!['`', '`', '`'], i) {
        3
    } else {
        1
    }
}

/// The first code run at or after `i`: where it starts, and where it ends.
///
/// A delimiter that is never closed opens nothing.
pub open spec fn next_code(s: Seq<char>, i: int) -> Option<(int, int)>
    decreases s.len() - i,
{
    if !(0 <= i < s.len()) {
        None
    } else if s[i] != '`' {
        next_code(s, i + 1)
    } else {
        let fence = fence_at(s, i);
        match next_at(s, s.subrange(i, i + fence), i + fence) {
            Some(close) => Some((i, close + fence)),
            None => next_code(s, i + fence),
        }
    }
}

/// A text run, unless it is empty.
pub open spec fn text_run(s: Seq<char>) -> Seq<Run> {
    if s.len() > 0 {
        seq![Run::Text(s)]
    } else {
        seq![]
    }
}

/// The alternating code and text runs of `s` from `from` on.
pub open spec fn runs(s: Seq<char>, from: int) -> Seq<Run>
    decreases s.len() - from,
{
    match next_code(s, from) {
        Some((open, end)) => if from <= open < end <= s.len() {
            text_run(s.subrange(from, open)) + seq![Run::Code(s.subrange(open, end))] + runs(
                s,
                end,
            )
        } else {
            seq![]
        },
        None => text_run(s.skip(from)),
    }
}

pub proof fn lemma_next_at(s: Seq<char>, part: Seq<char>, i: int)
    ensures
        next_at(s, part, i) matches Some(k) ==> i <= k && stands_at(s, part, k),
    decreases s.len() - i + 1,
{
    if i + part.len() <= s.len() && !stands_at(s, part, i) {
        lemma_next_at(s, part, i + 1);
    }
}

/// A code run lies inside the text, and starts and ends with its delimiter.
pub proof fn lemma_next_code(s: Seq<char>, i: int)
    requires
        0 <= i,
    ensures
        next_code(s, i) matches Some((open, end)) ==> {
            &&& i <= open
            &&& open + 2 * fence_at(s, open) <= end <= s.len()
            &&& s[open] == '`'
            &&& s[end - 1] == '`'
        },
    decreases s.len() - i,
{
    if i < s.len() {
        if s[i] != '`' {
            lemma_next_code(s, i + 1);
        } else {
            let fence = fence_at(s, i);
            let delim = s.subrange(i, i + fence);
            lemma_next_at(s, delim, i + fence);
            match next_at(s, delim, i + fence) {
                Some(close) => {
                    assert(delim[fence - 1] == '`') by {
                        if fence == 3 {
                            assert(s.subrange(i, i + 3)[2] == '`');
                        }
                    }
                    assert(s.subrange(close, close + fence)[fence - 1] == delim[fence - 1]);
                },
                None => {
                    lemma_next_code(s, i + fence);
                },
            }
        }
    }
}

fn find_at(v: &Vec<char>, part: &Vec<char>, from: usize) -> (r: Option<usize>)
    requires
        from <= v@.len(),
        part@.len() > 0,
    ensures
        match r {
            Some(k) => next_at(v@, part@, from as int) == Some(k as int),
            None => next_at(v@, part@, from as int) is None,
        },
{
    let mut i: usize = from;
    while i < v.len()
        invariant
            from <= i <= v@.len(),
            part@.len() > 0,
            next_at(v@, part@, from as int) == next_at(v@, part@, i as int),
        decreases v@.len() - i,
    {
        if matches_at(v, i, part) {
            return Some(i);
        }
        if part.len() > v.len() - i {
            return None;
        }
        i += 1;
    }
    None
}

/// `v[from..to]`.
fn slice(v: &Vec<char>, from: usize, to: usize) -> (r: Vec<char>)
    requires
        from <= to <= v@.len(),
    ensures
        r@ == v@.subrange(from as int, to as int),
{
    let mut r: Vec<char> = Vec::new();
    let mut i: usize = from;
    while i < to
        invariant
            from <= i <= to <= v@.len(),
            r@ == v@.subrange(from as int, i as int),
        decreases to - i,
    {
        r.push(v[i]);
        i += 1;
    }
    r
}

/// Split into alternating code and non-code runs.
///
/// Triple backticks win over single, and an unterminated delimiter is treated
/// as literal text rather than swallowing the rest of the message — a stray
/// backtick is far more common than a genuinely unclosed fence, and silently
/// eating the remainder of someone's message is the worse failure.
fn segment_code(input: &Vec<char>) -> (r: Vec<Segment>)
    ensures
        r.deep_view() == runs(input@, 0),
{
    let ghost s = input@;
    let mut segments: Vec<Segment> = Vec::new();
    let mut text_start: usize = 0;
    let mut i: usize = 0;
    let mut triple: Vec<char> = Vec::new();
    triple.push('`');
    triple.push('`');
    triple.push('`');
    assert(triple@ =~= seq!['`', '`', '`']);

    while i < input.len()
        invariant
            s == input@,
            triple@ == seq!['`', '`', '`'],
            text_start <= i <= input@.len(),
            next_code(s, text_start as int) == next_code(s, i as int),
            runs(s, 0) == segments.deep_view() + runs(s, text_start as int),
        decreases input@.len() - i,
    {
        if input[i] != '`' {
            i += 1;
            continue;
        }
        let fence: usize = if matches_at(input, i, &triple) {
            3
        } else {
            1
        };
        let delim = slice(input, i, i + fence);
        match find_at(input, &delim, i + fence) {
            None => {
                // Unterminated — leave it as text.
                i += fence;
            },
            Some(close) => {
                proof {
                    lemma_next_code(s, i as int);
                }
                let end: usize = close + fence;
                let ghost was = segments.deep_view();
                let ghost lead = s.subrange(text_start as int, i as int);
                if text_start < i {
                    segments.push(Segment::Text(slice(input, text_start, i)));
                }
                assert(segments.deep_view() =~= was + text_run(lead));
                let ghost mid = segments.deep_view();
                segments.push(Segment::Code(slice(input, i, end)));
                assert(segments.deep_view() =~= mid + seq![
                    Run::Code(s.subrange(i as int, end as int)),
                ]);
                assert(was + (text_run(lead) + seq![Run::Code(s.subrange(i as int, end as int))]
                    + runs(s, end as int)) =~= segments.deep_view() + runs(s, end as int));
                text_start = end;
                i = end;
            },
        }
    }

    let ghost was = segments.deep_view();
    if text_start < input.len() {
        segments.push(Segment::Text(slice(input, text_start, input.len())));
        assert(s.subrange(text_start as int, s.len() as int) =~= s.skip(text_start as int));
    }
    assert(segments.deep_view() =~= was + text_run(s.skip(text_start as int)));
    segments
}

// ── refs ─────────────────────────────────────────────────────────────────────

/// What a ref points at: everything ahead of the first `|`.
pub open spec fn ref_target(body: Seq<char>) -> Seq<char> {
    body.take(index_of(body, '|'))
}

/// The label a ref carries: everything behind the first `|`, empty without one.
pub open spec fn ref_label(body: Seq<char>) -> Seq<char> {
    let p = index_of(body, '|');
    if p < body.len() {
        body.skip(p + 1)
    } else {
        seq![]
    }
}

/// `<!here>` and its kin: the label, or the keyword ahead of any `^`.
pub open spec fn special_text(target: Seq<char>, label: Seq<char>) -> Seq<char> {
    if label.len() > 0 {
        label
    } else {
        seq!['@'] + target.take(index_of(target, '^'))
    }
}

/// The address a link names: `mailto:` and `tel:` read better bare.
pub open spec fn link_address(target: Seq<char>) -> Seq<char> {
    if stands_at(target, "mailto:"@, 0) {
        target.skip("mailto:"@.len() as int)
    } else if stands_at(target, "tel:"@, 0) {
        target.skip("tel:"@.len() as int)
    } else {
        target
    }
}

/// A link: bare, unless its label says something the address does not.
pub open spec fn link_text(target: Seq<char>, label: Seq<char>) -> Seq<char> {
    let address = link_address(target);
    if label.len() == 0 || label == address {
        address
    } else {
        seq!['['] + label + seq![']', '('] + address + seq![')']
    }
}

/// What a label says, or what the id is called when there is no label.
pub open spec fn label_or_name(
    label: Seq<char>,
    names: Map<Seq<char>, Seq<char>>,
    id: Seq<char>,
) -> Seq<char> {
    if label.len() > 0 {
        label
    } else {
        name_or_id(names, id)
    }
}

/// The text a ref is rewritten to, given what stood between its brackets.
pub open spec fn ref_text(
    body: Seq<char>,
    users: Map<Seq<char>, Seq<char>>,
    channels: Map<Seq<char>, Seq<char>>,
) -> Seq<char> {
    let target = ref_target(body);
    let label = ref_label(body);
    if target.len() > 0 && target[0] == '@' {
        seq!['@'] + label_or_name(label, users, target.drop_first())
    } else if target.len() > 0 && target[0] == '#' {
        seq!['#'] + label_or_name(label, channels, target.drop_first())
    } else if target.len() > 0 && target[0] == '!' {
        special_text(target.drop_first(), label)
    } else {
        link_text(target, label)
    }
}

/// The user a ref mentions, if it mentions one.
pub open spec fn ref_mention(body: Seq<char>) -> Option<Seq<char>> {
    let target = ref_target(body);
    if target.len() > 1 && target[0] == '@' {
        Some(target.drop_first())
    } else {
        None
    }
}

/// `seen` with one more mention, unless it is already there.
pub open spec fn noted(seen: Seq<Seq<char>>, mention: Option<Seq<char>>) -> Seq<Seq<char>> {
    match mention {
        Some(id) => if seen.contains(id) {
            seen
        } else {
            seen.push(id)
        },
        None => seen,
    }
}

/// Where the first ref of `s` opens and how long its inside is, if it has one.
/// An opening bracket that is never closed opens no ref.
pub open spec fn first_ref(s: Seq<char>) -> Option<(int, int)> {
    let open = index_of(s, '<');
    let len = index_of(s.skip(open + 1), '>');
    if open < s.len() && open + 1 + len < s.len() {
        Some((open, len))
    } else {
        None
    }
}

/// `s` with every ref rewritten.
pub open spec fn refs_text(
    s: Seq<char>,
    users: Map<Seq<char>, Seq<char>>,
    channels: Map<Seq<char>, Seq<char>>,
) -> Seq<char>
    decreases s.len(),
{
    match first_ref(s) {
        Some((open, len)) => if 0 <= open && 0 <= len && open + len + 2 <= s.len() {
            s.take(open) + ref_text(s.subrange(open + 1, open + 1 + len), users, channels)
                + refs_text(s.skip(open + len + 2), users, channels)
        } else {
            s
        },
        None => s,
    }
}

/// `seen` with the users that the refs of `s` mention.
pub open spec fn refs_mentions(s: Seq<char>, seen: Seq<Seq<char>>) -> Seq<Seq<char>>
    decreases s.len(),
{
    match first_ref(s) {
        Some((open, len)) => if 0 <= open && 0 <= len && open + len + 2 <= s.len() {
            refs_mentions(
                s.skip(open + len + 2),
                noted(seen, ref_mention(s.subrange(open + 1, open + 1 + len))),
            )
        } else {
            seen
        },
        None => seen,
    }
}

/// Appends `v[from..to]`.
fn push_range(out: &mut Vec<char>, v: &Vec<char>, from: usize, to: usize)
    requires
        from <= to <= v@.len(),
    ensures
        final(out)@ == old(out)@ + v@.subrange(from as int, to as int),
{
    let mut i: usize = from;
    while i < to
        invariant
            from <= i <= to <= v@.len(),
            out@ == old(out)@ + v@.subrange(from as int, i as int),
        decreases to - i,
    {
        out.push(v[i]);
        i += 1;
        assert(out@ =~= old(out)@ + v@.subrange(from as int, i as int));
    }
    assert(out@ =~= old(out)@ + v@.subrange(from as int, to as int));
}

/// Appends all of `v`.
fn push_all(out: &mut Vec<char>, v: &Vec<char>)
    ensures
        final(out)@ == old(out)@ + v@,
{
    push_range(out, v, 0, v.len());
    assert(v@.subrange(0, v@.len() as int) =~= v@);
}

fn same_chars(a: &Vec<char>, b: &Vec<char>) -> (r: bool)
    ensures
        r == (a@ == b@),
{
    let r = a.len() == b.len() && matches_at(a, 0, b);
    assert(r ==> a@ =~= b@) by {
        if r {
            assert(a@.subrange(0, b@.len() as int) =~= a@);
        }
    }
    assert(a@ == b@ ==> a@.subrange(0, b@.len() as int) =~= b@);
    r
}

/// Rewrite every `<...>` ref. Refs never nest, so a flat scan for the next
/// `>` is exact.
fn expand_refs(input: &Vec<char>, resolver: &Resolver, mentions: &mut Vec<String>) -> (out: Vec<
    char,
>)
    ensures
        out@ == refs_text(input@, resolver.users@, resolver.channels@),
        final(mentions).deep_view() == refs_mentions(input@, old(mentions).deep_view()),
{
    let ghost s = input@;
    let ghost users = resolver.users@;
    let ghost channels = resolver.channels@;
    let ghost seen = mentions.deep_view();
    let mut out: Vec<char> = Vec::new();
    let mut at: usize = 0;
    assert(s.skip(0) =~= s);
    assert(out@ + refs_text(s, users, channels) =~= refs_text(s, users, channels));

    loop
        invariant_except_break
            out@ + refs_text(s.skip(at as int), users, channels) == refs_text(s, users, channels),
            refs_mentions(s.skip(at as int), mentions.deep_view()) == refs_mentions(s, seen),
        invariant
            s == input@,
            users == resolver.users@,
            channels == resolver.channels@,
            at <= input@.len(),
        ensures
            out@ == refs_text(s, users, channels),
            mentions.deep_view() == refs_mentions(s, seen),
        decreases input@.len() - at,
    {
        let ghost rest = s.skip(at as int);
        let open = find_char(input, at, '<');
        proof {
            lemma_index_of(rest, '<');
        }
        if open == input.len() {
            push_range(&mut out, input, at, open);
            assert(s.subrange(at as int, open as int) =~= rest);
            break;
        }
        let close = find_char(input, open + 1, '>');
        assert(rest.skip(open - at + 1) =~= s.skip(open + 1));
        proof {
            lemma_index_of(s.skip(open + 1), '>');
        }
        if close == input.len() {
            // No closing bracket: a literal, unescaped '<'. Keep it.
            push_range(&mut out, input, at, input.len());
            assert(s.subrange(at as int, s.len() as int) =~= rest);
            break;
        }
        let ghost before = out@;
        push_range(&mut out, input, at, open);
        let body = slice(input, open + 1, close);
        assert(body@ =~= rest.subrange(open - at + 1, close - at));
        let expanded = expand_one_ref(&body, resolver, mentions);
        push_all(&mut out, &expanded);
        proof {
            assert(s.subrange(at as int, open as int) =~= rest.take(open - at));
            assert(rest.skip(close - at + 1) =~= s.skip(close + 1));
            let tail = refs_text(s.skip(close + 1), users, channels);
            assert(before + (rest.take(open - at) + expanded@ + tail) =~= out@ + tail);
        }
        at = close + 1;
    }
    out
}

/// Expand the inside of a single ref (delimiters already stripped).
fn expand_one_ref(body: &Vec<char>, resolver: &Resolver, mentions: &mut Vec<String>) -> (out: Vec<
    char,
>)
    ensures
        out@ == ref_text(body@, resolver.users@, resolver.channels@),
        final(mentions).deep_view() == noted(old(mentions).deep_view(), ref_mention(body@)),
{
    let bar = find_char(body, 0, '|');
    assert(body@.skip(0) =~= body@);
    proof {
        lemma_index_of(body@, '|');
    }
    let target = slice(body, 0, bar);
    assert(target@ =~= ref_target(body@));
    let label = if bar < body.len() {
        slice(body, bar + 1, body.len())
    } else {
        Vec::new()
    };
    assert(label@ =~= ref_label(body@));

    if target.len() == 0 {
        return expand_link(&target, &label);
    }
    let head = target[0];
    if head != '@' && head != '#' && head != '!' {
        return expand_link(&target, &label);
    }
    let id_chars = slice(&target, 1, target.len());
    assert(id_chars@ =~= target@.drop_first());
    if head == '!' {
        // Special: <!here>, <!channel>, <!everyone>, <!subteam^S1|@grp>,
        // <!date^...|fallback>
        return expand_special(&id_chars, &label);
    }
    let id = string_of(&target, 1, target.len());
    assert(id@ =~= target@.drop_first());
    // User mention: <@U123> or <@U123|label>
    if head == '@' && target.len() > 1 {
        note_mention(mentions, &id);
    }
    let mut out: Vec<char> = Vec::new();
    out.push(head);
    if label.len() > 0 {
        push_all(&mut out, &label);
    } else if head == '@' {
        push_all(&mut out, &chars_of(resolver.users.name_or_id(id.as_str()).as_str()));
    } else {
        // Channel ref: <#C123|name> or <#C123>
        push_all(&mut out, &chars_of(resolver.channels.name_or_id(id.as_str()).as_str()));
    }
    assert(out@ =~= ref_text(body@, resolver.users@, resolver.channels@));
    out
}

/// Adds `id`, unless it is already there.
fn note_mention(mentions: &mut Vec<String>, id: &String)
    ensures
        final(mentions).deep_view() == noted(old(mentions).deep_view(), Some(id@)),
{
    let ghost seen = mentions.deep_view();
    let mut i: usize = 0;
    while i < mentions.len()
        invariant
            *mentions == *old(mentions),
            seen == mentions.deep_view(),
            i <= mentions@.len(),
            forall|k: int| 0 <= k < i ==> mentions@[k]@ != id@,
        decreases mentions@.len() - i,
    {
        if mentions[i] == *id {
            assert(seen[i as int] == id@);
            return ;
        }
        i += 1;
    }
    assert(!seen.contains(id@));
    mentions.push(id.clone());
    assert(mentions.deep_view() =~= seen.push(id@));
}

fn expand_special(target: &Vec<char>, label: &Vec<char>) -> (out: Vec<char>)
    ensures
        out@ == special_text(target@, label@),
{
    let mut out: Vec<char> = Vec::new();
    if label.len() > 0 {
        // `subteam^ID` and `date^...` carry their human form in the label, and
        // Slack writes user-group labels already prefixed with '@'.
        push_all(&mut out, label);
        assert(out@ =~= label@);
        return out;
    }
    // The bare keywords (`here`, `channel`, `everyone`) are their own text.
    let caret = find_char(target, 0, '^');
    assert(target@.skip(0) =~= target@);
    out.push('@');
    push_range(&mut out, target, 0, caret);
    assert(out@ =~= special_text(target@, label@));
    out
}

fn expand_link(target: &Vec<char>, label: &Vec<char>) -> (out: Vec<char>)
    ensures
        out@ == link_text(target@, label@),
{
    let mailto = chars_of("mailto:");
    let tel = chars_of("tel:");
    let address = if matches_at(target, 0, &mailto) {
        slice(target, mailto.len(), target.len())
    } else if matches_at(target, 0, &tel) {
        slice(target, tel.len(), target.len())
    } else {
        slice(target, 0, target.len())
    };
    assert(address@ =~= link_address(target@));
    // Slack duplicates the address into the label for mailto refs; a Markdown
    // link to the same string is just noise.
    if label.len() == 0 || same_chars(label, &address) {
        return address;
    }
    let mut out: Vec<char> = Vec::new();
    out.push('[');
    push_all(&mut out, label);
    out.push(']');
    out.push('(');
    push_all(&mut out, &address);
    out.push(')');
    assert(out@ =~= link_text(target@, label@));
    out
}

// ── emphasis ─────────────────────────────────────────────────────────────────

/// Whether a delimiter at `i` may open a span: it hugs what follows it.
pub open spec fn opens(s: Seq<char>, delim: char, i: int) -> bool {
    i + 1 < s.len() && !white(s[i + 1]) && s[i + 1] != delim
}

/// The first delimiter at or after `j` that may close a span: it hugs what
/// stands ahead of it, with no newline on the way.
pub open spec fn closes(s: Seq<char>, delim: char, j: int) -> Option<int>
    decreases s.len() - j,
{
    if j >= s.len() || s[j] == '\n' {
        None
    } else if s[j] == delim && s[j - 1] != delim && !white(s[j - 1]) {
        Some(j)
    } else {
        closes(s, delim, j + 1)
    }
}

/// Where the span that opens at `i` closes, if one opens there.
pub open spec fn span_end(s: Seq<char>, delim: char, i: int) -> Option<int> {
    if s[i] == delim && opens(s, delim, i) {
        closes(s, delim, i + 1)
    } else {
        None
    }
}

/// `s` from `i` on, with the delimiters of every span doubled.
pub open spec fn emphasised(s: Seq<char>, delim: char, i: int) -> Seq<char>
    decreases s.len() - i,
{
    if !(0 <= i < s.len()) {
        seq![]
    } else {
        match span_end(s, delim, i) {
            Some(end) => if i < end < s.len() {
                seq![delim, delim] + s.subrange(i + 1, end) + seq![delim, delim] + emphasised(
                    s,
                    delim,
                    end + 1,
                )
            } else {
                seq![]
            },
            None => seq![s[i]] + emphasised(s, delim, i + 1),
        }
    }
}

/// `*bold*` → `**bold**`, then `~strike~` → `~~strike~~`.
pub open spec fn emphasis_text(s: Seq<char>) -> Seq<char> {
    emphasised(emphasised(s, '*', 0), '~', 0)
}

pub proof fn lemma_closes(s: Seq<char>, delim: char, j: int)
    ensures
        closes(s, delim, j) matches Some(k) ==> j <= k < s.len() && s[k] == delim,
    decreases s.len() - j,
{
    if j < s.len() && s[j] != '\n' && !(s[j] == delim && s[j - 1] != delim && !white(s[j - 1])) {
        lemma_closes(s, delim, j + 1);
    }
}

/// `*bold*` → `**bold**` and `~strike~` → `~~strike~~`.
///
/// `_italic_` is already Markdown and is left untouched. A delimiter only
/// counts when it hugs non-whitespace on the inside and the span holds no
/// newline, which is close enough to Slack's own rule to avoid mangling
/// arithmetic (`2 * 3 * 4`) and snake_case identifiers.
fn convert_emphasis(input: &Vec<char>) -> (out: Vec<char>)
    ensures
        out@ == emphasis_text(input@),
{
    let with_bold = convert_delimiter(input, '*');
    convert_delimiter(&with_bold, '~')
}

/// Doubles the delimiters of every span that `delim` encloses.
fn convert_delimiter(chars: &Vec<char>, delim: char) -> (out: Vec<char>)
    ensures
        out@ == emphasised(chars@, delim, 0),
{
    let ghost s = chars@;
    let mut out: Vec<char> = Vec::new();
    let mut i: usize = 0;
    assert(out@ + emphasised(s, delim, 0) =~= emphasised(s, delim, 0));

    while i < chars.len()
        invariant
            s == chars@,
            i <= chars@.len(),
            out@ + emphasised(s, delim, i as int) == emphasised(s, delim, 0),
        decreases chars@.len() - i,
    {
        let ghost before = out@;
        // Opening delimiter must be followed by non-space.
        let opening = chars[i] == delim && i + 1 < chars.len() && !is_white(chars[i + 1])
            && chars[i + 1] != delim;
        let close = if opening {
            find_close(chars, delim, i + 1)
        } else {
            None
        };
        match close {
            Some(end) => {
                proof {
                    lemma_closes(s, delim, i + 1);
                }
                out.push(delim);
                out.push(delim);
                push_range(&mut out, chars, i + 1, end);
                out.push(delim);
                out.push(delim);
                assert(before + (seq![delim, delim] + s.subrange(i + 1, end as int) + seq![
                    delim,
                    delim,
                ] + emphasised(s, delim, end + 1)) =~= out@ + emphasised(s, delim, end + 1));
                i = end + 1;
            },
            None => {
                out.push(chars[i]);
                assert(before + (seq![s[i as int]] + emphasised(s, delim, i + 1)) =~= out@
                    + emphasised(s, delim, i + 1));
                i += 1;
            },
        }
    }
    assert(out@ + emphasised(s, delim, i as int) =~= out@);
    out
}

/// Find a closing delimiter preceded by non-space, before any newline.
fn find_close(chars: &Vec<char>, delim: char, from: usize) -> (r: Option<usize>)
    requires
        1 <= from <= chars@.len(),
    ensures
        match r {
            Some(k) => from <= k < chars@.len() && closes(chars@, delim, from as int) == Some(
                k as int,
            ),
            None => closes(chars@, delim, from as int) is None,
        },
{
    let mut j: usize = from;
    while j < chars.len()
        invariant
            1 <= from <= j <= chars@.len(),
            closes(chars@, delim, from as int) == closes(chars@, delim, j as int),
        decreases chars@.len() - j,
    {
        if chars[j] == '\n' {
            return None;
        }
        if chars[j] == delim && chars[j - 1] != delim && !is_white(chars[j - 1]) {
            return Some(j);
        }
        j += 1;
    }
    None
}

// ── entities ─────────────────────────────────────────────────────────────────

/// `s` with the three entities Slack emits decoded, in one pass.
pub open spec fn decoded(s: Seq<char>) -> Seq<char>
    decreases s.len(),
{
    if s.len() == 0 {
        seq![]
    } else if stands_at(s, seq!['&', 'a', 'm', 'p', ';'], 0) {
        seq!['&'] + decoded(s.skip(5))
    } else if stands_at(s, seq!['&', 'l', 't', ';'], 0) {
        seq!['<'] + decoded(s.skip(4))
    } else if stands_at(s, seq!['&', 'g', 't', ';'], 0) {
        seq!['>'] + decoded(s.skip(4))
    } else {
        seq![s[0]] + decoded(s.drop_first())
    }
}

proof fn lemma_stands_at_skip(s: Seq<char>, part: Seq<char>, i: int)
    requires
        0 <= i <= s.len(),
    ensures
        stands_at(s, part, i) == stands_at(s.skip(i), part, 0),
{
    if i + part.len() <= s.len() {
        assert(s.subrange(i, i + part.len()) =~= s.skip(i).subrange(0, part.len() as int));
    }
}

/// Decode the only three entities Slack emits.
///
/// `&amp;` is decoded last by construction (single left-to-right pass), so
/// `&amp;lt;` correctly yields the literal text `&lt;` rather than `<`.
fn decode_entities(input: &Vec<char>) -> (out: Vec<char>)
    ensures
        out@ == decoded(input@),
{
    let ghost s = input@;
    let amp = chars_of("&amp;");
    let lt = chars_of("&lt;");
    let gt = chars_of("&gt;");
    proof {
        reveal_strlit("&amp;");
        reveal_strlit("&lt;");
        reveal_strlit("&gt;");
        assert(amp@ =~= seq!['&', 'a', 'm', 'p', ';']);
        assert(lt@ =~= seq!['&', 'l', 't', ';']);
        assert(gt@ =~= seq!['&', 'g', 't', ';']);
    }
    let mut out: Vec<char> = Vec::new();
    let mut i: usize = 0;
    assert(s.skip(0) =~= s);
    assert(out@ + decoded(s) =~= decoded(s));
    while i < input.len()
        invariant
            s == input@,
            amp@ == seq!['&', 'a', 'm', 'p', ';'],
            lt@ == seq!['&', 'l', 't', ';'],
            gt@ == seq!['&', 'g', 't', ';'],
            i <= input@.len(),
            out@ + decoded(s.skip(i as int)) == decoded(s),
        decreases input@.len() - i,
    {
        let ghost before = out@;
        let ghost rest = s.skip(i as int);
        proof {
            lemma_stands_at_skip(s, amp@, i as int);
            lemma_stands_at_skip(s, lt@, i as int);
            lemma_stands_at_skip(s, gt@, i as int);
        }
        let (c, n): (char, usize) = if matches_at(input, i, &amp) {
            ('&', 5)
        } else if matches_at(input, i, &lt) {
            ('<', 4)
        } else if matches_at(input, i, &gt) {
            ('>', 4)
        } else {
            (input[i], 1)
        };
        out.push(c);
        assert(rest.skip(n as int) =~= s.skip(i + n));
        assert(rest.drop_first() =~= s.skip(i + 1));
        assert(before + (seq![c] + decoded(s.skip(i + n))) =~= out@ + decoded(s.skip(i + n)));
        i += n;
    }
    assert(out@ + decoded(s.skip(i as int)) =~= out@);
    out
}

// ── whole messages ───────────────────────────────────────────────────────────

/// One run, normalised. Code keeps its literal shape; only entities are decoded.
pub open spec fn run_text(
    run: Run,
    users: Map<Seq<char>, Seq<char>>,
    channels: Map<Seq<char>, Seq<char>>,
) -> Seq<char> {
    match run {
        Run::Code(raw) => decoded(raw),
        Run::Text(raw) => decoded(emphasis_text(refs_text(raw, users, channels))),
    }
}

/// `seen` with the users that one run mentions. Code mentions nobody.
pub open spec fn run_mentions(run: Run, seen: Seq<Seq<char>>) -> Seq<Seq<char>> {
    match run {
        Run::Code(_) => seen,
        Run::Text(raw) => refs_mentions(raw, seen),
    }
}

/// A sequence of runs, normalised.
pub open spec fn runs_text(
    rs: Seq<Run>,
    users: Map<Seq<char>, Seq<char>>,
    channels: Map<Seq<char>, Seq<char>>,
) -> Seq<char>
    decreases rs.len(),
{
    if rs.len() == 0 {
        seq![]
    } else {
        runs_text(rs.drop_last(), users, channels) + run_text(rs.last(), users, channels)
    }
}

/// The users that a sequence of runs mentions, each once, in order of first
/// appearance.
pub open spec fn runs_mentions(rs: Seq<Run>) -> Seq<Seq<char>>
    decreases rs.len(),
{
    if rs.len() == 0 {
        seq![]
    } else {
        run_mentions(rs.last(), runs_mentions(rs.drop_last()))
    }
}

/// The normalised text of a message.
pub open spec fn normal_text(
    s: Seq<char>,
    users: Map<Seq<char>, Seq<char>>,
    channels: Map<Seq<char>, Seq<char>>,
) -> Seq<char> {
    runs_text(runs(s, 0), users, channels)
}

/// The users a message mentions.
pub open spec fn normal_mentions(s: Seq<char>) -> Seq<Seq<char>> {
    runs_mentions(runs(s, 0))
}

/// Normalise one Slack message body.
pub fn normalize(input: &str, resolver: &Resolver) -> (r: Normalized)
    ensures
        r.text@ == normal_text(input@, resolver.users@, resolver.channels@),
        r.mentions.deep_view() == normal_mentions(input@),
{
    let ghost users = resolver.users@;
    let ghost channels = resolver.channels@;
    let segments = segment_code(&chars_of(input));
    let ghost rs = segments.deep_view();
    let mut mentions: Vec<String> = Vec::new();
    let mut out: Vec<char> = Vec::new();
    assert(mentions.deep_view() =~= seq![]);

    let mut i: usize = 0;
    while i < segments.len()
        invariant
            i <= segments@.len(),
            rs == segments.deep_view(),
            users == resolver.users@,
            channels == resolver.channels@,
            out@ == runs_text(rs.take(i as int), users, channels),
            mentions.deep_view() == runs_mentions(rs.take(i as int)),
        decreases segments@.len() - i,
    {
        let ghost upto = rs.take(i + 1);
        assert(upto.drop_last() =~= rs.take(i as int));
        assert(upto.last() == segments@[i as int].deep_view());
        match &segments[i] {
            Segment::Code(raw) => {
                push_all(&mut out, &decode_entities(raw));
            },
            Segment::Text(raw) => {
                let refs_expanded = expand_refs(raw, resolver, &mut mentions);
                let emphasised_text = convert_emphasis(&refs_expanded);
                push_all(&mut out, &decode_entities(&emphasised_text));
            },
        }
        i += 1;
    }
    assert(rs.take(i as int) =~= rs);
    let text = string_of(&out, 0, out.len());
    assert(text@ =~= out@);
    Normalized { text, mentions }
}

} // verus!
