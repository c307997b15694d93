//! What holds of texts, whatever they are used for.

use vstd::prelude::*;

use crate::text::{
    blank, dec, digit, drop_cr, fold_eq, index_of, integer, lemma_index_of_is, lines, lt,
    numeral, pad_left, pad_right, split, strip_leading, trim_end, trim_start, trimmed, value,
    white,
};

verus! {

// ── blanks ───────────────────────────────────────────────────────────────────

/// Blanks are Unicode's white space: six control characters and the space of
/// ASCII, and no letter, digit or sign of it.
pub proof fn law_blanks_are_white_space(c: char)
    ensures
        (c as u32) < 128 ==> (white(c) <==> c == ' ' || c == '\t' || c == '\n' || c == '\r' || c
            == '\x0b' || c == '\x0c'),
        (c as u32) >= 128 ==> (white(c) <==> c == '\u{85}' || c == '\u{a0}' || c == '\u{1680}' || (
        '\u{2000}' <= c <= '\u{200a}') || c == '\u{2028}' || c == '\u{2029}' || c == '\u{202f}' || c
            == '\u{205f}' || c == '\u{3000}'),
{
}

/// Whether a text is made of blanks alone.
pub open spec fn all_white(s: Seq<char>) -> bool {
    forall|i: int| 0 <= i < s.len() ==> white(#[trigger] s[i])
}

/// Whether a text holds something and has no blanks around it.
pub open spec fn hugged(s: Seq<char>) -> bool {
    s.len() > 0 && !white(s[0]) && !white(s.last())
}

proof fn lemma_trim_start(s: Seq<char>) -> (n: int)
    ensures
        0 <= n <= s.len(),
        all_white(s.take(n)),
        trim_start(s) == s.skip(n),
        n < s.len() ==> !white(s[n]),
    decreases s.len(),
{
    if s.len() > 0 && white(s[0]) {
        let k = lemma_trim_start(s.drop_first());
        assert forall|i: int| 0 <= i < k + 1 implies white(#[trigger] s.take(k + 1)[i]) by {
            if i > 0 {
                assert(s.drop_first().take(k)[i - 1] == s[i]);
            }
        }
        assert(s.drop_first().skip(k) =~= s.skip(k + 1));
        k + 1
    } else {
        assert(s.skip(0) =~= s);
        0
    }
}

proof fn lemma_trim_end(s: Seq<char>) -> (n: int)
    ensures
        0 <= n <= s.len(),
        all_white(s.skip(n)),
        trim_end(s) == s.take(n),
        n > 0 ==> !white(s[n - 1]),
    decreases s.len(),
{
    if s.len() > 0 && white(s.last()) {
        let k = lemma_trim_end(s.drop_last());
        assert forall|i: int| 0 <= i < s.len() - k implies white(#[trigger] s.skip(k)[i]) by {
            if i < s.len() - k - 1 {
                assert(s.drop_last().skip(k)[i] == s[k + i]);
            }
        }
        assert(s.drop_last().take(k) =~= s.take(k));
        k
    } else {
        assert(s.take(s.len() as int) =~= s);
        s.len() as int
    }
}

/// Trimming takes the blanks off both ends and nothing else.
pub proof fn law_trimming_takes_off_blanks(a: Seq<char>, s: Seq<char>, b: Seq<char>)
    requires
        all_white(a),
        all_white(b),
        hugged(s) || s.len() == 0,
    ensures
        trimmed(a + s + b) == s,
{
    let t = a + s + b;
    let n = lemma_trim_start(t);
    if s.len() > 0 {
        if n > a.len() {
            assert(t.take(n)[a.len() as int] == s[0]);
        }
        if n < a.len() {
            assert(t[n] == a[n]);
        }
        let u = t.skip(n);
        assert(u =~= s + b);
        let k = lemma_trim_end(u);
        if k < s.len() {
            assert(u.skip(k)[s.len() - 1 - k] == s.last());
        }
        if k > s.len() {
            assert(u[k - 1] == b[k - 1 - s.len()]);
        }
        assert(u.take(k) =~= s);
    } else {
        if n < t.len() {
            if n < a.len() {
                assert(t[n] == a[n]);
            } else {
                assert(t[n] == b[n - a.len()]);
            }
        }
        assert(t.skip(n) =~= seq![]);
        assert(trimmed(t) =~= s);
    }
}

/// Every text is what trimming leaves, between blanks.
pub proof fn law_trimming_leaves_no_blanks_around(s: Seq<char>) -> (r: (Seq<char>, Seq<char>))
    ensures
        all_white(r.0),
        all_white(r.1),
        s == r.0 + trimmed(s) + r.1,
        trimmed(s).len() > 0 ==> hugged(trimmed(s)),
{
    let n = lemma_trim_start(s);
    let u = s.skip(n);
    let k = lemma_trim_end(u);
    let t = u.take(k);
    assert(s =~= s.take(n) + t + u.skip(k));
    if k > 0 {
        assert(t[0] == s[n]);
        assert(t.last() == u[k - 1]);
    }
    (s.take(n), u.skip(k))
}

/// A blank text is one of blanks alone.
pub proof fn law_blank_text(s: Seq<char>)
    ensures
        blank(s) <==> all_white(s),
{
    let (a, b) = law_trimming_leaves_no_blanks_around(s);
    if blank(s) {
        assert(s =~= a + b);
        assert forall|i: int| 0 <= i < s.len() implies white(#[trigger] s[i]) by {
            if i < a.len() {
                assert(s[i] == a[i]);
            } else {
                assert(s[i] == b[i - a.len()]);
            }
        }
    } else {
        let t = trimmed(s);
        assert(s[a.len() as int] == t[0]);
    }
}

/// Leading marks are dropped, all of them, and nothing else.
pub proof fn law_leading_marks_are_dropped(c: char, n: nat, s: Seq<char>)
    requires
        s.len() > 0 ==> s[0] != c,
    ensures
        strip_leading(Seq::new(n, |i: int| c) + s, c) == s,
    decreases n,
{
    let t = Seq::new(n, |i: int| c) + s;
    if n == 0 {
        assert(t =~= s);
    } else {
        law_leading_marks_are_dropped(c, (n - 1) as nat, s);
        assert(t.drop_first() =~= Seq::new((n - 1) as nat, |i: int| c) + s);
    }
}

// ── comparing ────────────────────────────────────────────────────────────────

/// Whether one character is the other in the other case, both being letters of
/// the ASCII alphabet.
pub open spec fn other_case(a: char, b: char) -> bool {
    ||| 'a' <= a <= 'z' && b as int == a as int - 32
    ||| 'A' <= a <= 'Z' && b as int == a as int + 32
}

/// Whether two texts differ in nothing but the case of ASCII letters.
pub open spec fn same_letters(a: Seq<char>, b: Seq<char>) -> bool {
    a.len() == b.len() && forall|i: int|
        0 <= i < a.len() ==> #[trigger] a[i] == b[i] || other_case(a[i], b[i])
}

/// Comparing without regard to case lets ASCII letters differ in case, and
/// nothing else.
pub proof fn law_case_is_that_of_ascii(a: Seq<char>, b: Seq<char>)
    ensures
        fold_eq(a, b) <==> same_letters(a, b),
{
    if fold_eq(a, b) {
        assert forall|i: int| 0 <= i < a.len() implies #[trigger] a[i] == b[i] || other_case(
            a[i],
            b[i],
        ) by {
            assert(crate::text::lower(a[i]) == crate::text::lower(b[i]));
            lemma_lower(a[i]);
            lemma_lower(b[i]);
        }
    }
    if same_letters(a, b) {
        assert forall|i: int| 0 <= i < a.len() implies crate::text::lower(#[trigger] a[i])
            == crate::text::lower(b[i]) by {
            lemma_lower(a[i]);
            lemma_lower(b[i]);
        }
    }
}

proof fn lemma_lower(c: char)
    ensures
        'A' <= c <= 'Z' ==> crate::text::lower(c) as int == c as int + 32,
        !('A' <= c <= 'Z') ==> crate::text::lower(c) == c,
{
}

/// One text sorts before another where it is a beginning of it, or where it has
/// the lesser character at the first place they differ.
pub proof fn law_texts_sort_by_first_difference(
    common: Seq<char>,
    a: Seq<char>,
    b: Seq<char>,
)
    requires
        a.len() == 0 || b.len() == 0 || a[0] != b[0],
    ensures
        lt(common + a, common + b) <==> b.len() > 0 && (a.len() == 0 || a[0] < b[0]),
    decreases common.len(),
{
    if common.len() == 0 {
        assert(common + a =~= a);
        assert(common + b =~= b);
    } else {
        law_texts_sort_by_first_difference(common.drop_first(), a, b);
        assert((common + a).drop_first() =~= common.drop_first() + a);
        assert((common + b).drop_first() =~= common.drop_first() + b);
    }
}

// ── numbers ──────────────────────────────────────────────────────────────────

/// A number is written with its digits, the units last and no zero ahead.
pub proof fn law_numbers_are_written_in_decimal(n: nat, d: nat)
    requires
        d < 10,
    ensures
        dec(0) == seq!['0'] && dec(1) == seq!['1'] && dec(2) == seq!['2'] && dec(3) == seq!['3']
            && dec(4) == seq!['4'] && dec(5) == seq!['5'] && dec(6) == seq!['6'] && dec(7)
            == seq!['7'] && dec(8) == seq!['8'] && dec(9) == seq!['9'],
        n > 0 ==> dec(10 * n + d) == dec(n) + dec(d),
{
    if n > 0 {
        assert((10 * n + d) / 10 == n);
        assert((10 * n + d) % 10 == d);
        assert(dec(n).push(digit(d as int)) =~= dec(n) + dec(d));
    }
}

proof fn lemma_dec_value(n: nat)
    ensures
        numeral(dec(n)),
        value(dec(n)) == n,
    decreases n,
{
    reveal_with_fuel(value, 2);
    if n < 10 {
        assert(dec(n).drop_last() =~= seq![]);
    } else {
        lemma_dec_value(n / 10);
        assert(dec(n).drop_last() =~= dec(n / 10));
        assert forall|i: int| 0 <= i < dec(n).len() implies crate::text::is_digit(
            #[trigger] dec(n)[i],
        ) by {
            if i < dec(n / 10).len() {
                assert(dec(n)[i] == dec(n / 10)[i]);
            }
        }
    }
}

/// A numeral reads as the number it writes, also behind a sign.
pub proof fn law_numbers_are_read_back(n: nat)
    ensures
        value(dec(n)) == n,
        n <= i64::MAX ==> integer(dec(n)) == Some(n as i64) && integer(seq!['+'] + dec(n)) == Some(
            n as i64,
        ) && integer(seq!['-'] + dec(n)) == Some((-n) as i64),
        n > i64::MAX ==> integer(dec(n)) is None,
{
    lemma_dec_value(n);
    let d = dec(n);
    assert(d.len() > 0);
    assert(crate::text::is_digit(d[0]));
    assert((seq!['+'] + d).drop_first() =~= d);
    assert((seq!['-'] + d).drop_first() =~= d);
}

/// What holds anything but digits behind an optional sign is no number.
pub proof fn law_other_texts_are_no_numbers(s: Seq<char>, i: int)
    requires
        0 <= i < s.len(),
        !('0' <= s[i] <= '9'),
        i > 0 || (s[0] != '-' && s[0] != '+'),
    ensures
        integer(s) is None,
{
    if i > 0 {
        assert(s.drop_first()[i - 1] == s[i]);
    }
}

/// Padding fills a text up to a width with one character, on the one side or the
/// other, and cuts nothing off.
pub proof fn law_padding_fills_up(s: Seq<char>, c: char, width: nat)
    ensures
        s.len() >= width ==> pad_left(s, c, width) == s && pad_right(s, width) == s,
        s.len() < width ==> {
            let (l, r) = (pad_left(s, c, width), pad_right(s, width));
            &&& l.len() == width && r.len() == width
            &&& l.skip(width - s.len()) == s && r.take(s.len() as int) == s
            &&& forall|i: int| 0 <= i < width - s.len() ==> #[trigger] l[i] == c
            &&& forall|i: int| s.len() <= i < width ==> #[trigger] r[i] == ' '
        },
{
    if s.len() < width {
        assert(pad_left(s, c, width).skip(width - s.len()) =~= s);
        assert(pad_right(s, width).take(s.len() as int) =~= s);
    }
}

/// Whether a text stands in another.
pub open spec fn has_part(s: Seq<char>, part: Seq<char>) -> bool {
    exists|a: Seq<char>, b: Seq<char>| s == #[trigger] (a + part + b)
}

// ── pieces ───────────────────────────────────────────────────────────────────

/// Pieces with a separator between them.
pub open spec fn with_between(pieces: Seq<Seq<char>>, c: char) -> Seq<char>
    decreases pieces.len(),
{
    if pieces.len() == 0 {
        seq![]
    } else if pieces.len() == 1 {
        pieces[0]
    } else {
        pieces[0] + seq![c] + with_between(pieces.drop_first(), c)
    }
}

/// Whether no piece holds a character.
pub open spec fn none_holds(pieces: Seq<Seq<char>>, c: char) -> bool {
    forall|i: int| 0 <= i < pieces.len() ==> !(#[trigger] pieces[i]).contains(c)
}

proof fn lemma_first_piece(p: Seq<char>, c: char, rest: Seq<char>)
    requires
        !p.contains(c),
    ensures
        index_of(p, c) == p.len(),
        index_of(p + seq![c] + rest, c) == p.len(),
        (p + seq![c] + rest).take(p.len() as int) == p,
        (p + seq![c] + rest).skip(p.len() as int + 1) == rest,
{
    let s = p + seq![c] + rest;
    assert forall|k: int| 0 <= k < p.len() implies p[k] != c by {
        assert(p.contains(p[k]));
    }
    lemma_index_of_is(p, c, p.len() as int);
    assert forall|k: int| 0 <= k < p.len() implies s[k] != c by {
        assert(s[k] == p[k]);
    }
    assert(s[p.len() as int] == c);
    lemma_index_of_is(s, c, p.len() as int);
    assert(s.take(p.len() as int) =~= p);
    assert(s.skip(p.len() as int + 1) =~= rest);
}

/// Splitting undoes putting separators between pieces.
pub proof fn law_splitting_gives_the_pieces(pieces: Seq<Seq<char>>, c: char)
    requires
        pieces.len() > 0,
        none_holds(pieces, c),
    ensures
        split(with_between(pieces, c), c) == pieces,
    decreases pieces.len(),
{
    let s = with_between(pieces, c);
    assert(!pieces[0].contains(c));
    if pieces.len() == 1 {
        lemma_first_piece(pieces[0], c, seq![]);
        assert(split(s, c) =~= pieces);
    } else {
        let rest = pieces.drop_first();
        assert forall|i: int| 0 <= i < rest.len() implies !(#[trigger] rest[i]).contains(c) by {
            assert(rest[i] == pieces[i + 1]);
        }
        law_splitting_gives_the_pieces(rest, c);
        lemma_first_piece(pieces[0], c, with_between(rest, c));
        assert(seq![pieces[0]] + rest =~= pieces);
    }
}

/// Lines, each with a line break behind it.
pub open spec fn with_breaks(pieces: Seq<Seq<char>>, end: Seq<char>) -> Seq<char>
    decreases pieces.len(),
{
    if pieces.len() == 0 {
        seq![]
    } else {
        pieces[0] + end + with_breaks(pieces.drop_first(), end)
    }
}

/// Reading lines undoes writing them, whether they end in `\n` or in `\r\n`, and
/// whether or not the last one ends at all.
pub proof fn law_lines_are_read_back(pieces: Seq<Seq<char>>, crlf: bool, last: Seq<char>)
    requires
        none_holds(pieces, '\n'),
        forall|i: int|
            0 <= i < pieces.len() ==> ((#[trigger] pieces[i]).len() == 0 || pieces[i].last()
                != '\r'),
        !last.contains('\n'),
    ensures
        lines(
            with_breaks(
                pieces,
                if crlf {
                    seq!['\r', '\n']
                } else {
                    seq!['\n']
                },
            ) + last,
        ) == if last.len() > 0 {
            pieces.push(last)
        } else {
            pieces
        },
    decreases pieces.len(),
{
    let end = if crlf {
        seq!['\r', '\n']
    } else {
        seq!['\n']
    };
    let s = with_breaks(pieces, end) + last;
    if pieces.len() == 0 {
        assert(s =~= last);
        if last.len() > 0 {
            assert forall|k: int| 0 <= k < last.len() implies last[k] != '\n' by {
                assert(last.contains(last[k]));
            }
            lemma_index_of_is(last, '\n', last.len() as int);
            assert(lines(s) =~= pieces.push(last));
        } else {
            assert(lines(s) =~= pieces);
        }
    } else {
        let p = pieces[0];
        let rest = pieces.drop_first();
        let tail = with_breaks(rest, end) + last;
        assert forall|i: int| 0 <= i < rest.len() implies !(#[trigger] rest[i]).contains('\n') && (
        rest[i].len() == 0 || rest[i].last() != '\r') by {
            assert(rest[i] == pieces[i + 1]);
        }
        law_lines_are_read_back(rest, crlf, last);
        assert(!p.contains('\n'));
        assert(p.len() == 0 || p.last() != '\r');
        let q = if crlf {
            p.push('\r')
        } else {
            p
        };
        assert forall|x: int| 0 <= x < q.len() implies q[x] != '\n' by {
            if x < p.len() {
                assert(p.contains(p[x]));
            }
        }
        assert(!q.contains('\n'));
        lemma_first_piece(q, '\n', tail);
        assert(s =~= q + seq!['\n'] + tail);
        assert(drop_cr(q) =~= p);
        if last.len() > 0 {
            assert(seq![p] + rest.push(last) =~= pieces.push(last));
        } else {
            assert(seq![p] + rest =~= pieces);
        }
    }
}

} // verus!
