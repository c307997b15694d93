//! What kinds, threads and timestamps come to.

use vstd::prelude::*;

use crate::ir::{ts_secs, ChannelKind, MessageModel};
use crate::text::laws::law_numbers_are_read_back;
use crate::text::{dec, index_of, lemma_index_of};

verus! {

/// Each kind of conversation has its word, and no two share one. All but public
/// channels are private.
pub proof fn law_kinds_have_words(k: ChannelKind)
    ensures
        k is Public <==> k.word() == "public"@,
        k is Private <==> k.word() == "private"@,
        k is Dm <==> k.word() == "dm"@,
        k is GroupDm <==> k.word() == "group_dm"@,
        k.private() <==> k.word() == "private"@ || k.word() == "dm"@ || k.word() == "group_dm"@,
{
    reveal_strlit("public");
    reveal_strlit("private");
    reveal_strlit("dm");
    reveal_strlit("group_dm");
    assert("public"@.len() == 6 && "private"@.len() == 7 && "dm"@.len() == 2 && "group_dm"@.len()
        == 8);
}

/// A message starts a thread where the thread is named by its own `ts`, and answers
/// in one where it is named by another.
pub proof fn law_threads_are_named_by_their_root(m: MessageModel, ts: Seq<char>)
    ensures
        m.thread_ts is None ==> !m.thread_root() && !m.thread_reply(),
        m.thread_ts == Some(ts) && ts == m.slack_ts ==> m.thread_root() && !m.thread_reply(),
        m.thread_ts == Some(ts) && ts != m.slack_ts ==> !m.thread_root() && m.thread_reply(),
{
}

proof fn lemma_dec_has_no_dot(n: nat, i: int)
    requires
        0 <= i < dec(n).len(),
    ensures
        dec(n)[i] != '.',
    decreases n,
{
    if n >= 10 && i < dec(n).len() - 1 {
        assert(dec(n)[i] == dec(n / 10)[i]);
        lemma_dec_has_no_dot(n / 10, i);
    }
}

/// A timestamp says the seconds ahead of its dot, whatever stands behind it, or
/// without one. Where something else stands ahead of the dot, it says nothing.
pub proof fn law_timestamps_say_their_seconds(n: nat, fraction: Seq<char>)
    requires
        n <= i64::MAX,
    ensures
        ts_secs(dec(n) + seq!['.'] + fraction) == Some(n as i64),
        ts_secs(dec(n)) == Some(n as i64),
        ts_secs(seq!['-'] + dec(n) + seq!['.'] + fraction) == Some((-n) as i64),
        ts_secs(seq!['.'] + fraction) is None,
        ts_secs(seq![]) is None,
{
    law_numbers_are_read_back(n);
    let d = dec(n);
    lemma_ahead_of_dot(d, fraction, n);
    lemma_whole(d, n);
    let m = seq!['-'] + d;
    let s = m + seq!['.'] + fraction;
    lemma_index_of(s, '.');
    let k = index_of(s, '.');
    assert(s[m.len() as int] == '.');
    if k < m.len() {
        assert(s[k] == m[k]);
        if k > 0 {
            lemma_dec_has_no_dot(n, k - 1);
        }
    }
    assert(s.take(k) =~= m);
    let e = seq!['.'] + fraction;
    lemma_index_of(e, '.');
    assert(e[0] == '.');
    assert(index_of(e, '.') == 0);
    assert(e.take(0) =~= seq![]);
    let none = Seq::<char>::empty();
    lemma_index_of(none, '.');
    assert(none.take(0) =~= none);
}

proof fn lemma_ahead_of_dot(d: Seq<char>, fraction: Seq<char>, n: nat)
    requires
        d == dec(n),
    ensures
        (d + seq!['.'] + fraction).take(index_of(d + seq!['.'] + fraction, '.')) == d,
{
    let s = d + seq!['.'] + fraction;
    lemma_index_of(s, '.');
    let k = index_of(s, '.');
    assert(s[d.len() as int] == '.');
    if k < d.len() {
        assert(s[k] == d[k]);
        lemma_dec_has_no_dot(n, k);
    }
    assert(s.take(k) =~= d);
}

proof fn lemma_whole(d: Seq<char>, n: nat)
    requires
        d == dec(n),
    ensures
        d.take(index_of(d, '.')) == d,
{
    lemma_index_of(d, '.');
    let k = index_of(d, '.');
    if k < d.len() {
        lemma_dec_has_no_dot(n, k);
    }
    assert(d.take(k) =~= d);
}

} // verus!
