//! Whether what was read can be counted.
//!
//! Counts are machine integers. What they are asked to count is bounded by the
//! weight of the day files, which is easy to add up; where that fits, every count
//! does.

use vstd::prelude::*;

use crate::export::{DayFile, Export};
use crate::ir::CountsModel;
use crate::order::lemma_order_exists;
use crate::parse::laws::lemma_in_order_inserts;
use crate::parse::{
    gathered, in_order, lookup, moments, scene, unparsed, with_conversation, with_message,
    with_messages, Options, Scene,
};
use crate::probe::{
    counted, lemma_known_files, lemma_reactors_grow, lemma_sum_grows, no_figures, reactors, sum_of,
    with_day, with_days, within, ConversationSummary, Figures, Inventory,
};
use crate::slack::SlackMessage;
use crate::tally::count_in;
use crate::{parse, probe};

pub mod laws;

verus! {

// ── weights ──────────────────────────────────────────────────────────────────

/// The most that a message adds to any one count.
pub open spec fn weight(m: SlackMessage) -> nat {
    1 + reactors(m.reactions@) + m.files@.len()
}

pub open spec fn weight_of(ms: Seq<SlackMessage>) -> nat
    decreases ms.len(),
{
    if ms.len() == 0 {
        0
    } else {
        weight_of(ms.drop_last()) + weight(ms.last())
    }
}

/// The most that a day file adds to any one count.
pub open spec fn day_weight(messages: Option<Vec<SlackMessage>>) -> nat {
    match messages {
        Some(ms) => weight_of(ms@),
        None => 1,
    }
}

/// The most that all day files add to any one count.
pub open spec fn bulk(days: Seq<DayFile>) -> nat
    decreases days.len(),
{
    if days.len() == 0 {
        0
    } else {
        bulk(days.drop_last()) + day_weight(days.last().messages)
    }
}

/// A number, where the machine can hold it.
pub open spec fn held(n: nat) -> Option<usize> {
    if n <= usize::MAX {
        Some(n as usize)
    } else {
        None
    }
}

proof fn lemma_weight_grows(ms: Seq<SlackMessage>, i: int)
    requires
        0 <= i <= ms.len(),
    ensures
        weight_of(ms.take(i)) <= weight_of(ms),
    decreases ms.len(),
{
    if i < ms.len() {
        lemma_weight_grows(ms.drop_last(), i);
        assert(ms.drop_last().take(i) =~= ms.take(i));
    } else {
        assert(ms.take(i) =~= ms);
    }
}

proof fn lemma_bulk_grows(days: Seq<DayFile>, i: int)
    requires
        0 <= i <= days.len(),
    ensures
        bulk(days.take(i)) <= bulk(days),
    decreases days.len(),
{
    if i < days.len() {
        lemma_bulk_grows(days.drop_last(), i);
        assert(days.drop_last().take(i) =~= days.take(i));
    } else {
        assert(days.take(i) =~= days);
    }
}

fn weigh_message(m: &SlackMessage) -> (r: Option<usize>)
    ensures
        r == held(weight(*m)),
{
    let rs = &m.reactions;
    let mut n: usize = 0;
    let mut i: usize = 0;
    while i < rs.len()
        invariant
            i <= rs@.len(),
            rs@ == m.reactions@,
            n == reactors(rs@.take(i as int)),
        decreases rs@.len() - i,
    {
        proof {
            assert(rs@.take(i + 1).drop_last() =~= rs@.take(i as int));
            lemma_reactors_grow(rs@, i + 1);
        }
        n = match n.checked_add(rs[i].users.len()) {
            Some(n) => n,
            None => return None,
        };
        i += 1;
    }
    assert(rs@.take(i as int) =~= rs@);
    match n.checked_add(m.files.len()) {
        Some(n) => n.checked_add(1),
        None => None,
    }
}

/// The most that a day file adds to any one count; nothing where the machine
/// cannot hold it.
pub fn weigh_day(messages: &Option<Vec<SlackMessage>>) -> (r: Option<usize>)
    ensures
        r == held(day_weight(*messages)),
{
    match messages {
        None => Some(1),
        Some(ms) => {
            let mut n: usize = 0;
            let mut i: usize = 0;
            while i < ms.len()
                invariant
                    i <= ms@.len(),
                    day_weight(*messages) == weight_of(ms@),
                    n == weight_of(ms@.take(i as int)),
                decreases ms@.len() - i,
            {
                proof {
                    assert(ms@.take(i + 1).drop_last() =~= ms@.take(i as int));
                    lemma_weight_grows(ms@, i + 1);
                }
                let more: usize = match weigh_message(&ms[i]) {
                    Some(more) => more,
                    None => return None,
                };
                n = match n.checked_add(more) {
                    Some(n) => n,
                    None => return None,
                };
                i += 1;
            }
            assert(ms@.take(i as int) =~= ms@);
            Some(n)
        },
    }
}

/// The most that all day files add to any one count; nothing where the machine
/// cannot hold it.
pub fn weigh(days: &Vec<DayFile>) -> (r: Option<usize>)
    ensures
        r == held(bulk(days@)),
{
    let mut n: usize = 0;
    let mut i: usize = 0;
    while i < days.len()
        invariant
            i <= days@.len(),
            n == bulk(days@.take(i as int)),
        decreases days@.len() - i,
    {
        proof {
            assert(days@.take(i + 1).drop_last() =~= days@.take(i as int));
            lemma_bulk_grows(days@, i + 1);
        }
        let more: usize = match weigh_day(&days[i].messages) {
            Some(more) => more,
            None => return None,
        };
        n = match n.checked_add(more) {
            Some(n) => n,
            None => return None,
        };
        i += 1;
    }
    assert(days@.take(i as int) =~= days@);
    Some(n)
}

// ── probing ──────────────────────────────────────────────────────────────────

/// The figures, each with `n` more.
pub open spec fn raised(f: Figures, n: nat) -> Figures {
    Figures {
        messages: f.messages + n,
        replies: f.replies + n,
        reactions: f.reactions + n,
        files: f.files + n,
        dropped: f.dropped + n,
        skipped: f.skipped + n,
        ..f
    }
}

proof fn lemma_messages_weigh(f: Figures, ms: Seq<SlackMessage>, keep_joins: bool)
    ensures
        within(probe::with_messages(f, ms, keep_joins), raised(f, weight_of(ms))),
    decreases ms.len(),
{
    if ms.len() > 0 {
        lemma_messages_weigh(f, ms.drop_last(), keep_joins);
        lemma_known_files(ms.last().files@);
    }
}

proof fn lemma_days_weigh(f: Figures, days: Seq<DayFile>, dir: Seq<char>, keep_joins: bool)
    ensures
        within(with_days(f, days, dir, keep_joins), raised(f, bulk(days))),
    decreases days.len(),
{
    if days.len() > 0 {
        let front = days.drop_last();
        lemma_days_weigh(f, front, dir, keep_joins);
        if let Some(ms) = days.last().messages {
            lemma_messages_weigh(with_days(f, front, dir, keep_joins), ms@, keep_joins);
        }
    }
}

/// Whether a summary has room for a day file: [`probe::tally_day`] can count it.
pub fn has_room(
    summary: &ConversationSummary,
    messages: &Option<Vec<SlackMessage>>,
    keep_joins: bool,
) -> (r: bool)
    ensures
        r == probe::countable(raised(summary.figures(), day_weight(*messages))),
        r ==> probe::countable(with_day(summary.figures(), *messages, keep_joins)),
{
    proof {
        if let Some(ms) = messages {
            lemma_messages_weigh(summary.figures(), ms@, keep_joins);
        }
    }
    let n: usize = match weigh_day(messages) {
        Some(n) => n,
        None => return false,
    };
    let most: usize = usize::MAX - n;
    summary.message_count <= most && summary.thread_reply_count <= most && summary.reaction_count
        <= most && summary.file_count <= most && summary.dropped_joins <= most
        && summary.skipped_unparseable <= most
}

/// Nothing is counted yet in what the manifests list.
proof fn lemma_listed_counts_nothing(export: Export, i: int)
    requires
        0 <= i < export.listed().len(),
    ensures
        export.listed()[i].figures == no_figures(),
{
}

/// Whether an export can be counted: [`probe::probe`] can walk it, keeping joins
/// or not.
pub fn can_probe(export: &Export) -> (r: bool)
    ensures
        r == (bulk(export.days@) <= usize::MAX),
        r ==> export.countable(true) && export.countable(false),
{
    proof {
        assert forall|keep_joins: bool, i: int|
            0 <= i < export.listed().len() && bulk(export.days@) <= usize::MAX implies probe::countable(
            (#[trigger] counted(export.listed()[i], export.days@, keep_joins)).figures,
        ) by {
            lemma_listed_counts_nothing(*export, i);
            if let Some(dir) = export.listed()[i].dir {
                lemma_days_weigh(no_figures(), export.days@, dir, keep_joins);
            }
        }
    }
    weigh(&export.days).is_some()
}

/// Whether the messages of an inventory can be added up:
/// [`Inventory::total_messages`] can.
pub fn can_total(inventory: &Inventory) -> (r: bool)
    ensures
        r == (sum_of(inventory.models(), |f: Figures| f.messages) <= usize::MAX),
{
    let ghost cs = inventory.models();
    let ghost f = |f: Figures| f.messages;
    let mut total: usize = 0;
    let mut i: usize = 0;
    while i < inventory.conversations.len()
        invariant
            i <= inventory.conversations@.len(),
            cs == inventory.models(),
            f == (|f: Figures| f.messages),
            total == sum_of(cs.take(i as int), f),
        decreases inventory.conversations@.len() - i,
    {
        proof {
            assert(cs.take(i + 1).drop_last() =~= cs.take(i as int));
            lemma_sum_grows(cs, f, i + 1);
        }
        total = match total.checked_add(inventory.conversations[i].message_count) {
            Some(total) => total,
            None => return false,
        };
        i += 1;
    }
    assert(cs.take(i as int) =~= cs);
    true
}

// ── parsing ──────────────────────────────────────────────────────────────────

/// Whether `b` counts no more than `n` beyond what `a` does, users, channels and
/// emoji aside.
spec fn near(a: CountsModel, b: CountsModel, n: nat) -> bool {
    &&& b.messages <= a.messages + n
    &&& b.thread_replies <= a.thread_replies + n
    &&& b.reactions <= a.reactions + n
    &&& b.files <= a.files + n
    &&& b.dropped_joins <= a.dropped_joins + n
    &&& b.skipped_unparseable <= a.skipped_unparseable + n
    &&& b.users == a.users
    &&& b.emoji == a.emoji
    &&& forall|name: Seq<char>| #[trigger]
        count_in(b.unknown_subtypes, name) <= count_in(a.unknown_subtypes, name) + n
}

proof fn lemma_near_twice(a: CountsModel, b: CountsModel, c: CountsModel, m: nat, n: nat)
    requires
        near(a, b, m),
        near(b, c, n),
    ensures
        near(a, c, m + n),
{
    assert forall|name: Seq<char>| #[trigger]
        count_in(c.unknown_subtypes, name) <= count_in(a.unknown_subtypes, name) + (m + n) by {
        assert(count_in(b.unknown_subtypes, name) <= count_in(a.unknown_subtypes, name) + m);
    }
}

proof fn lemma_counts_weigh(c: CountsModel, ms: Seq<SlackMessage>, keep_joins: bool)
    ensures
        near(c, with_messages(c, ms, keep_joins), weight_of(ms)),
        with_messages(c, ms, keep_joins).channels == c.channels,
    decreases ms.len(),
{
    if ms.len() > 0 {
        let mid = with_messages(c, ms.drop_last(), keep_joins);
        let m = ms.last();
        lemma_counts_weigh(c, ms.drop_last(), keep_joins);
        lemma_known_files(m.files@);
        assert(near(mid, with_message(mid, m, keep_joins), weight(m)));
        lemma_near_twice(
            c,
            mid,
            with_messages(c, ms, keep_joins),
            weight_of(ms.drop_last()),
            weight(m),
        );
    }
}

proof fn lemma_weight_add(a: Seq<SlackMessage>, b: Seq<SlackMessage>)
    ensures
        weight_of(a + b) == weight_of(a) + weight_of(b),
    decreases b.len(),
{
    if b.len() == 0 {
        assert(a + b =~= a);
    } else {
        assert((a + b).drop_last() =~= a + b.drop_last());
        lemma_weight_add(a, b.drop_last());
    }
}

proof fn lemma_weight_insert(ms: Seq<SlackMessage>, i: int, m: SlackMessage)
    requires
        0 <= i <= ms.len(),
    ensures
        weight_of(ms.insert(i, m)) == weight_of(ms) + weight(m),
{
    reveal_with_fuel(weight_of, 2);
    assert(ms.insert(i, m) =~= ms.take(i) + seq![m] + ms.skip(i));
    assert(ms =~= ms.take(i) + ms.skip(i));
    lemma_weight_add(ms.take(i) + seq![m], ms.skip(i));
    lemma_weight_add(ms.take(i), seq![m]);
    lemma_weight_add(ms.take(i), ms.skip(i));
    assert(seq![m].drop_last() =~= seq![]);
}

proof fn lemma_weight_in_order(ms: Seq<SlackMessage>)
    ensures
        weight_of(in_order(ms)) == weight_of(ms),
    decreases ms.len(),
{
    if ms.len() == 0 {
        lemma_order_exists(moments(ms));
        assert(in_order(ms) =~= ms);
    } else {
        let front = ms.drop_last();
        lemma_weight_in_order(front);
        let at = lemma_in_order_inserts(ms);
        lemma_weight_insert(in_order(front), at, ms.last());
    }
}

proof fn lemma_gathered_weighs(days: Seq<DayFile>, dir: Seq<char>)
    ensures
        weight_of(gathered(days, dir)) + unparsed(days, dir) <= bulk(days),
    decreases days.len(),
{
    if days.len() > 0 {
        let front = days.drop_last();
        lemma_gathered_weighs(front, dir);
        if let Some(ms) = days.last().messages {
            lemma_weight_add(gathered(front, dir), ms@);
        }
    }
}

proof fn lemma_conversation_weighs(
    c: CountsModel,
    days: Seq<DayFile>,
    dir: Seq<char>,
    keep_joins: bool,
)
    ensures
        near(c, with_conversation(c, days, dir, keep_joins), bulk(days)),
        with_conversation(c, days, dir, keep_joins).channels == c.channels,
{
    let mid = CountsModel {
        skipped_unparseable: c.skipped_unparseable + unparsed(days, dir),
        ..c
    };
    let ms = gathered(days, dir);
    lemma_counts_weigh(mid, in_order(ms), keep_joins);
    lemma_weight_in_order(ms);
    lemma_gathered_weighs(days, dir);
    lemma_near_twice(
        c,
        mid,
        with_conversation(c, days, dir, keep_joins),
        unparsed(days, dir),
        weight_of(ms),
    );
}

proof fn lemma_channels_weigh(s: Scene, c: CountsModel, selected: Seq<Seq<char>>)
    ensures
        near(c, s.with_channels(c, selected), bulk(s.days) * selected.len()),
        s.with_channels(c, selected).channels <= c.channels + selected.len(),
    decreases selected.len(),
{
    if selected.len() > 0 {
        let front = selected.drop_last();
        lemma_channels_weigh(s, c, front);
        let mid = s.with_channels(c, front);
        let end = s.with_channels(c, selected);
        let n = bulk(s.days);
        assert(n * selected.len() == n * front.len() + n) by (nonlinear_arith)
            requires
                selected.len() == front.len() + 1,
        ;
        if let Some(x) = lookup(s.conversations, selected.last()) {
            let listed = CountsModel { channels: mid.channels + 1, ..mid };
            if let Some(dir) = x.dir {
                lemma_conversation_weighs(listed, s.days, dir, s.keep_joins);
                assert(near(mid, end, n));
            }
        }
        assert(near(mid, end, n));
        lemma_near_twice(c, mid, end, n * front.len(), n);
    } else {
        assert(bulk(s.days) * selected.len() == 0) by (nonlinear_arith)
            requires
                selected.len() == 0,
        ;
    }
}

/// Whether an import can be counted: [`parse::parse`] can make it. Each selected
/// conversation adds no more than all day files together weigh.
pub fn can_parse(
    export: &Export,
    inventory: &Inventory,
    selected: &Vec<String>,
    options: &Options,
) -> (r: bool)
    ensures
        r == (bulk(export.days@) * selected@.len() <= usize::MAX),
        r ==> parse::countable(
            scene(*export, *inventory, *options).figures(selected.deep_view()),
        ),
{
    let ghost s = scene(*export, *inventory, *options);
    let ghost n = bulk(export.days@);
    proof {
        let c = CountsModel { users: s.users.len(), ..crate::ir::no_counts() };
        assert(inventory.users.len() == s.users.len());
        assert(selected.len() == selected.deep_view().len());
        lemma_channels_weigh(s, c, selected.deep_view());
        let end = s.figures(selected.deep_view());
        if n * selected@.len() <= usize::MAX {
            assert forall|name: Seq<char>| #[trigger]
                count_in(end.unknown_subtypes, name) <= usize::MAX by {
                assert(count_in(c.unknown_subtypes, name) == 0);
            }
        }
    }
    if selected.len() == 0 {
        proof {
            assert(n * selected@.len() == 0) by (nonlinear_arith)
                requires
                    selected@.len() == 0,
            ;
        }
        return true;
    }
    match weigh(&export.days) {
        Some(total) => total.checked_mul(selected.len()).is_some(),
        None => {
            proof {
                assert(n * selected@.len() >= n) by (nonlinear_arith)
                    requires
                        selected@.len() >= 1,
                ;
            }
            false
        },
    }
}

} // verus!
