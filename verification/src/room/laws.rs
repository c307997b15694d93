//! How much there is to count.

use vstd::prelude::*;

use crate::export::DayFile;
use crate::probe::laws::{all_reactors, lemma_reactors};
use crate::room::{bulk, held, weight_of};
use crate::slack::SlackMessage;

verus! {

/// What there is to count is every message, everyone who reacted to one and every
/// file; a day file that cannot be read is one more thing. Only so much can be held
/// as the machine has numbers for.
pub proof fn law_everything_weighs_one(
    ms: Seq<SlackMessage>,
    m: SlackMessage,
    days: Seq<DayFile>,
    day: DayFile,
    n: nat,
)
    ensures
        weight_of(seq![]) == 0,
        weight_of(ms.push(m)) == weight_of(ms) + 1 + all_reactors(m.reactions@) + m.files@.len(),
        bulk(seq![]) == 0,
        day.messages matches Some(v) ==> bulk(days.push(day)) == bulk(days) + weight_of(v@),
        day.messages is None ==> bulk(days.push(day)) == bulk(days) + 1,
        n <= usize::MAX ==> held(n) == Some(n as usize),
        n > usize::MAX ==> held(n) is None,
{
    assert(ms.push(m).drop_last() =~= ms);
    assert(days.push(day).drop_last() =~= days);
    lemma_reactors(m.reactions@);
}

} // verus!
