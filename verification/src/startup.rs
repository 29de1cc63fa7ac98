//! The symbols that have workers of their own, and the records that they get.
use vstd::prelude::*;

use crate::config::{Market, MAX_COINS};
use crate::slots::Slots;
use crate::text::{same_text, texts};

verus! {

/// The market of that name, if there is one.
pub open spec fn market_of(name: Seq<char>) -> Option<Market> {
    if name == "FUTURES"@ {
        Some(Market::Futures)
    } else if name == "SPOT"@ {
        Some(Market::Spot)
    } else {
        None
    }
}

/// A list of symbols and the names of their markets, as texts.
pub open spec fn pairs_view(list: Seq<(String, String)>) -> Seq<(Seq<char>, Seq<char>)> {
    Seq::new(list.len(), |i: int| (list[i].0@, list[i].1@))
}

/// The symbols of one market among the first `n` of a list.
pub open spec fn symbols_in(
    list: Seq<(Seq<char>, Seq<char>)>,
    market: Market,
    n: nat,
) -> Seq<Seq<char>>
    decreases n,
{
    if n == 0 {
        Seq::empty()
    } else {
        let before = symbols_in(list, market, (n - 1) as nat);
        if market_of(list[n - 1].1) == Some(market) {
            before.push(list[n - 1].0)
        } else {
            before
        }
    }
}

/// The market and the record of entry number `i` of a list: the records of a market are handed
/// out in the order of the list. An entry whose market has no such name gets none.
pub open spec fn dedicated_slot(list: Seq<(Seq<char>, Seq<char>)>, i: int) -> Option<(Market, int)> {
    match market_of(list[i].1) {
        Some(market) => Some((market, symbols_in(list, market, i as nat).len() as int)),
        None => None,
    }
}

/// Who gets a worker of its own, and where.
#[derive(Debug)]
pub struct StartupPlan {
    /// For each entry of the list its market and its record.
    pub slots: Vec<Option<(Market, usize)>>,
    /// The futures symbols of the list. Their records come first in the market's memory.
    pub skip_fut: Vec<String>,
    /// The spot symbols of the list. Their records come first in the market's memory.
    pub skip_spot: Vec<String>,
}

/// The market of that name, if there is one.
pub fn market_named(name: &String) -> (market: Option<Market>)
    ensures
        market == market_of(name@),
{
    if same_text(name, "FUTURES") {
        Some(Market::Futures)
    } else if same_text(name, "SPOT") {
        Some(Market::Spot)
    } else {
        None
    }
}

/// No market has more symbols in a list than the list has entries.
proof fn lemma_symbols_in_bounded(list: Seq<(Seq<char>, Seq<char>)>, market: Market, n: nat)
    ensures
        symbols_in(list, market, n).len() <= n,
    decreases n,
{
    if n > 0 {
        lemma_symbols_in_bounded(list, market, (n - 1) as nat);
    }
}

/// Hands out the first records of each market to the symbols of a list.
pub fn plan_dedicated(list: &Vec<(String, String)>) -> (plan: StartupPlan)
    ensures
        plan.slots@.len() == list@.len(),
        forall|i: int|
            0 <= i < list@.len() ==> (match #[trigger] plan.slots@[i] {
                Some((market, slot)) => dedicated_slot(pairs_view(list@), i) == Some(
                    (market, slot as int),
                ),
                None => dedicated_slot(pairs_view(list@), i) is None,
            }),
        texts(plan.skip_fut@) == symbols_in(pairs_view(list@), Market::Futures, list@.len()),
        texts(plan.skip_spot@) == symbols_in(pairs_view(list@), Market::Spot, list@.len()),
{
    let ghost pairs = pairs_view(list@);
    let mut slots: Vec<Option<(Market, usize)>> = Vec::new();
    let mut skip_fut: Vec<String> = Vec::new();
    let mut skip_spot: Vec<String> = Vec::new();
    assert(texts(skip_fut@) =~= symbols_in(pairs, Market::Futures, 0));
    assert(texts(skip_spot@) =~= symbols_in(pairs, Market::Spot, 0));
    let mut i: usize = 0;
    while i < list.len()
        invariant
            i <= list.len(),
            pairs == pairs_view(list@),
            slots@.len() == i,
            forall|j: int|
                0 <= j < i ==> (match #[trigger] slots@[j] {
                    Some((market, slot)) => dedicated_slot(pairs, j) == Some((market, slot as int)),
                    None => dedicated_slot(pairs, j) is None,
                }),
            texts(skip_fut@) == symbols_in(pairs, Market::Futures, i as nat),
            texts(skip_spot@) == symbols_in(pairs, Market::Spot, i as nat),
        decreases list.len() - i,
    {
        let ghost fut = skip_fut@;
        let ghost spot = skip_spot@;
        match market_named(&list[i].1) {
            Some(Market::Futures) => {
                slots.push(Some((Market::Futures, skip_fut.len())));
                skip_fut.push(list[i].0.clone());
                assert(texts(skip_fut@) =~= texts(fut).push(pairs[i as int].0));
            },
            Some(Market::Spot) => {
                slots.push(Some((Market::Spot, skip_spot.len())));
                skip_spot.push(list[i].0.clone());
                assert(texts(skip_spot@) =~= texts(spot).push(pairs[i as int].0));
            },
            None => {
                slots.push(None);
            },
        }
        i = i + 1;
    }
    StartupPlan { slots, skip_fut, skip_spot }
}

/// Of more entries of a list no fewer belong to a market.
proof fn lemma_symbols_in_grows(list: Seq<(Seq<char>, Seq<char>)>, market: Market, m: nat, n: nat)
    requires
        m <= n,
    ensures
        symbols_in(list, market, m).len() <= symbols_in(list, market, n).len(),
    decreases n,
{
    if m < n {
        lemma_symbols_in_grows(list, market, m, (n - 1) as nat);
    }
}

/// Two symbols of one market never get the same record.
pub proof fn law_dedicated_records_differ(list: Seq<(Seq<char>, Seq<char>)>, i: int, j: int)
    requires
        0 <= i < j < list.len(),
        dedicated_slot(list, i) is Some,
    ensures
        dedicated_slot(list, i) != dedicated_slot(list, j),
{
    let (market, slot) = dedicated_slot(list, i).unwrap();
    lemma_symbols_in_grows(list, market, (i + 1) as nat, j as nat);
}

/// The records of the dedicated symbols come before every record that the market's
/// orchestrator hands out, where that starts behind them. So no symbol of the pool ever gets
/// the record of a dedicated one.
pub proof fn law_dedicated_records_are_apart(
    list: Seq<(Seq<char>, Seq<char>)>,
    i: int,
    market: Market,
    slot: int,
    s: Slots,
    symbol: Seq<char>,
)
    requires
        0 <= i < list.len(),
        dedicated_slot(list, i) == Some((market, slot)),
        s.wf(),
        s.first == symbols_in(list, market, list.len()).len(),
        s.index.contains_key(symbol),
    ensures
        slot < s.first <= s.index[symbol],
{
    lemma_symbols_in_grows(list, market, (i + 1) as nat, list.len());
}

/// A list that is no longer than the memory gets records that lie in it.
pub proof fn law_dedicated_records_fit(list: Seq<(Seq<char>, Seq<char>)>, i: int)
    requires
        0 <= i < list.len() <= MAX_COINS,
    ensures
        dedicated_slot(list, i) matches Some((market, slot)) ==> 0 <= slot < MAX_COINS,
{
    if let Some((market, slot)) = dedicated_slot(list, i) {
        lemma_symbols_in_bounded(list, market, i as nat);
    }
}

/// How many of the first `n` entries of a list have a market of that name.
pub open spec fn count_named(list: Seq<(Seq<char>, Seq<char>)>, name: Seq<char>, n: nat) -> int
    decreases n,
{
    if n == 0 {
        0
    } else {
        count_named(list, name, (n - 1) as nat) + (if list[n - 1].1 == name {
            1int
        } else {
            0int
        })
    }
}

/// A market has the symbols of those entries that bear its name, in the order of the list.
pub proof fn law_symbols_of_a_market(list: Seq<(Seq<char>, Seq<char>)>, n: nat)
    ensures
        symbols_in(list, Market::Futures, 0).len() == 0,
        symbols_in(list, Market::Spot, 0).len() == 0,
        symbols_in(list, Market::Futures, n + 1) == (if list[n as int].1 == seq!['F', 'U', 'T', 'U', 'R', 'E', 'S'] {
            symbols_in(list, Market::Futures, n).push(list[n as int].0)
        } else {
            symbols_in(list, Market::Futures, n)
        }),
        symbols_in(list, Market::Spot, n + 1) == (if list[n as int].1 == seq!['S', 'P', 'O', 'T'] {
            symbols_in(list, Market::Spot, n).push(list[n as int].0)
        } else {
            symbols_in(list, Market::Spot, n)
        }),
        symbols_in(list, Market::Futures, n).len() == count_named(list, seq!['F', 'U', 'T', 'U', 'R', 'E', 'S'], n),
        symbols_in(list, Market::Spot, n).len() == count_named(list, seq!['S', 'P', 'O', 'T'], n),
    decreases n,
{
    reveal_strlit("FUTURES");
    reveal_strlit("SPOT");
    assert("FUTURES"@ =~= seq!['F', 'U', 'T', 'U', 'R', 'E', 'S']);
    assert("SPOT"@ =~= seq!['S', 'P', 'O', 'T']);
    assert("FUTURES"@.len() == 7 && "SPOT"@.len() == 4);
    if n > 0 {
        law_symbols_of_a_market(list, (n - 1) as nat);
    }
}

/// An entry of a list gets a record of the market whose name it bears, with as many records
/// before it as there are entries of that name before it; one of another name gets none.
pub proof fn law_record_of_an_entry(list: Seq<(Seq<char>, Seq<char>)>, i: int)
    requires
        0 <= i < list.len(),
    ensures
        dedicated_slot(list, i) == (if list[i].1 == seq!['F', 'U', 'T', 'U', 'R', 'E', 'S'] {
            Some((Market::Futures, count_named(list, list[i].1, i as nat)))
        } else if list[i].1 == seq!['S', 'P', 'O', 'T'] {
            Some((Market::Spot, count_named(list, list[i].1, i as nat)))
        } else {
            None
        }),
{
    reveal_strlit("FUTURES");
    reveal_strlit("SPOT");
    assert("FUTURES"@ =~= seq!['F', 'U', 'T', 'U', 'R', 'E', 'S']);
    assert("SPOT"@ =~= seq!['S', 'P', 'O', 'T']);
    law_symbols_of_a_market(list, i as nat);
}

/// What a list of pairs says is what it holds.
pub proof fn law_pairs_say_what_they_hold(list: Seq<(String, String)>)
    ensures
        pairs_view(list).len() == list.len(),
        forall|i: int|
            0 <= i < list.len() ==> #[trigger] pairs_view(list)[i] == (list[i].0@, list[i].1@),
{
}

} // verus!
