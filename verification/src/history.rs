//! What holds of a worker over any course of events: connections that are made and lost, commands,
//! tickers, switches to replacement connections.
use vstd::prelude::*;

use crate::command::WorkerCmdView;
use crate::config::{Market, RECORD_SIZE, SHM_SIZE};
use crate::dedicated;
use crate::memory::{
    after_stores, is_quote_byte, is_word_layout, law_update_lands, lemma_update_changes_its_quote,
    sequence_bytes,
};
use crate::pool::{
    accepted, lemma_subscribed_symbols, names_all, registry_after, stores_after, symbols_of,
    unsubscribed, Registry,
};
use crate::record::{record_fits, StoreView};
use crate::worker::{TickerView, WorkerEvent};

verus! {

/// The registry of a worker of the pool after a list of events.
pub open spec fn registry_history(
    market: Market,
    registry: Registry,
    events: Seq<WorkerEvent>,
) -> Registry
    decreases events.len(),
{
    if events.len() == 0 {
        registry
    } else {
        registry_after(
            market,
            registry_history(market, registry, events.drop_last()),
            events.last(),
        )
    }
}

/// Whether an event tells a worker to follow `symbol`.
pub open spec fn asks_for(event: WorkerEvent, symbol: Seq<char>) -> bool {
    event matches WorkerEvent::Command(WorkerCmdView::Subscribe(list)) && symbols_of(list).contains(
        symbol,
    )
}

/// Whether an event tells a worker to drop `symbol`.
pub open spec fn drops(event: WorkerEvent, symbol: Seq<char>) -> bool {
    event matches WorkerEvent::Command(WorkerCmdView::Unsubscribe(list)) && list.contains(symbol)
}

/// Whether a ticker is one of `symbol` that is taken, where `registry` is what is followed.
pub open spec fn is_quote_of(
    market: Market,
    registry: Registry,
    event: WorkerEvent,
    symbol: Seq<char>,
) -> bool {
    event matches WorkerEvent::Ticker(ticker, _) && ticker.symbol == symbol && accepted(
        market,
        registry,
        ticker,
    ) is Some
}

/// How many tickers of `symbol` were taken.
pub open spec fn quotes_taken(
    market: Market,
    registry: Registry,
    events: Seq<WorkerEvent>,
    symbol: Seq<char>,
) -> nat
    decreases events.len(),
{
    if events.len() == 0 {
        0
    } else {
        let before = quotes_taken(market, registry, events.drop_last(), symbol);
        if is_quote_of(
            market,
            registry_history(market, registry, events.drop_last()),
            events.last(),
            symbol,
        ) {
            before + 1
        } else {
            before
        }
    }
}

/// The memory after the stores that a list of events brings about.
pub open spec fn memory_history(
    mem: Seq<u8>,
    market: Market,
    registry: Registry,
    events: Seq<WorkerEvent>,
    layout: spec_fn(u64) -> Seq<u8>,
) -> Seq<u8>
    decreases events.len(),
{
    if events.len() == 0 {
        mem
    } else {
        after_stores(
            memory_history(mem, market, registry, events.drop_last(), layout),
            stores_after(
                market,
                registry_history(market, registry, events.drop_last()),
                events.last(),
            ),
            layout,
        )
    }
}

/// Whether no other symbol of the registry has a record that overlaps the one at `offset`.
pub open spec fn is_alone(registry: Registry, symbol: Seq<char>, offset: int) -> bool {
    forall|x: Seq<char>| #[trigger]
        registry.contains_key(x) && x != symbol ==> registry[x].0 + RECORD_SIZE <= offset || offset
            + RECORD_SIZE <= registry[x].0
}

/// Whether that is so all the time.
pub open spec fn stays_alone(
    market: Market,
    registry: Registry,
    events: Seq<WorkerEvent>,
    symbol: Seq<char>,
    offset: int,
) -> bool
    decreases events.len(),
{
    &&& is_alone(registry_history(market, registry, events), symbol, offset)
    &&& events.len() > 0 ==> stays_alone(market, registry, events.drop_last(), symbol, offset)
}

/// A symbol that is not followed stays so until a command asks for it.
proof fn lemma_stays_out(
    market: Market,
    registry: Registry,
    events: Seq<WorkerEvent>,
    symbol: Seq<char>,
)
    requires
        !registry.contains_key(symbol),
        forall|i: int| 0 <= i < events.len() ==> !asks_for(#[trigger] events[i], symbol),
    ensures
        !registry_history(market, registry, events).contains_key(symbol),
    decreases events.len(),
{
    if events.len() > 0 {
        let before = events.drop_last();
        assert(forall|i: int| 0 <= i < before.len() ==> before[i] == events[i]);
        lemma_stays_out(market, registry, before, symbol);
        let known = registry_history(market, registry, before);
        assert(!asks_for(events[events.len() - 1], symbol));
        if let WorkerEvent::Command(WorkerCmdView::Subscribe(list)) = events.last() {
            lemma_subscribed_symbols(known, list);
        }
    }
}

/// A symbol that a worker was told to drop stays dropped, whatever happens, until the worker is
/// told to follow it again: none of its tickers is taken, so that none changes the memory, a
/// sequence number or a count, and no list of symbols to ask for names it, neither after a
/// reconnect nor for a replacement connection. Symbols that the command did not name stay as
/// they were.
pub proof fn law_dropped_symbol_stays_out(
    market: Market,
    registry: Registry,
    list: Seq<Seq<char>>,
    events: Seq<WorkerEvent>,
    symbol: Seq<char>,
    ticker: TickerView,
    now: u64,
    symbols: Seq<Seq<char>>,
)
    requires
        list.contains(symbol),
        forall|i: int| 0 <= i < events.len() ==> !asks_for(#[trigger] events[i], symbol),
        ticker.symbol == symbol,
    ensures
        ({
            let later = registry_history(market, unsubscribed(registry, list), events);
            &&& !later.contains_key(symbol)
            &&& accepted(market, later, ticker) is None
            &&& registry_after(market, later, WorkerEvent::Ticker(ticker, now)) == later
            &&& stores_after(market, later, WorkerEvent::Ticker(ticker, now)) == Seq::<
                StoreView,
            >::empty()
            &&& names_all(later, symbols) ==> !symbols.contains(symbol)
        }),
        forall|x: Seq<char>|
            !list.contains(x) ==> {
                &&& #[trigger] unsubscribed(registry, list).contains_key(x)
                    <==> registry.contains_key(x)
                &&& registry.contains_key(x) ==> unsubscribed(registry, list)[x] == registry[x]
            },
{
    let left = unsubscribed(registry, list);
    assert forall|x: Seq<char>| #[trigger] left.contains_key(x) <==> registry.contains_key(x)
        && !list.contains(x) by {
        assert(list.to_set().contains(x) <==> list.contains(x));
    }
    lemma_stays_out(market, left, events, symbol);
    let later = registry_history(market, left, events);
    if names_all(later, symbols) && symbols.contains(symbol) {
        assert(symbols.to_set().contains(symbol));
    }
}

/// The sequence number of a symbol's record is twice the number of its tickers that were taken
/// since the worker was told to follow it, whatever came between: reconnects, switches, tickers
/// and commands for other symbols.
pub proof fn law_number_counts_quotes(
    market: Market,
    registry: Registry,
    events: Seq<WorkerEvent>,
    symbol: Seq<char>,
    offset: usize,
)
    requires
        registry.contains_key(symbol),
        registry[symbol] == (offset, 0u64),
        forall|i: int|
            0 <= i < events.len() ==> !asks_for(#[trigger] events[i], symbol) && !drops(
                events[i],
                symbol,
            ),
        2 * quotes_taken(market, registry, events, symbol) <= u64::MAX,
    ensures
        registry_history(market, registry, events).contains_key(symbol),
        registry_history(market, registry, events)[symbol] == (
            offset,
            (2 * quotes_taken(market, registry, events, symbol)) as u64,
        ),
    decreases events.len(),
{
    if events.len() > 0 {
        let before = events.drop_last();
        assert(forall|i: int| 0 <= i < before.len() ==> before[i] == events[i]);
        law_number_counts_quotes(market, registry, before, symbol, offset);
        let known = registry_history(market, registry, before);
        let last = events[events.len() - 1];
        assert(!asks_for(last, symbol) && !drops(last, symbol));
        match last {
            WorkerEvent::Command(WorkerCmdView::Subscribe(list)) => {
                lemma_subscribed_symbols(known, list);
            },
            WorkerEvent::Command(WorkerCmdView::Unsubscribe(list)) => {
                assert(list.to_set().contains(symbol) <==> list.contains(symbol));
            },
            _ => {},
        }
    }
}

/// The record bears that number, as long as nobody else writes to it: before the first ticker
/// its bytes are as they were, and after `n` tickers they are those of `2 * n`.
pub proof fn law_record_counts_quotes(
    mem: Seq<u8>,
    market: Market,
    registry: Registry,
    events: Seq<WorkerEvent>,
    symbol: Seq<char>,
    offset: usize,
    layout: spec_fn(u64) -> Seq<u8>,
)
    requires
        mem.len() == SHM_SIZE,
        is_word_layout(layout),
        record_fits(offset as int),
        registry.contains_key(symbol),
        registry[symbol] == (offset, 0u64),
        forall|i: int|
            0 <= i < events.len() ==> !asks_for(#[trigger] events[i], symbol) && !drops(
                events[i],
                symbol,
            ),
        stays_alone(market, registry, events, symbol, offset as int),
        2 * quotes_taken(market, registry, events, symbol) <= u64::MAX,
    ensures
        memory_history(mem, market, registry, events, layout).len() == SHM_SIZE,
        sequence_bytes(memory_history(mem, market, registry, events, layout), offset as int) == (
        if quotes_taken(market, registry, events, symbol) == 0 {
            sequence_bytes(mem, offset as int)
        } else {
            layout((2 * quotes_taken(market, registry, events, symbol)) as u64)
        }),
    decreases events.len(),
{
    if events.len() > 0 {
        let before = events.drop_last();
        assert(forall|i: int| 0 <= i < before.len() ==> before[i] == events[i]);
        law_record_counts_quotes(mem, market, registry, before, symbol, offset, layout);
        law_number_counts_quotes(market, registry, before, symbol, offset);
        let known = registry_history(market, registry, before);
        let m = memory_history(mem, market, registry, before, layout);
        let after = memory_history(mem, market, registry, events, layout);
        assert(is_alone(known, symbol, offset as int)) by {
            assert(stays_alone(market, registry, before, symbol, offset as int));
        }
        match events.last() {
            WorkerEvent::Ticker(ticker, now) => match accepted(market, known, ticker) {
                Some(t) => {
                    let (at, seq) = known[t.symbol];
                    if t.symbol == symbol {
                        law_update_lands(m, at as int, seq, t.quote, t.stamp(now), layout);
                    } else {
                        assert(known.contains_key(t.symbol));
                        lemma_update_changes_its_quote(
                            m,
                            at as int,
                            seq,
                            t.quote,
                            t.stamp(now),
                            layout,
                        );
                        assert(sequence_bytes(after, offset as int) =~= sequence_bytes(
                            m,
                            offset as int,
                        ));
                    }
                },
                None => {},
            },
            _ => {},
        }
    }
}

/// Whether byte `i` is no byte of a quote of any symbol of the registry.
pub open spec fn is_nobodys(registry: Registry, i: int) -> bool {
    forall|x: Seq<char>| #[trigger]
        registry.contains_key(x) ==> !is_quote_byte(registry[x].0 as int, i)
}

/// Whether that is so all the time.
pub open spec fn stays_nobodys(
    market: Market,
    registry: Registry,
    events: Seq<WorkerEvent>,
    i: int,
) -> bool
    decreases events.len(),
{
    &&& is_nobodys(registry_history(market, registry, events), i)
    &&& events.len() > 0 ==> stays_nobodys(market, registry, events.drop_last(), i)
}

/// Whatever happens, a worker of the pool changes no byte of the memory but those of the quotes
/// of the symbols that it follows.
pub proof fn law_only_quotes_change(
    mem: Seq<u8>,
    market: Market,
    registry: Registry,
    events: Seq<WorkerEvent>,
    layout: spec_fn(u64) -> Seq<u8>,
    i: int,
)
    requires
        mem.len() == SHM_SIZE,
        is_word_layout(layout),
        0 <= i < SHM_SIZE,
        stays_nobodys(market, registry, events, i),
    ensures
        memory_history(mem, market, registry, events, layout).len() == SHM_SIZE,
        memory_history(mem, market, registry, events, layout)[i] == mem[i],
    decreases events.len(),
{
    if events.len() > 0 {
        let before = events.drop_last();
        law_only_quotes_change(mem, market, registry, before, layout, i);
        let known = registry_history(market, registry, before);
        let m = memory_history(mem, market, registry, before, layout);
        assert(is_nobodys(known, i)) by {
            assert(stays_nobodys(market, registry, before, i));
        }
        if let WorkerEvent::Ticker(ticker, now) = events.last() {
            if let Some(t) = accepted(market, known, ticker) {
                let (at, seq) = known[t.symbol];
                assert(known.contains_key(t.symbol));
                lemma_update_changes_its_quote(m, at as int, seq, t.quote, t.stamp(now), layout);
            }
        }
    }
}

/// The sequence number of the worker of one symbol after a list of events.
pub open spec fn number_history(market: Market, seq: u64, events: Seq<WorkerEvent>) -> u64
    decreases events.len(),
{
    if events.len() == 0 {
        seq
    } else {
        dedicated::number_after(market, number_history(market, seq, events.drop_last()), events.last())
    }
}

/// The memory after the stores of the worker of one symbol.
pub open spec fn dedicated_memory(
    mem: Seq<u8>,
    market: Market,
    offset: int,
    seq: u64,
    events: Seq<WorkerEvent>,
    layout: spec_fn(u64) -> Seq<u8>,
) -> Seq<u8>
    decreases events.len(),
{
    if events.len() == 0 {
        mem
    } else {
        after_stores(
            dedicated_memory(mem, market, offset, seq, events.drop_last(), layout),
            dedicated::stores_after(
                market,
                offset,
                number_history(market, seq, events.drop_last()),
                events.last(),
            ),
            layout,
        )
    }
}

/// How many tickers the worker of one symbol took.
pub open spec fn tickers_taken(market: Market, events: Seq<WorkerEvent>) -> nat
    decreases events.len(),
{
    if events.len() == 0 {
        0
    } else {
        let before = tickers_taken(market, events.drop_last());
        match events.last() {
            WorkerEvent::Ticker(ticker, _) => if ticker.heard(market) is Some {
                before + 1
            } else {
                before
            },
            _ => before,
        }
    }
}

/// The sequence number of the worker of one symbol, and of its record, is twice the number of
/// tickers that it took, over all its connections. No other byte of the memory changes but
/// those of the record's quote: the record keeps its name, and every other record is as it was.
pub proof fn law_dedicated_number_counts_quotes(
    mem: Seq<u8>,
    market: Market,
    offset: int,
    events: Seq<WorkerEvent>,
    layout: spec_fn(u64) -> Seq<u8>,
)
    requires
        mem.len() == SHM_SIZE,
        is_word_layout(layout),
        record_fits(offset),
        2 * tickers_taken(market, events) <= u64::MAX,
    ensures
        number_history(market, 0, events) == 2 * tickers_taken(market, events),
        dedicated_memory(mem, market, offset, 0, events, layout).len() == SHM_SIZE,
        sequence_bytes(dedicated_memory(mem, market, offset, 0, events, layout), offset) == (
        if tickers_taken(market, events) == 0 {
            sequence_bytes(mem, offset)
        } else {
            layout((2 * tickers_taken(market, events)) as u64)
        }),
        forall|i: int|
            0 <= i < SHM_SIZE && !is_quote_byte(offset, i) ==> #[trigger] dedicated_memory(
                mem,
                market,
                offset,
                0,
                events,
                layout,
            )[i] == mem[i],
    decreases events.len(),
{
    if events.len() > 0 {
        let before = events.drop_last();
        law_dedicated_number_counts_quotes(mem, market, offset, before, layout);
        let m = dedicated_memory(mem, market, offset, 0, before, layout);
        let seq = number_history(market, 0, before);
        if let WorkerEvent::Ticker(ticker, now) = events.last() {
            if let Some(t) = ticker.heard(market) {
                law_update_lands(m, offset, seq, t.quote, t.stamp(now), layout);
            }
        }
    }
}

} // verus!
