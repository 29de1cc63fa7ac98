//! From a ticker to the record: what the bytes of a symbol's record are once a worker has taken a
//! ticker.
use vstd::prelude::*;
use vstd::utf8::encode_utf8;

use crate::config::Market;
use crate::dedicated;
use crate::memory::{after_stores, is_word_layout, law_update_lands};
use crate::pool::{self, Registry};
use crate::record::{field, quote_stores, record_fits, QuoteBytes};
use crate::worker::{Ticker, WorkerEvent};

verus! {

/// Whether the 20 bytes from byte `at` on are those of a text, cut or filled up with zeros.
pub open spec fn shows(mem: Seq<u8>, at: int, text: Seq<char>) -> bool {
    forall|k: int|
        0 <= k < 20 ==> #[trigger] mem[at + k] == (if k < encode_utf8(text).len() {
            encode_utf8(text)[k]
        } else {
            0u8
        })
}

/// Whether, of the memory before and after, the record at `at` shows a bid, its quantity, an ask
/// and its quantity, in this order, and then a time, under a number, and every other byte is
/// as it was.
pub open spec fn record_shows(
    before: Seq<u8>,
    after: Seq<u8>,
    at: int,
    number: Seq<u8>,
    b: Seq<char>,
    bq: Seq<char>,
    a: Seq<char>,
    aq: Seq<char>,
    time: Seq<u8>,
) -> bool {
    &&& after.len() == before.len()
    &&& after.subrange(at, at + 8) == number
    &&& shows(after, at + 24, b)
    &&& shows(after, at + 44, bq)
    &&& shows(after, at + 64, a)
    &&& shows(after, at + 84, aq)
    &&& after.subrange(at + 104, at + 112) == time
    &&& forall|i: int|
        0 <= i < before.len() && !(at <= i < at + 8) && !(at + 24 <= i < at + 112)
            ==> #[trigger] after[i] == before[i]
}

/// The bytes of a field, taken out of a slice of the memory.
proof fn lemma_shows(mem: Seq<u8>, at: int, text: Seq<char>)
    requires
        0 <= at <= mem.len() - 20,
        mem.subrange(at, at + 20) == field(encode_utf8(text), 20),
    ensures
        shows(mem, at, text),
{
    let bytes = mem.subrange(at, at + 20);
    assert forall|k: int| 0 <= k < 20 implies #[trigger] mem[at + k] == (if k < encode_utf8(
        text,
    ).len() {
        encode_utf8(text)[k]
    } else {
        0u8
    }) by {
        assert(bytes[k] == mem[at + k]);
    }
}

/// An update of a record shows its texts.
proof fn lemma_update_shows(
    mem: Seq<u8>,
    at: int,
    seq: u64,
    b: Seq<char>,
    bq: Seq<char>,
    a: Seq<char>,
    aq: Seq<char>,
    ts: u64,
    layout: spec_fn(u64) -> Seq<u8>,
)
    requires
        mem.len() == 256000,
        is_word_layout(layout),
        record_fits(at),
        seq <= u64::MAX - 2,
    ensures
        ({
            let quote = QuoteBytes {
                bid: encode_utf8(b),
                bid_qty: encode_utf8(bq),
                ask: encode_utf8(a),
                ask_qty: encode_utf8(aq),
            };
            record_shows(
                mem,
                after_stores(mem, quote_stores(at, seq, quote, ts), layout),
                at,
                layout((seq + 2) as u64),
                b,
                bq,
                a,
                aq,
                layout(ts),
            )
        }),
{
    let quote = QuoteBytes {
        bid: encode_utf8(b),
        bid_qty: encode_utf8(bq),
        ask: encode_utf8(a),
        ask_qty: encode_utf8(aq),
    };
    law_update_lands(mem, at, seq, quote, ts, layout);
    let after = after_stores(mem, quote_stores(at, seq, quote, ts), layout);
    lemma_shows(after, at + 24, b);
    lemma_shows(after, at + 44, bq);
    lemma_shows(after, at + 64, a);
    lemma_shows(after, at + 84, aq);
}

/// What becomes of a ticker that comes to a worker of the pool. If the worker does not follow its
/// symbol, nothing. If it does, the symbol's record shows the bid, the bid's quantity, the ask and
/// the ask's quantity of that very ticker, each in its place, under the next even number. On the
/// futures market the time is that of the exchange, without which a ticker is none; on the spot
/// market it is the time of arrival.
pub proof fn law_pool_record_shows_the_ticker<'a>(
    mem: Seq<u8>,
    market: Market,
    registry: Registry,
    ticker: Ticker<'a>,
    now: u64,
    layout: spec_fn(u64) -> Seq<u8>,
)
    requires
        mem.len() == 256000,
        is_word_layout(layout),
        forall|x: Seq<char>| #[trigger]
            registry.contains_key(x) ==> record_fits(registry[x].0 as int) && registry[x].1
                <= u64::MAX - 2,
    ensures
        ({
            let after = after_stores(
                mem,
                pool::stores_after(market, registry, WorkerEvent::Ticker(ticker@, now)),
                layout,
            );
            match ticker {
                Ticker::Futures(f) => if registry.contains_key(f.s@) {
                    let (at, seq) = registry[f.s@];
                    record_shows(
                        mem,
                        after,
                        at as int,
                        layout((seq + 2) as u64),
                        f.b@,
                        f.bq@,
                        f.a@,
                        f.aq@,
                        if market == Market::Futures {
                            layout(f.e)
                        } else {
                            layout(now)
                        },
                    )
                } else {
                    after == mem
                },
                Ticker::Spot(p) => if market == Market::Spot && registry.contains_key(p.s@) {
                    let (at, seq) = registry[p.s@];
                    record_shows(
                        mem,
                        after,
                        at as int,
                        layout((seq + 2) as u64),
                        p.b@,
                        p.bq@,
                        p.a@,
                        p.aq@,
                        layout(now),
                    )
                } else {
                    after == mem
                },
            }
        }),
{
    match ticker {
        Ticker::Futures(f) => {
            if registry.contains_key(f.s@) {
                let (at, seq) = registry[f.s@];
                let ts = if market == Market::Futures {
                    f.e
                } else {
                    now
                };
                lemma_update_shows(mem, at as int, seq, f.b@, f.bq@, f.a@, f.aq@, ts, layout);
            }
        },
        Ticker::Spot(p) => {
            if registry.contains_key(p.s@) {
                let (at, seq) = registry[p.s@];
                lemma_update_shows(mem, at as int, seq, p.b@, p.bq@, p.a@, p.aq@, now, layout);
            }
        },
    }
}

/// What becomes of a ticker that comes to the worker of one symbol: the record shows the bid, the
/// bid's quantity, the ask and the ask's quantity of that very ticker, each in its place, under
/// the next even number and with the time that the market goes by.
pub proof fn law_dedicated_record_shows_the_ticker<'a>(
    mem: Seq<u8>,
    market: Market,
    at: int,
    seq: u64,
    ticker: Ticker<'a>,
    now: u64,
    layout: spec_fn(u64) -> Seq<u8>,
)
    requires
        mem.len() == 256000,
        is_word_layout(layout),
        record_fits(at),
        seq <= u64::MAX - 2,
    ensures
        ({
            let after = after_stores(
                mem,
                dedicated::stores_after(market, at, seq, WorkerEvent::Ticker(ticker@, now)),
                layout,
            );
            let number = layout((seq + 2) as u64);
            match ticker {
                Ticker::Futures(f) => {
                    &&& record_shows(
                        mem,
                        after,
                        at,
                        number,
                        f.b@,
                        f.bq@,
                        f.a@,
                        f.aq@,
                        if market == Market::Futures {
                            layout(f.e)
                        } else {
                            layout(now)
                        },
                    )
                    &&& dedicated::number_after(market, seq, WorkerEvent::Ticker(ticker@, now))
                        == seq + 2
                },
                Ticker::Spot(p) => if market == Market::Spot {
                    &&& record_shows(
                        mem,
                        after,
                        at,
                        number,
                        p.b@,
                        p.bq@,
                        p.a@,
                        p.aq@,
                        layout(now),
                    )
                    &&& dedicated::number_after(market, seq, WorkerEvent::Ticker(ticker@, now))
                        == seq + 2
                } else {
                    &&& after == mem
                    &&& dedicated::number_after(market, seq, WorkerEvent::Ticker(ticker@, now))
                        == seq
                },
            }
        }),
{
    match ticker {
        Ticker::Futures(f) => {
            let ts = if market == Market::Futures {
                f.e
            } else {
                now
            };
            lemma_update_shows(mem, at, seq, f.b@, f.bq@, f.a@, f.aq@, ts, layout);
        },
        Ticker::Spot(p) => {
            lemma_update_shows(mem, at, seq, p.b@, p.bq@, p.a@, p.aq@, now, layout);
        },
    }
}

/// Only tickers change the memory: a connection, a command or anything else brings about no
/// store, and leaves a sequence number as it is.
pub proof fn law_only_tickers_are_stored(
    market: Market,
    registry: Registry,
    at: int,
    seq: u64,
    event: WorkerEvent,
)
    requires
        !(event is Ticker),
    ensures
        pool::stores_after(market, registry, event).len() == 0,
        dedicated::stores_after(market, at, seq, event).len() == 0,
        dedicated::number_after(market, seq, event) == seq,
        !(event is Command) ==> pool::registry_after(market, registry, event) == registry,
{
}

/// Which tickers a worker of the pool takes: those of symbols that it follows, which on the
/// futures market have a time of the exchange. Such a ticker adds two to its symbol's number, and
/// the registry is else as it was.
pub proof fn law_which_tickers_are_taken<'a>(
    market: Market,
    registry: Registry,
    ticker: Ticker<'a>,
    now: u64,
    symbol: Seq<char>,
)
    requires
        forall|x: Seq<char>| #[trigger] registry.contains_key(x) ==> registry[x].1 <= u64::MAX - 2,
    ensures
        ({
            let own = match ticker {
                Ticker::Futures(f) => f.s@,
                Ticker::Spot(p) => p.s@,
            };
            let taken = registry.contains_key(own) && (market == Market::Spot || ticker is Futures);
            let after = pool::registry_after(market, registry, WorkerEvent::Ticker(ticker@, now));
            &&& pool::accepted(market, registry, ticker@) is Some <==> taken
            &&& after.contains_key(symbol) <==> registry.contains_key(symbol)
            &&& registry.contains_key(symbol) ==> after[symbol].0 == registry[symbol].0
                && after[symbol].1 == registry[symbol].1 + (if taken && symbol == own {
                2int
            } else {
                0int
            })
            &&& taken ==> {
                let t = pool::accepted(market, registry, ticker@)->Some_0;
                &&& t.symbol == own
                &&& t.event_time == (match ticker {
                    Ticker::Futures(f) => if market == Market::Futures {
                        Some(f.e)
                    } else {
                        None
                    },
                    Ticker::Spot(_) => None,
                })
            }
        }),
{
}

} // verus!
