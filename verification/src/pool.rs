//! A worker of the pool: one connection for many symbols, each with a record of its own.
use rustc_hash::FxHashMap;
use vstd::prelude::*;

use crate::command::{
    chunked_commands, commands_for, placed_texts, ws_commands_view, WorkerCmd, WorkerCmdView,
    WsCommand,
};
use crate::config::{Market, SUBSCRIBE_PAUSE_MS};
use crate::fx_map::{entries, fx_get, fx_get_mut, fx_insert, fx_keys, fx_len, fx_new, fx_remove};
use crate::record::{quote_stores, record_fits, write_to_mmap, StoreView};
use crate::stats::{report_due, Report, Stats, StatsView, MAX_MESSAGES};
use crate::text::{lemma_push_contains, stream_name, stream_names, stream_of, streams_of, texts};
use crate::worker::{
    event_of, heard, reply, reply_of, ticker_fields, Frame, TickerView, WorkerAction,
    WorkerActionView, WorkerEvent,
};

verus! {

/// The symbols that a worker follows: for each the byte at which its record starts, and the
/// record's sequence number.
pub type Registry = Map<Seq<char>, (usize, u64)>;

/// What a `PoolWorker` holds.
#[verifier::ext_equal]
pub struct PoolView {
    /// The market of the symbols.
    pub market: Market,
    /// The symbols that are followed.
    pub registry: Registry,
    /// The traffic since the last report.
    pub stats: Stats,
}

/// The registry after it was told to follow a list of symbols. A symbol that comes again, here
/// or in the list, is moved to its new record; in every case its sequence number is zero.
pub open spec fn subscribed(registry: Registry, list: Seq<(Seq<char>, usize)>) -> Registry
    decreases list.len(),
{
    if list.len() == 0 {
        registry
    } else {
        subscribed(registry, list.drop_last()).insert(list.last().0, (list.last().1, 0u64))
    }
}

/// The registry after it was told to follow a list of symbols no more.
pub open spec fn unsubscribed(registry: Registry, list: Seq<Seq<char>>) -> Registry {
    registry.remove_keys(list.to_set())
}

/// The symbols of a list of placed symbols.
pub open spec fn symbols_of(list: Seq<(Seq<char>, usize)>) -> Seq<Seq<char>> {
    Seq::new(list.len(), |i: int| list[i].0)
}

/// Whether `symbols` names every symbol of the registry once, in some order.
pub open spec fn names_all(registry: Registry, symbols: Seq<Seq<char>>) -> bool {
    &&& symbols.no_duplicates()
    &&& symbols.to_set() == registry.dom()
}

/// Whether a record can start at each of the bytes of a list of placed symbols.
pub open spec fn all_fit(list: Seq<(Seq<char>, usize)>) -> bool {
    forall|i: int| 0 <= i < list.len() ==> record_fits((#[trigger] list[i]).1 as int)
}

/// The ticker as it is taken by a worker of `market` that follows the symbols of the registry:
/// one of any other symbol is passed over.
pub open spec fn accepted(market: Market, registry: Registry, ticker: TickerView) -> Option<
    TickerView,
> {
    if registry.contains_key(ticker.symbol) {
        ticker.heard(market)
    } else {
        None
    }
}

/// The registry after an event: each ticker that is taken adds two to its symbol's sequence
/// number, and otherwise only commands change it.
pub open spec fn registry_after(market: Market, registry: Registry, event: WorkerEvent) -> Registry {
    match event {
        WorkerEvent::Command(WorkerCmdView::Subscribe(list)) => subscribed(registry, list),
        WorkerEvent::Command(WorkerCmdView::Unsubscribe(list)) => unsubscribed(registry, list),
        WorkerEvent::Ticker(ticker, _) => match accepted(market, registry, ticker) {
            Some(t) => registry.insert(
                t.symbol,
                (registry[t.symbol].0, (registry[t.symbol].1 + 2) as u64),
            ),
            None => registry,
        },
        _ => registry,
    }
}

/// The stores that an event brings about.
pub open spec fn stores_after(market: Market, registry: Registry, event: WorkerEvent) -> Seq<
    StoreView,
> {
    match event {
        WorkerEvent::Ticker(ticker, now) => match accepted(market, registry, ticker) {
            Some(t) => quote_stores(
                registry[t.symbol].0 as int,
                registry[t.symbol].1,
                t.quote,
                t.stamp(now),
            ),
            None => Seq::empty(),
        },
        _ => Seq::empty(),
    }
}

impl PoolView {
    /// What every operation keeps: every record lies in the memory, and between two updates its
    /// sequence number is even.
    pub open spec fn wf(self) -> bool {
        &&& forall|symbol: Seq<char>| #[trigger]
            self.registry.contains_key(symbol) ==> {
                &&& record_fits(self.registry[symbol].0 as int)
                &&& self.registry[symbol].1 % 2 == 0
            }
        &&& self.stats@.wf()
    }

    /// Whether one more quote of the ticker's symbol can be counted.
    pub open spec fn can_take(self, ticker: TickerView) -> bool {
        accepted(self.market, self.registry, ticker) is Some ==> {
            &&& self.registry[ticker.symbol].1 <= u64::MAX - 2
            &&& self.stats.msg_count < MAX_MESSAGES
        }
    }
}

/// A worker of the pool.
pub struct PoolWorker {
    market: Market,
    registry: FxHashMap<String, (usize, u64)>,
    stats: Stats,
}

impl View for PoolWorker {
    type V = PoolView;

    closed spec fn view(&self) -> PoolView {
        PoolView { market: self.market, registry: entries(self.registry), stats: self.stats }
    }
}

/// The commands that ask for the streams of `symbols`, in that order.
pub fn subscribe_commands(symbols: &Vec<String>) -> (commands: Vec<WsCommand>)
    ensures
        ws_commands_view(commands@) == commands_for("SUBSCRIBE"@, streams_of(texts(symbols@)), 1),
{
    chunked_commands("SUBSCRIBE", &stream_names(symbols), 1)
}

/// The removal of one more symbol.
proof fn lemma_unsubscribed_push(registry: Registry, list: Seq<Seq<char>>, symbol: Seq<char>)
    ensures
        unsubscribed(registry, list.push(symbol)) == unsubscribed(registry, list).remove(symbol),
{
    assert(list.push(symbol).to_set() =~= list.to_set().insert(symbol)) by {
        lemma_push_contains(list, symbol);
        assert forall|a: Seq<char>|
            list.push(symbol).to_set().contains(a) <==> #[trigger] list.to_set().insert(
                symbol,
            ).contains(a) by {
            assert(list.push(symbol).to_set().contains(a) <==> list.push(symbol).contains(a));
            assert(list.to_set().contains(a) <==> list.contains(a));
        }
    }
    assert(unsubscribed(registry, list.push(symbol)) =~= unsubscribed(registry, list).remove(symbol));
}

impl PoolWorker {
    /// A worker that follows nothing yet.
    pub fn new(market: Market) -> (worker: Self)
        ensures
            worker@.market == market,
            worker@.registry == (Map::<Seq<char>, (usize, u64)>::empty()),
            worker@.stats@ == StatsView::zero(),
            worker@.wf(),
    {
        PoolWorker { market, registry: fx_new(), stats: Stats::new() }
    }

    /// How many symbols are followed.
    pub fn symbol_count(&self) -> (n: usize)
        ensures
            n == self@.registry.dom().len(),
    {
        fx_len(&self.registry)
    }

    /// The sequence number of a symbol's record, if the symbol is followed.
    pub fn sequence(&self, symbol: &str) -> (seq: Option<u64>)
        ensures
            seq == (if self@.registry.contains_key(symbol@) {
                Some(self@.registry[symbol@].1)
            } else {
                None
            }),
    {
        match fx_get(&self.registry, symbol) {
            Some(entry) => Some(entry.1),
            None => None,
        }
    }

    /// The traffic since the last report.
    pub fn stats(&self) -> (stats: Stats)
        ensures
            stats == self@.stats,
    {
        self.stats
    }

    /// A connection was made: the count starts anew, and the streams of all symbols that are
    /// followed are asked for. The order of the symbols is left open: a hash map is walked.
    pub fn on_connected(&mut self) -> (action: WorkerAction)
        requires
            old(self)@.wf(),
        ensures
            exists|symbols: Seq<Seq<char>>|
                #![trigger names_all(old(self)@.registry, symbols)]
                names_all(old(self)@.registry, symbols) && action@ == (WorkerActionView::Send {
                    commands: commands_for("SUBSCRIBE"@, streams_of(symbols), 1),
                    pause_ms: SUBSCRIBE_PAUSE_MS,
                }),
            final(self)@.stats@ == StatsView::zero(),
            final(self)@ == (PoolView { stats: final(self)@.stats, ..old(self)@ }),
            final(self)@.registry == registry_after(
                old(self)@.market,
                old(self)@.registry,
                WorkerEvent::Connected,
            ),
            final(self)@.wf(),
    {
        self.stats = Stats::new();
        let symbols: Vec<String> = fx_keys(&self.registry);
        assert(names_all(self@.registry, texts(symbols@)));
        WorkerAction::Send { commands: subscribe_commands(&symbols), pause_ms: SUBSCRIBE_PAUSE_MS }
    }

    /// Follows a list of symbols.
    fn subscribe(&mut self, list: Vec<(String, usize)>) -> (action: WorkerAction)
        requires
            old(self)@.wf(),
            all_fit(placed_texts(list@)),
        ensures
            final(self)@ == (PoolView {
                registry: subscribed(old(self)@.registry, placed_texts(list@)),
                ..old(self)@
            }),
            final(self)@.wf(),
            action@ == (WorkerActionView::Send {
                commands: commands_for(
                    "SUBSCRIBE"@,
                    streams_of(symbols_of(placed_texts(list@))),
                    1,
                ),
                pause_ms: SUBSCRIBE_PAUSE_MS,
            }),
    {
        let ghost before = self@;
        let ghost all = placed_texts(list@);
        let mut streams: Vec<String> = Vec::new();
        let mut i: usize = 0;
        assert(all.take(0) =~= Seq::empty());
        while i < list.len()
            invariant
                i <= list.len(),
                all == placed_texts(list@),
                all_fit(all),
                before.wf(),
                self@.wf(),
                self@ == (PoolView {
                    registry: subscribed(before.registry, all.take(i as int)),
                    ..before
                }),
                streams@.len() == i,
                forall|j: int| 0 <= j < i ==> (#[trigger] streams@[j])@ == stream_of(list@[j].0@),
            decreases list.len() - i,
        {
            proof {
                assert(all.take(i + 1).drop_last() =~= all.take(i as int));
                assert(all.take(i + 1).last() == all[i as int]);
                assert(record_fits(all[i as int].1 as int));
            }
            let offset: usize = list[i].1;
            let ghost known = self@.registry;
            fx_insert(&mut self.registry, list[i].0.clone(), (offset, 0));
            assert forall|symbol: Seq<char>| #[trigger] self@.registry.contains_key(symbol) implies {
                &&& record_fits(self@.registry[symbol].0 as int)
                &&& self@.registry[symbol].1 % 2 == 0
            } by {
                if symbol != all[i as int].0 {
                    assert(known.contains_key(symbol));
                }
            }
            streams.push(stream_name(list[i].0.as_str()));
            i = i + 1;
        }
        proof {
            assert(all.take(i as int) =~= all);
            assert(texts(streams@) =~= streams_of(symbols_of(all)));
        }
        WorkerAction::Send {
            commands: chunked_commands("SUBSCRIBE", &streams, 1),
            pause_ms: SUBSCRIBE_PAUSE_MS,
        }
    }

    /// Follows a list of symbols no more.
    fn unsubscribe(&mut self, list: Vec<String>) -> (action: WorkerAction)
        requires
            old(self)@.wf(),
        ensures
            final(self)@ == (PoolView {
                registry: unsubscribed(old(self)@.registry, texts(list@)),
                ..old(self)@
            }),
            final(self)@.wf(),
            action@ == (WorkerActionView::Send {
                commands: commands_for("UNSUBSCRIBE"@, streams_of(texts(list@)), 1),
                pause_ms: 0,
            }),
    {
        let ghost before = self@;
        let ghost all = texts(list@);
        let mut i: usize = 0;
        proof {
            assert(all.take(0) =~= Seq::empty());
            assert(unsubscribed(before.registry, all.take(0)) =~= before.registry);
        }
        while i < list.len()
            invariant
                i <= list.len(),
                all == texts(list@),
                before.wf(),
                self@ == (PoolView {
                    registry: unsubscribed(before.registry, all.take(i as int)),
                    ..before
                }),
            decreases list.len() - i,
        {
            proof {
                assert(all.take(i + 1) =~= all.take(i as int).push(all[i as int]));
                lemma_unsubscribed_push(before.registry, all.take(i as int), all[i as int]);
            }
            let _ = fx_remove(&mut self.registry, list[i].as_str());
            i = i + 1;
        }
        assert(all.take(i as int) =~= all);
        WorkerAction::Send {
            commands: chunked_commands("UNSUBSCRIBE", &stream_names(&list), 1),
            pause_ms: 0,
        }
    }

    /// A command came.
    pub fn on_command(&mut self, cmd: WorkerCmd) -> (action: WorkerAction)
        requires
            old(self)@.wf(),
            cmd@ matches WorkerCmdView::Subscribe(list) ==> all_fit(list),
        ensures
            final(self)@.wf(),
            final(self)@.registry == registry_after(
                old(self)@.market,
                old(self)@.registry,
                WorkerEvent::Command(cmd@),
            ),
            match cmd@ {
                WorkerCmdView::Subscribe(list) => {
                    &&& final(self)@ == (PoolView {
                        registry: subscribed(old(self)@.registry, list),
                        ..old(self)@
                    })
                    &&& action@ == (WorkerActionView::Send {
                        commands: commands_for("SUBSCRIBE"@, streams_of(symbols_of(list)), 1),
                        pause_ms: SUBSCRIBE_PAUSE_MS,
                    })
                },
                WorkerCmdView::Unsubscribe(list) => {
                    &&& final(self)@ == (PoolView {
                        registry: unsubscribed(old(self)@.registry, list),
                        ..old(self)@
                    })
                    &&& action@ == (WorkerActionView::Send {
                        commands: commands_for("UNSUBSCRIBE"@, streams_of(list), 1),
                        pause_ms: 0,
                    })
                },
                WorkerCmdView::PlannedReconnect => {
                    &&& final(self)@ == old(self)@
                    &&& exists|symbols: Seq<Seq<char>>|
                        #![trigger names_all(old(self)@.registry, symbols)]
                        names_all(old(self)@.registry, symbols) && action@
                            == WorkerActionView::StartWarmup(streams_of(symbols))
                },
            },
    {
        match cmd {
            WorkerCmd::Subscribe(list) => self.subscribe(list),
            WorkerCmd::Unsubscribe(list) => self.unsubscribe(list),
            WorkerCmd::PlannedReconnect => {
                let symbols: Vec<String> = fx_keys(&self.registry);
                assert(names_all(self@.registry, texts(symbols@)));
                WorkerAction::StartWarmup(stream_names(&symbols))
            },
        }
    }

    /// A frame came at `now`. A ticker of the market, of a symbol that is followed, goes into the
    /// symbol's record; any other ticker is passed over.
    pub fn on_frame(&mut self, frame: Frame, now: u64) -> (action: WorkerAction)
        requires
            old(self)@.wf(),
            frame matches Frame::Text(Some(ticker)) ==> old(self)@.can_take(ticker@),
        ensures
            final(self)@.wf(),
            match frame {
                Frame::Text(Some(ticker)) => match accepted(
                    old(self)@.market,
                    old(self)@.registry,
                    ticker@,
                ) {
                    Some(t) => {
                        let (offset, seq) = old(self)@.registry[t.symbol];
                        &&& action@ == WorkerActionView::Write(
                            quote_stores(offset as int, seq, t.quote, t.stamp(now)),
                        )
                        &&& final(self)@.stats@ == old(self)@.stats@.counted(t.event_time, now)
                        &&& final(self)@ == (PoolView {
                            registry: old(self)@.registry.insert(
                                t.symbol,
                                (offset, (seq + 2) as u64),
                            ),
                            stats: final(self)@.stats,
                            ..old(self)@
                        })
                    },
                    None => action@ == WorkerActionView::Nothing && final(self)@ == old(self)@,
                },
                _ => action@ == reply_of(frame) && final(self)@ == old(self)@,
            },
            final(self)@.registry == registry_after(
                old(self)@.market,
                old(self)@.registry,
                event_of(frame, now),
            ),
            action@ matches WorkerActionView::Write(stores) ==> stores == stores_after(
                old(self)@.market,
                old(self)@.registry,
                event_of(frame, now),
            ),
    {
        match frame {
            Frame::Text(Some(ticker)) => match heard(self.market, ticker) {
                Some(t) => {
                    let (s, b, bq, a, aq, event_time) = ticker_fields(t);
                    let ts: u64 = match event_time {
                        Some(e) => e,
                        None => now,
                    };
                    match fx_get_mut(&mut self.registry, s) {
                        Some(entry) => {
                            self.stats.count(event_time, now);
                            let offset: usize = entry.0;
                            WorkerAction::Write(
                                write_to_mmap(offset, &mut entry.1, b, bq, a, aq, ts),
                            )
                        },
                        None => WorkerAction::Nothing,
                    }
                },
                None => WorkerAction::Nothing,
            },
            _ => reply(frame),
        }
    }

    /// The report that is due `since_report` seconds after the last one, `uptime` seconds after
    /// the connection was made. A report starts the count anew.
    pub fn report(&mut self, since_report: u64, uptime: u64) -> (report: Option<Report>)
        requires
            old(self)@.wf(),
        ensures
            report == report_due(old(self)@.market, old(self)@.stats, since_report, uptime),
            final(self)@.stats@ == (if report is Some {
                StatsView::zero()
            } else {
                old(self)@.stats@
            }),
            final(self)@ == (PoolView { stats: final(self)@.stats, ..old(self)@ }),
            final(self)@.wf(),
    {
        self.stats.report(self.market, since_report, uptime)
    }
}

/// Of a list that a worker is told to follow, the last record that is named with a symbol is
/// the symbol's record, and symbols that are not in the list stay as they are.
pub proof fn law_last_record_counts(
    registry: Registry,
    list: Seq<(Seq<char>, usize)>,
    symbol: Seq<char>,
    i: int,
)
    requires
        0 <= i < list.len() ==> list[i].0 == symbol,
        forall|j: int| 0 <= j < list.len() && j > i ==> (#[trigger] list[j]).0 != symbol,
        -1 <= i < list.len(),
    ensures
        subscribed(registry, list).contains_key(symbol) <==> i >= 0 || registry.contains_key(symbol),
        i >= 0 ==> subscribed(registry, list)[symbol] == (list[i].1, 0u64),
        i < 0 && registry.contains_key(symbol) ==> subscribed(registry, list)[symbol]
            == registry[symbol],
    decreases list.len(),
{
    if list.len() > 0 {
        let before = list.drop_last();
        if i < list.len() - 1 {
            assert(list[list.len() - 1].0 != symbol);
            assert(forall|j: int| 0 <= j < before.len() ==> before[j] == list[j]);
            law_last_record_counts(registry, before, symbol, i);
        }
    }
}

/// Which symbols are followed after a list was added.
pub proof fn lemma_subscribed_symbols(registry: Registry, list: Seq<(Seq<char>, usize)>)
    ensures
        forall|x: Seq<char>| #[trigger]
            subscribed(registry, list).contains_key(x) <==> registry.contains_key(x)
                || symbols_of(list).contains(x),
        forall|x: Seq<char>| #[trigger]
            subscribed(registry, list).contains_key(x) && !symbols_of(list).contains(x)
                ==> subscribed(registry, list)[x] == registry[x],
    decreases list.len(),
{
    if list.len() > 0 {
        let before = list.drop_last();
        lemma_subscribed_symbols(registry, before);
        assert(symbols_of(list) =~= symbols_of(before).push(list.last().0));
        lemma_push_contains(symbols_of(before), list.last().0);
        let all = subscribed(registry, list);
        let known = subscribed(registry, before);
        assert(all == known.insert(list.last().0, (list.last().1, 0u64)));
        assert forall|x: Seq<char>| #[trigger] all.contains_key(x) <==> registry.contains_key(x)
            || symbols_of(list).contains(x) by {
            assert(all.contains_key(x) <==> known.contains_key(x) || x == list.last().0);
        }
        assert forall|x: Seq<char>| #[trigger]
            all.contains_key(x) && !symbols_of(list).contains(x) implies all[x] == registry[x] by {
            assert(known.contains_key(x));
        }
    } else {
        assert(symbols_of(list) =~= Seq::empty());
    }
}

/// To be told to follow new symbols and then to drop them again changes nothing.
pub proof fn law_unsubscribe_undoes_subscribe(registry: Registry, list: Seq<(Seq<char>, usize)>)
    requires
        forall|i: int| 0 <= i < list.len() ==> !registry.contains_key((#[trigger] list[i]).0),
    ensures
        unsubscribed(subscribed(registry, list), symbols_of(list)) == registry,
{
    let symbols = symbols_of(list);
    lemma_subscribed_symbols(registry, list);
    assert forall|x: Seq<char>| #[trigger] symbols.contains(x) implies !registry.contains_key(x) by {
        let i = choose|i: int| 0 <= i < symbols.len() && symbols[i] == x;
        assert(list[i].0 == x);
    }
    let back = unsubscribed(subscribed(registry, list), symbols);
    assert forall|x: Seq<char>| #[trigger] back.contains_key(x) <==> registry.contains_key(x) by {
        assert(symbols.to_set().contains(x) <==> symbols.contains(x));
    }
    assert forall|x: Seq<char>| #[trigger] back.contains_key(x) implies back[x] == registry[x] by {
        assert(symbols.to_set().contains(x) <==> symbols.contains(x));
    }
    assert(back =~= registry);
}

/// Of the symbols that are followed, those that a worker is told to drop are followed no more,
/// and every other one is followed as before.
pub proof fn law_drop_drops_the_named(registry: Registry, list: Seq<Seq<char>>, symbol: Seq<char>)
    ensures
        unsubscribed(registry, list).contains_key(symbol) <==> registry.contains_key(symbol)
            && !list.contains(symbol),
        unsubscribed(registry, list).contains_key(symbol) ==> unsubscribed(registry, list)[symbol]
            == registry[symbol],
{
    assert(list.to_set().contains(symbol) <==> list.contains(symbol));
}

/// A list that names all symbols of a registry has each of them, once, and no other.
pub proof fn law_all_are_named_once(registry: Registry, symbols: Seq<Seq<char>>, symbol: Seq<char>)
    requires
        names_all(registry, symbols),
    ensures
        registry.contains_key(symbol) <==> exists|i: int|
            0 <= i < symbols.len() && #[trigger] symbols[i] == symbol,
        forall|i: int, j: int|
            0 <= i < j < symbols.len() ==> #[trigger] symbols[i] != #[trigger] symbols[j],
{
    assert(registry.dom().contains(symbol) <==> symbols.to_set().contains(symbol));
    assert(symbols.to_set().contains(symbol) <==> symbols.contains(symbol));
}

/// The symbols of a list of placed symbols are those of its entries, in order.
pub proof fn law_symbols_of_a_list(list: Seq<(Seq<char>, usize)>)
    ensures
        symbols_of(list).len() == list.len(),
        forall|i: int| 0 <= i < list.len() ==> #[trigger] symbols_of(list)[i] == list[i].0,
{
}

} // verus!
