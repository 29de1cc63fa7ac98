//! The worker of one symbol, which has a connection and a record of its own.
use vstd::prelude::*;

use crate::command::{WorkerCmd, WorkerCmdView, WsCommand, WsCommandView};
use crate::config::{Market, MAX_COINS, RECORD_SIZE};
use crate::record::{quote_stores, record_fits, write_to_mmap, StoreView};
use crate::stats::{report_due, Report, Stats, StatsView, MAX_MESSAGES};
use crate::text::{stream_name, stream_of, texts};
use crate::worker::{
    event_of, heard, reply, reply_of, ticker_fields, Frame, TickerView, WorkerAction,
    WorkerActionView, WorkerEvent,
};

verus! {

/// The worker of one symbol.
pub struct DedicatedWorker {
    market: Market,
    stream: String,
    offset: usize,
    seq: u64,
    stats: Stats,
}

/// What a `DedicatedWorker` holds.
#[verifier::ext_equal]
pub struct DedicatedView {
    /// The market of the symbol.
    pub market: Market,
    /// The stream of the symbol.
    pub stream: Seq<char>,
    /// The byte at which the record starts.
    pub offset: int,
    /// The record's sequence number.
    pub seq: u64,
    /// The traffic since the last report.
    pub stats: Stats,
}

impl DedicatedView {
    /// What every operation keeps: the record lies in the memory, and between two updates its
    /// sequence number is even.
    pub open spec fn wf(self) -> bool {
        &&& record_fits(self.offset)
        &&& self.seq % 2 == 0
        &&& self.stats@.wf()
    }
}

/// The sequence number after an event: each ticker that is taken adds two.
pub open spec fn number_after(market: Market, seq: u64, event: WorkerEvent) -> u64 {
    match event {
        WorkerEvent::Ticker(ticker, _) => match ticker.heard(market) {
            Some(_) => (seq + 2) as u64,
            None => seq,
        },
        _ => seq,
    }
}

/// The stores that an event brings about in the record at `offset`.
pub open spec fn stores_after(
    market: Market,
    offset: int,
    seq: u64,
    event: WorkerEvent,
) -> Seq<StoreView> {
    match event {
        WorkerEvent::Ticker(ticker, now) => match ticker.heard(market) {
            Some(t) => quote_stores(offset, seq, t.quote, t.stamp(now)),
            None => Seq::empty(),
        },
        _ => Seq::empty(),
    }
}

impl View for DedicatedWorker {
    type V = DedicatedView;

    closed spec fn view(&self) -> DedicatedView {
        DedicatedView {
            market: self.market,
            stream: self.stream@,
            offset: self.offset as int,
            seq: self.seq,
            stats: self.stats,
        }
    }
}

impl DedicatedWorker {
    /// The worker of `symbol`, whose record is number `slot`.
    pub fn new(market: Market, symbol: &str, slot: usize) -> (worker: Self)
        requires
            slot < MAX_COINS,
        ensures
            worker@.market == market,
            worker@.stream == stream_of(symbol@),
            worker@.offset == slot * RECORD_SIZE,
            worker@.seq == 0,
            worker@.stats@ == StatsView::zero(),
            worker@.wf(),
    {
        DedicatedWorker {
            market,
            stream: stream_name(symbol),
            offset: slot * RECORD_SIZE,
            seq: 0,
            stats: Stats::new(),
        }
    }

    /// The record's sequence number.
    pub fn sequence(&self) -> (seq: u64)
        ensures
            seq == self@.seq,
    {
        self.seq
    }

    /// The traffic since the last report.
    pub fn stats(&self) -> (stats: Stats)
        ensures
            stats == self@.stats,
    {
        self.stats
    }

    /// A connection was made: the count starts anew, and the symbol's stream is asked for.
    pub fn on_connected(&mut self, now: u64) -> (command: WsCommand)
        requires
            old(self)@.wf(),
        ensures
            command@ == (WsCommandView {
                method: "SUBSCRIBE"@,
                params: seq![old(self)@.stream],
                id: now,
            }),
            final(self)@.stats@ == StatsView::zero(),
            final(self)@ == (DedicatedView { stats: final(self)@.stats, ..old(self)@ }),
            final(self)@.wf(),
    {
        self.stats = Stats::new();
        let mut params: Vec<String> = Vec::new();
        params.push(self.stream.clone());
        assert(texts(params@) =~= seq![self.stream@]);
        WsCommand { method: "SUBSCRIBE".to_owned(), params, id: now }
    }

    /// A command came. Only a planned reconnect is heeded: the symbol never changes.
    pub fn on_command(&self, cmd: &WorkerCmd) -> (action: WorkerAction)
        ensures
            action@ == (match cmd@ {
                WorkerCmdView::PlannedReconnect => WorkerActionView::StartWarmup(
                    seq![self@.stream],
                ),
                _ => WorkerActionView::Nothing,
            }),
    {
        match cmd {
            WorkerCmd::PlannedReconnect => {
                let mut streams: Vec<String> = Vec::new();
                streams.push(self.stream.clone());
                assert(texts(streams@) =~= seq![self.stream@]);
                WorkerAction::StartWarmup(streams)
            },
            WorkerCmd::Subscribe(_) => WorkerAction::Nothing,
            WorkerCmd::Unsubscribe(_) => WorkerAction::Nothing,
        }
    }

    /// A frame came at `now`. A ticker of the market goes into the record, whatever its symbol.
    pub fn on_frame(&mut self, frame: Frame, now: u64) -> (action: WorkerAction)
        requires
            old(self)@.wf(),
            frame matches Frame::Text(Some(ticker)) ==> ticker@.heard(old(self)@.market) is Some
                ==> old(self)@.seq <= u64::MAX - 2 && old(self)@.stats.msg_count < MAX_MESSAGES,
        ensures
            final(self)@.wf(),
            match frame {
                Frame::Text(Some(ticker)) => match ticker@.heard(old(self)@.market) {
                    Some(t) => {
                        &&& action@ == WorkerActionView::Write(
                            quote_stores(
                                old(self)@.offset,
                                old(self)@.seq,
                                t.quote,
                                t.stamp(now),
                            ),
                        )
                        &&& final(self)@.seq == old(self)@.seq + 2
                        &&& final(self)@.stats@ == old(self)@.stats@.counted(t.event_time, now)
                        &&& final(self)@ == (DedicatedView {
                            seq: final(self)@.seq,
                            stats: final(self)@.stats,
                            ..old(self)@
                        })
                    },
                    None => action@ == WorkerActionView::Nothing && final(self)@ == old(self)@,
                },
                _ => action@ == reply_of(frame) && final(self)@ == old(self)@,
            },
            final(self)@.seq == number_after(old(self)@.market, old(self)@.seq, event_of(frame, now)),
            action@ matches WorkerActionView::Write(stores) ==> stores == stores_after(
                old(self)@.market,
                old(self)@.offset,
                old(self)@.seq,
                event_of(frame, now),
            ),
    {
        match frame {
            Frame::Text(Some(ticker)) => match heard(self.market, ticker) {
                Some(t) => {
                    let (_s, b, bq, a, aq, event_time) = ticker_fields(t);
                    let ts: u64 = match event_time {
                        Some(e) => e,
                        None => now,
                    };
                    self.stats.count(event_time, now);
                    WorkerAction::Write(write_to_mmap(self.offset, &mut self.seq, b, bq, a, aq, ts))
                },
                None => WorkerAction::Nothing,
            },
            _ => reply(frame),
        }
    }

    /// The report that is due `since_report` seconds after the last one, `uptime` seconds after
    /// the connection was made. A report starts the count anew.
    pub fn report(&mut self, since_report: u64, uptime: u64) -> (report: Option<Report>)
        requires
            old(self)@.wf(),
        ensures
            report == report_due(old(self)@.market, old(self)@.stats, since_report, uptime),
            final(self)@.stats@ == (if report is Some {
                StatsView::zero()
            } else {
                old(self)@.stats@
            }),
            final(self)@ == (DedicatedView { stats: final(self)@.stats, ..old(self)@ }),
            final(self)@.wf(),
    {
        self.stats.report(self.market, since_report, uptime)
    }
}

/// The symbol of a ticker makes no difference to the worker of one symbol: whatever it is, the
/// ticker is taken or passed over, stored, stamped and counted alike.
pub proof fn law_any_symbol_is_written(
    market: Market,
    offset: int,
    seq: u64,
    ticker: TickerView,
    symbol: Seq<char>,
    now: u64,
)
    ensures
        ({
            let other = TickerView { symbol, ..ticker };
            &&& number_after(market, seq, WorkerEvent::Ticker(other, now)) == number_after(
                market,
                seq,
                WorkerEvent::Ticker(ticker, now),
            )
            &&& stores_after(market, offset, seq, WorkerEvent::Ticker(other, now)) == stores_after(
                market,
                offset,
                seq,
                WorkerEvent::Ticker(ticker, now),
            )
            &&& match ticker.heard(market) {
                Some(t) => other.heard(market) == Some(TickerView { symbol, ..t }),
                None => other.heard(market) is None,
            }
        }),
{
}

} // verus!
