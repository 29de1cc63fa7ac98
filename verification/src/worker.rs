//! What workers hear from a connection, and what they do about it.
use vstd::prelude::*;
use vstd::utf8::encode_utf8;

use crate::command::{ws_commands_view, WorkerCmdView, WsCommand, WsCommandView};
use crate::config::Market;
use crate::record::{stores_view, QuoteBytes, Store, StoreView};
use crate::text::texts;

verus! {

/// Best bid and offer of a futures symbol.
#[derive(Clone, Copy, Debug)]
pub struct BookTickerFutures<'a> {
    /// The symbol.
    pub s: &'a str,
    /// The bid price.
    pub b: &'a str,
    /// The bid quantity.
    pub bq: &'a str,
    /// The ask price.
    pub a: &'a str,
    /// The ask quantity.
    pub aq: &'a str,
    /// The time of the exchange, milliseconds.
    pub e: u64,
}

/// Best bid and offer of a spot symbol.
#[derive(Clone, Copy, Debug)]
pub struct BookTickerSpot<'a> {
    /// The symbol.
    pub s: &'a str,
    /// The bid price.
    pub b: &'a str,
    /// The bid quantity.
    pub bq: &'a str,
    /// The ask price.
    pub a: &'a str,
    /// The ask quantity.
    pub aq: &'a str,
}

/// Best bid and offer of a symbol.
#[derive(Clone, Copy, Debug)]
pub enum Ticker<'a> {
    /// Of a futures symbol.
    Futures(BookTickerFutures<'a>),
    /// Of a spot symbol.
    Spot(BookTickerSpot<'a>),
}

/// What a `Ticker` says.
pub struct TickerView {
    pub symbol: Seq<char>,
    pub quote: QuoteBytes,
    pub event_time: Option<u64>,
}

impl TickerView {
    /// The time stamp of the quote: the time of the exchange, or else the time of arrival.
    pub open spec fn stamp(self, now: u64) -> u64 {
        match self.event_time {
            Some(e) => e,
            None => now,
        }
    }

    /// The ticker as a worker of `market` takes it. On the futures market a ticker has a time of
    /// the exchange, and one without is none; on the spot market no such time is looked at.
    pub open spec fn heard(self, market: Market) -> Option<TickerView> {
        match market {
            Market::Futures => match self.event_time {
                Some(_) => Some(self),
                None => None,
            },
            Market::Spot => Some(TickerView { event_time: None, ..self }),
        }
    }
}

impl<'a> View for Ticker<'a> {
    type V = TickerView;

    open spec fn view(&self) -> TickerView {
        match *self {
            Ticker::Futures(t) => TickerView {
                symbol: t.s@,
                quote: QuoteBytes {
                    bid: encode_utf8(t.b@),
                    bid_qty: encode_utf8(t.bq@),
                    ask: encode_utf8(t.a@),
                    ask_qty: encode_utf8(t.aq@),
                },
                event_time: Some(t.e),
            },
            Ticker::Spot(t) => TickerView {
                symbol: t.s@,
                quote: QuoteBytes {
                    bid: encode_utf8(t.b@),
                    bid_qty: encode_utf8(t.bq@),
                    ask: encode_utf8(t.a@),
                    ask_qty: encode_utf8(t.aq@),
                },
                event_time: None,
            },
        }
    }
}

/// The ticker as a worker of `market` takes it.
pub fn heard<'a>(market: Market, ticker: Ticker<'a>) -> (taken: Option<Ticker<'a>>)
    ensures
        match taken {
            Some(t) => ticker@.heard(market) == Some(t@),
            None => ticker@.heard(market) is None,
        },
{
    match market {
        Market::Futures => match ticker {
            Ticker::Futures(t) => Some(Ticker::Futures(t)),
            Ticker::Spot(_) => None,
        },
        Market::Spot => match ticker {
            Ticker::Futures(t) => Some(
                Ticker::Spot(BookTickerSpot { s: t.s, b: t.b, bq: t.bq, a: t.a, aq: t.aq }),
            ),
            Ticker::Spot(t) => Some(Ticker::Spot(t)),
        },
    }
}

/// The fields of a ticker: symbol, bid, bid quantity, ask, ask quantity, time of the exchange.
pub(crate) fn ticker_fields<'a>(ticker: Ticker<'a>) -> (fields: (
    &'a str,
    &'a str,
    &'a str,
    &'a str,
    &'a str,
    Option<u64>,
))
    ensures
        ticker@.symbol == fields.0@,
        ticker@.quote.bid == encode_utf8(fields.1@),
        ticker@.quote.bid_qty == encode_utf8(fields.2@),
        ticker@.quote.ask == encode_utf8(fields.3@),
        ticker@.quote.ask_qty == encode_utf8(fields.4@),
        ticker@.event_time == fields.5,
{
    match ticker {
        Ticker::Futures(t) => (t.s, t.b, t.bq, t.a, t.aq, Some(t.e)),
        Ticker::Spot(t) => (t.s, t.b, t.bq, t.a, t.aq, None),
    }
}

/// What comes from a connection.
#[derive(Clone, Copy, Debug)]
pub enum Frame<'a> {
    /// A text, and the ticker that it holds, if it holds one.
    Text(Option<Ticker<'a>>),
    /// A ping.
    Ping,
    /// A close.
    Close,
    /// The end of the connection.
    Ended,
    /// An error.
    Failed,
    /// Silence for `WS_TIMEOUT_SEC` seconds.
    Silence,
    /// Anything else.
    Other,
}

/// Something that happens to a worker.
pub enum WorkerEvent {
    /// A connection was made.
    Connected,
    /// A command came.
    Command(WorkerCmdView),
    /// A ticker came, at a time.
    Ticker(TickerView, u64),
    /// Anything else: another frame, a report, the switch to a replacement connection.
    Other,
}

/// What happens to a worker when a frame comes at `now`.
pub open spec fn event_of(frame: Frame, now: u64) -> WorkerEvent {
    match frame {
        Frame::Text(Some(ticker)) => WorkerEvent::Ticker(ticker@, now),
        _ => WorkerEvent::Other,
    }
}

/// What is done about a frame that holds no ticker: a ping is answered, and whatever ends the
/// connection, or leaves it silent, has another one made.
pub open spec fn reply_of(frame: Frame) -> WorkerActionView {
    match frame {
        Frame::Text(_) => WorkerActionView::Nothing,
        Frame::Ping => WorkerActionView::Flush,
        Frame::Close => WorkerActionView::Reconnect,
        Frame::Ended => WorkerActionView::Reconnect,
        Frame::Failed => WorkerActionView::Reconnect,
        Frame::Silence => WorkerActionView::Reconnect,
        Frame::Other => WorkerActionView::Nothing,
    }
}

/// How the making of a replacement connection ended.
#[derive(Clone, Copy, Debug, PartialEq, Eq, Structural)]
pub enum WarmupOutcome {
    /// The new connection carries quotes.
    Ready,
    /// It could not be made.
    Failed,
    /// The task that made it died.
    Died,
}

/// What a worker has to do next.
#[derive(Debug)]
pub enum WorkerAction {
    /// Nothing.
    Nothing,
    /// Send commands, with a pause of so many milliseconds after each.
    Send { commands: Vec<WsCommand>, pause_ms: u64 },
    /// Start to make a replacement connection that follows these streams.
    StartWarmup(Vec<String>),
    /// Close the connection, go on with the replacement, and count its uptime from now.
    SwitchStream,
    /// Carry out stores to the shared memory, in order.
    Write(Vec<Store>),
    /// Flush what is buffered for sending.
    Flush,
    /// Give the connection up and make a new one.
    Reconnect,
}

/// What a `WorkerAction` says.
pub enum WorkerActionView {
    Nothing,
    Send { commands: Seq<WsCommandView>, pause_ms: u64 },
    StartWarmup(Seq<Seq<char>>),
    SwitchStream,
    Write(Seq<StoreView>),
    Flush,
    Reconnect,
}

impl View for WorkerAction {
    type V = WorkerActionView;

    open spec fn view(&self) -> WorkerActionView {
        match *self {
            WorkerAction::Nothing => WorkerActionView::Nothing,
            WorkerAction::Send { commands, pause_ms } => WorkerActionView::Send {
                commands: ws_commands_view(commands@),
                pause_ms,
            },
            WorkerAction::StartWarmup(streams) => WorkerActionView::StartWarmup(texts(streams@)),
            WorkerAction::SwitchStream => WorkerActionView::SwitchStream,
            WorkerAction::Write(stores) => WorkerActionView::Write(stores_view(stores@)),
            WorkerAction::Flush => WorkerActionView::Flush,
            WorkerAction::Reconnect => WorkerActionView::Reconnect,
        }
    }
}

/// What is done about a frame that holds no ticker.
pub fn reply(frame: Frame) -> (action: WorkerAction)
    ensures
        action@ == reply_of(frame),
{
    match frame {
        Frame::Text(_) => WorkerAction::Nothing,
        Frame::Ping => WorkerAction::Flush,
        Frame::Close => WorkerAction::Reconnect,
        Frame::Ended => WorkerAction::Reconnect,
        Frame::Failed => WorkerAction::Reconnect,
        Frame::Silence => WorkerAction::Reconnect,
        Frame::Other => WorkerAction::Nothing,
    }
}

/// What a worker does when a replacement connection is ready, or is not to be had.
pub fn on_warmup(outcome: WarmupOutcome) -> (action: WorkerAction)
    ensures
        action@ == (if outcome == WarmupOutcome::Ready {
            WorkerActionView::SwitchStream
        } else {
            WorkerActionView::Nothing
        }),
{
    match outcome {
        WarmupOutcome::Ready => WorkerAction::SwitchStream,
        WarmupOutcome::Failed => WorkerAction::Nothing,
        WarmupOutcome::Died => WorkerAction::Nothing,
    }
}

/// What a ticker says is what its fields hold.
pub proof fn law_ticker_says_its_fields<'a>(f: BookTickerFutures<'a>, p: BookTickerSpot<'a>)
    ensures
        Ticker::Futures(f)@.symbol == f.s@,
        Ticker::Futures(f)@.quote.bid == encode_utf8(f.b@),
        Ticker::Futures(f)@.quote.bid_qty == encode_utf8(f.bq@),
        Ticker::Futures(f)@.quote.ask == encode_utf8(f.a@),
        Ticker::Futures(f)@.quote.ask_qty == encode_utf8(f.aq@),
        Ticker::Futures(f)@.event_time == Some(f.e),
        Ticker::Spot(p)@.symbol == p.s@,
        Ticker::Spot(p)@.quote.bid == encode_utf8(p.b@),
        Ticker::Spot(p)@.quote.bid_qty == encode_utf8(p.bq@),
        Ticker::Spot(p)@.quote.ask == encode_utf8(p.a@),
        Ticker::Spot(p)@.quote.ask_qty == encode_utf8(p.aq@),
        Ticker::Spot(p)@.event_time == None::<u64>,
{
}

/// What a worker takes of a ticker is the ticker's own symbol and quote, untouched. The market
/// decides only whether the ticker is taken, which the futures market does not do without a time
/// of the exchange, and by which time it is stamped and its latency counted.
pub proof fn law_taken_ticker_is_untouched(market: Market, ticker: TickerView, now: u64)
    ensures
        ticker.heard(market) is Some <==> market == Market::Spot || ticker.event_time is Some,
        ticker.heard(market) matches Some(t) ==> {
            &&& t.symbol == ticker.symbol
            &&& t.quote.bid == ticker.quote.bid
            &&& t.quote.bid_qty == ticker.quote.bid_qty
            &&& t.quote.ask == ticker.quote.ask
            &&& t.quote.ask_qty == ticker.quote.ask_qty
            &&& market == Market::Futures ==> t.event_time == ticker.event_time && Some(
                t.stamp(now),
            ) == ticker.event_time
            &&& market == Market::Spot ==> t.event_time is None && t.stamp(now) == now
        },
{
}

/// A frame without a ticker is answered by a flush if it is a ping, and by a new connection if
/// the old one has ended or been silent for too long; nothing is done about any other. A frame
/// with a ticker is the arrival of that ticker.
pub proof fn law_frames_are_answered<'a>(frame: Frame<'a>, now: u64)
    ensures
        reply_of(frame) is Flush <==> frame is Ping,
        reply_of(frame) is Reconnect <==> frame is Close || frame is Ended || frame is Failed
            || frame is Silence,
        reply_of(frame) is Nothing <==> frame is Text || frame is Other,
        frame matches Frame::Text(Some(ticker)) ==> event_of(frame, now) == WorkerEvent::Ticker(
            ticker@,
            now,
        ),
        !(frame matches Frame::Text(Some(_))) ==> event_of(frame, now) is Other,
{
}

/// What an action says is what it holds.
pub proof fn law_action_says_what_it_holds(action: WorkerAction)
    ensures
        match action {
            WorkerAction::Nothing => action@ is Nothing,
            WorkerAction::Send { commands, pause_ms } => action@ matches WorkerActionView::Send {
                commands: said,
                pause_ms: ms,
            } && ms == pause_ms && said.len() == commands@.len() && forall|i: int|
                0 <= i < commands@.len() ==> #[trigger] said[i] == commands@[i]@,
            WorkerAction::StartWarmup(streams) => action@ matches WorkerActionView::StartWarmup(
                said,
            ) && said.len() == streams@.len() && forall|i: int|
                0 <= i < streams@.len() ==> #[trigger] said[i] == streams@[i]@,
            WorkerAction::SwitchStream => action@ is SwitchStream,
            WorkerAction::Write(stores) => action@ matches WorkerActionView::Write(said)
                && said.len() == stores@.len() && forall|i: int|
                0 <= i < stores@.len() ==> #[trigger] said[i] == stores@[i]@,
            WorkerAction::Flush => action@ is Flush,
            WorkerAction::Reconnect => action@ is Reconnect,
        },
{
}

} // verus!
