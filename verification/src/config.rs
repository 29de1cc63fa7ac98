//! The markets that are followed, and the figures that the writer runs by.
use vstd::prelude::*;

verus! {

/// How many symbols of one market the shared memory has room for.
pub const MAX_COINS: usize = 2000;

/// Bytes of one record: a multiple of the cache line, so that no two records share one.
pub const RECORD_SIZE: usize = 128;

/// Bytes of the shared memory of one market.
pub const SHM_SIZE: usize = MAX_COINS * RECORD_SIZE;

/// Seconds between two reports on a connection's traffic.
pub const STATS_REPORT_INTERVAL_SEC: u64 = 30;

/// A latency above this many milliseconds is reported as a warning.
pub const LATENCY_CRITICAL_MS: i128 = 500;

/// Seconds of silence after which a connection is given up: the exchange pings every three
/// minutes, and twenty seconds are allowed on top.
pub const WS_TIMEOUT_SEC: u64 = 200;

/// Workers that share the spot symbols.
pub const NUM_WORKERS_SPOT: usize = 3;

/// Workers that share the futures symbols.
pub const NUM_WORKERS_FUTURES: usize = 8;

/// Bytes asked for as a socket's receive buffer.
pub const REQUESTED_SIZE_BUFFER: u32 = 2 * 1024 * 1024;

/// Seconds between two rounds of planned reconnects.
pub const SCHEDULED_RECONNECT_INTERVAL_SEC: u64 = 3600;

/// Seconds between the reconnects of two workers of one round.
pub const STREAMS_RESUBSCRIBE_DELAY_SEC: u64 = 5;

/// Seconds before another try where a connection could not be made.
pub const RETRY_DELAY_SEC: u64 = 3;

/// Seconds that the closing of a replaced connection may take.
pub const CLOSE_TIMEOUT_SEC: u64 = 2;

/// Seconds between two looks at the exchange's list of symbols.
pub const LISTING_INTERVAL_SEC: u64 = 3600;

/// Streams that one subscribe or unsubscribe command names at most.
pub const STREAMS_PER_COMMAND: usize = 50;

/// Milliseconds that pass after a subscribe command before the next one.
pub const SUBSCRIBE_PAUSE_MS: u64 = 300;

/// A market of the exchange.
#[derive(Clone, Copy, Debug, PartialEq, Eq, Structural)]
pub enum Market {
    /// Perpetual and dated futures.
    Futures,
    /// Spot pairs.
    Spot,
}

impl Market {
    /// The market's name in tags and in the list of dedicated symbols.
    pub open spec fn spec_name(self) -> Seq<char> {
        match self {
            Market::Futures => "FUTURES"@,
            Market::Spot => "SPOT"@,
        }
    }

    /// The market's name.
    pub fn name(self) -> (name: &'static str)
        ensures
            name@ == self.spec_name(),
    {
        match self {
            Market::Futures => "FUTURES",
            Market::Spot => "SPOT",
        }
    }

    /// The address of the market's streams.
    pub fn ws_url(self) -> (url: &'static str)
        ensures
            url@ == (match self {
                Market::Futures => "wss://fstream.binance.com/stream"@,
                Market::Spot => "wss://stream.binance.com:9443/stream"@,
            }),
    {
        match self {
            Market::Futures => "wss://fstream.binance.com/stream",
            Market::Spot => "wss://stream.binance.com:9443/stream",
        }
    }

    /// The address of the market's list of symbols.
    pub fn rest_url(self) -> (url: &'static str)
        ensures
            url@ == (match self {
                Market::Futures => "https://fapi.binance.com/fapi/v1/exchangeInfo"@,
                Market::Spot => "https://api.binance.com/api/v3/exchangeInfo"@,
            }),
    {
        match self {
            Market::Futures => "https://fapi.binance.com/fapi/v1/exchangeInfo",
            Market::Spot => "https://api.binance.com/api/v3/exchangeInfo",
        }
    }

    /// The file that the market's shared memory is mapped from.
    pub fn mmap_file(self) -> (file: &'static str)
        ensures
            file@ == (match self {
                Market::Futures => "binance_bbo_futum_mem.mmap"@,
                Market::Spot => "binance_bbo_spot_mem.mmap"@,
            }),
    {
        match self {
            Market::Futures => "binance_bbo_futum_mem.mmap",
            Market::Spot => "binance_bbo_spot_mem.mmap",
        }
    }

    /// How many workers share the market's symbols.
    pub fn num_workers(self) -> (n: usize)
        ensures
            n == (match self {
                Market::Futures => NUM_WORKERS_FUTURES,
                Market::Spot => NUM_WORKERS_SPOT,
            }),
    {
        match self {
            Market::Futures => NUM_WORKERS_FUTURES,
            Market::Spot => NUM_WORKERS_SPOT,
        }
    }
}

/// The figures, in numbers: the memory of a market holds 2000 records of two cache lines each;
/// a report is made every 30 seconds and warns above 500 milliseconds; a connection may be silent
/// for 200 seconds; commands name 50 streams at most and are 300 milliseconds apart; the exchange's
/// list is looked at every hour, and every hour the connections are replaced, 5 seconds apart.
pub proof fn law_figures()
    ensures
        MAX_COINS == 2000,
        RECORD_SIZE == 2 * 64,
        SHM_SIZE == 2000 * 128,
        STATS_REPORT_INTERVAL_SEC == 30,
        LATENCY_CRITICAL_MS == 500,
        WS_TIMEOUT_SEC == 3 * 60 + 20,
        NUM_WORKERS_SPOT == 3,
        NUM_WORKERS_FUTURES == 8,
        REQUESTED_SIZE_BUFFER == 2 * 1024 * 1024,
        SCHEDULED_RECONNECT_INTERVAL_SEC == 60 * 60,
        STREAMS_RESUBSCRIBE_DELAY_SEC == 5,
        RETRY_DELAY_SEC == 3,
        CLOSE_TIMEOUT_SEC == 2,
        LISTING_INTERVAL_SEC == 60 * 60,
        STREAMS_PER_COMMAND == 50,
        SUBSCRIBE_PAUSE_MS == 300,
{
}

/// The names of the markets are different.
pub proof fn law_market_names(market: Market)
    ensures
        market.spec_name() == (match market {
            Market::Futures => seq!['F', 'U', 'T', 'U', 'R', 'E', 'S'],
            Market::Spot => seq!['S', 'P', 'O', 'T'],
        }),
{
    reveal_strlit("FUTURES");
    reveal_strlit("SPOT");
    assert("FUTURES"@ =~= seq!['F', 'U', 'T', 'U', 'R', 'E', 'S']);
    assert("SPOT"@ =~= seq!['S', 'P', 'O', 'T']);
}

} // verus!
