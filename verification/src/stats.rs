//! The traffic of a connection, counted between two reports.
//!
//! Latencies are whole milliseconds: the time at which a quote arrived less the time that the
//! exchange put on it. They are negative where the exchange's clock is ahead.
use vstd::prelude::*;

use crate::config::{Market, LATENCY_CRITICAL_MS, STATS_REPORT_INTERVAL_SEC};

verus! {

/// As many quotes as can be counted between two reports without the sum of their latencies
/// leaving its type.
pub const MAX_MESSAGES: u64 = 0x7fff_ffff_ffff_ffff;

/// What was counted since the last report.
#[derive(Clone, Copy, Debug, PartialEq, Eq, Structural)]
pub struct Stats {
    /// Quotes.
    pub msg_count: u64,
    /// The sum of their latencies.
    pub sum_latency: i128,
    /// The largest of their latencies, and at least zero.
    pub max_latency: i128,
}

/// What a `Stats` says.
#[verifier::ext_equal]
pub struct StatsView {
    pub msg_count: int,
    pub sum_latency: int,
    pub max_latency: int,
}

impl View for Stats {
    type V = StatsView;

    open spec fn view(&self) -> StatsView {
        StatsView {
            msg_count: self.msg_count as int,
            sum_latency: self.sum_latency as int,
            max_latency: self.max_latency as int,
        }
    }
}

impl StatsView {
    /// Nothing counted.
    pub open spec fn zero() -> StatsView {
        StatsView { msg_count: 0, sum_latency: 0, max_latency: 0 }
    }

    /// What the counted quotes allow the sums to be.
    pub open spec fn wf(self) -> bool {
        &&& 0 <= self.msg_count <= MAX_MESSAGES
        &&& -(self.msg_count * u64::MAX) <= self.sum_latency <= self.msg_count * u64::MAX
        &&& 0 <= self.max_latency <= u64::MAX
    }

    /// One more quote, which arrived at `now`. One without a time of the exchange has no
    /// latency.
    pub open spec fn counted(self, event_time: Option<u64>, now: u64) -> StatsView {
        match event_time {
            None => StatsView { msg_count: self.msg_count + 1, ..self },
            Some(e) => StatsView {
                msg_count: self.msg_count + 1,
                sum_latency: self.sum_latency + (now - e),
                max_latency: if now - e > self.max_latency {
                    now - e
                } else {
                    self.max_latency
                },
            },
        }
    }
}

/// A report on the traffic of a connection.
#[derive(Clone, Copy, Debug, PartialEq, Eq, Structural)]
pub enum Report {
    /// No quote came.
    Silence,
    /// Quotes came.
    Traffic {
        /// Whether a latency was critical.
        critical: bool,
        /// Minutes since the connection was made.
        uptime_min: u64,
        /// What was counted.
        stats: Stats,
    },
}

/// The report that is due after `since_report` seconds, if one is.
pub open spec fn report_due(
    market: Market,
    stats: Stats,
    since_report: u64,
    uptime: u64,
) -> Option<Report> {
    if since_report < STATS_REPORT_INTERVAL_SEC {
        None
    } else if stats.msg_count == 0 {
        Some(Report::Silence)
    } else {
        Some(
            Report::Traffic {
                critical: market == Market::Futures && stats.max_latency > LATENCY_CRITICAL_MS,
                uptime_min: uptime / 60,
                stats,
            },
        )
    }
}

impl Stats {
    /// Nothing counted.
    pub fn new() -> (stats: Stats)
        ensures
            stats@ == StatsView::zero(),
            stats@.wf(),
    {
        Stats { msg_count: 0, sum_latency: 0, max_latency: 0 }
    }

    /// Counts a quote that arrived at `now`.
    pub fn count(&mut self, event_time: Option<u64>, now: u64)
        requires
            old(self)@.wf(),
            old(self).msg_count < MAX_MESSAGES,
        ensures
            final(self)@ == old(self)@.counted(event_time, now),
            final(self)@.wf(),
    {
        let ghost before = self@;
        proof {
            assert((before.msg_count + 1) * u64::MAX == before.msg_count * u64::MAX + u64::MAX)
                by (nonlinear_arith);
            assert((before.msg_count + 1) * u64::MAX <= MAX_MESSAGES * u64::MAX) by (nonlinear_arith)
                requires
                    before.msg_count + 1 <= MAX_MESSAGES,
            ;
        }
        self.msg_count = self.msg_count + 1;
        if let Some(e) = event_time {
            let lat: i128 = now as i128 - e as i128;
            self.sum_latency = self.sum_latency + lat;
            if lat > self.max_latency {
                self.max_latency = lat;
            }
        }
    }

    /// The report that is due `since_report` seconds after the last one, `uptime` seconds after
    /// the connection was made. A report starts the count anew.
    pub fn report(&mut self, market: Market, since_report: u64, uptime: u64) -> (report: Option<
        Report,
    >)
        requires
            old(self)@.wf(),
        ensures
            report == report_due(market, *old(self), since_report, uptime),
            final(self)@ == (if report is Some {
                StatsView::zero()
            } else {
                old(self)@
            }),
            final(self)@.wf(),
    {
        if since_report < STATS_REPORT_INTERVAL_SEC {
            return None;
        }
        let report = if self.msg_count > 0 {
            Report::Traffic {
                critical: market == Market::Futures && self.max_latency > LATENCY_CRITICAL_MS,
                uptime_min: uptime / 60,
                stats: *self,
            }
        } else {
            Report::Silence
        };
        *self = Stats::new();
        Some(report)
    }
}

/// What is counted of a list of quotes, each with the time of the exchange and of its arrival.
pub open spec fn counted_all(quotes: Seq<(Option<u64>, u64)>) -> StatsView
    decreases quotes.len(),
{
    if quotes.len() == 0 {
        StatsView::zero()
    } else {
        counted_all(quotes.drop_last()).counted(quotes.last().0, quotes.last().1)
    }
}

/// The latency of a quote, and zero for one without a time of the exchange.
pub open spec fn latency(quote: (Option<u64>, u64)) -> int {
    match quote.0 {
        Some(e) => quote.1 - e,
        None => 0,
    }
}

/// The count is the number of quotes, the sum is the sum of their latencies, and the maximum is
/// the largest latency, or zero where none is positive.
pub proof fn law_counts_are_totals(quotes: Seq<(Option<u64>, u64)>)
    ensures
        counted_all(quotes).msg_count == quotes.len(),
        counted_all(quotes).sum_latency == quotes.fold_left(
            0int,
            |sum: int, q: (Option<u64>, u64)| sum + latency(q),
        ),
        counted_all(quotes).max_latency >= 0,
        forall|i: int|
            0 <= i < quotes.len() ==> latency(#[trigger] quotes[i]) <= counted_all(quotes).max_latency,
        counted_all(quotes).max_latency == 0 || exists|i: int|
            0 <= i < quotes.len() && latency(#[trigger] quotes[i]) == counted_all(
                quotes,
            ).max_latency,
    decreases quotes.len(),
{
    if quotes.len() > 0 {
        let before = quotes.drop_last();
        law_counts_are_totals(before);
        let all = counted_all(quotes);
        let most = counted_all(before).max_latency;
        assert forall|i: int| 0 <= i < quotes.len() implies latency(#[trigger] quotes[i])
            <= all.max_latency by {
            if i < before.len() {
                assert(before[i] == quotes[i]);
            }
        }
        if all.max_latency == most && most != 0 {
            let i = choose|i: int| 0 <= i < before.len() && latency(#[trigger] before[i]) == most;
            assert(quotes[i] == before[i]);
        } else if all.max_latency != 0 {
            assert(latency(quotes[quotes.len() - 1]) == all.max_latency);
        }
    }
}

/// A quote more is one more message, and adds its latency, the time of arrival less the time of
/// the exchange, to the sum and, where it is the largest, to the maximum; one without a time of
/// the exchange changes neither. At the start everything is zero.
pub proof fn law_one_more_quote(stats: StatsView, e: u64, now: u64)
    ensures
        StatsView::zero().msg_count == 0,
        StatsView::zero().sum_latency == 0,
        StatsView::zero().max_latency == 0,
        stats.counted(None, now).msg_count == stats.msg_count + 1,
        stats.counted(None, now).sum_latency == stats.sum_latency,
        stats.counted(None, now).max_latency == stats.max_latency,
        stats.counted(Some(e), now).msg_count == stats.msg_count + 1,
        stats.counted(Some(e), now).sum_latency - stats.sum_latency == now - e,
        stats.counted(Some(e), now).max_latency >= now - e,
        stats.counted(Some(e), now).max_latency >= stats.max_latency,
        stats.counted(Some(e), now).max_latency == now - e || stats.counted(
            Some(e),
            now,
        ).max_latency == stats.max_latency,
{
}

/// What a `Stats` says is what it holds. It counts as many quotes as a signed 64-bit number can.
pub proof fn law_stats_say_what_they_hold(stats: Stats)
    ensures
        stats@.msg_count == stats.msg_count,
        stats@.sum_latency == stats.sum_latency,
        stats@.max_latency == stats.max_latency,
        MAX_MESSAGES == i64::MAX,
{
}

/// A report is due 30 seconds after the last one. It tells of the quotes that were counted since
/// then: of silence exactly if there were none, and else it hands on what was counted, with the
/// whole minutes of uptime, and is critical exactly if the market is that of the futures and some
/// single quote arrived more than 500 milliseconds after the time that the exchange put on it.
pub proof fn law_report_tells_of_the_quotes(
    market: Market,
    quotes: Seq<(Option<u64>, u64)>,
    stats: Stats,
    since_report: u64,
    uptime: u64,
)
    requires
        stats@ == counted_all(quotes),
    ensures
        report_due(market, stats, since_report, uptime) is None <==> since_report < 30,
        since_report >= 30 ==> (report_due(market, stats, since_report, uptime) == Some(
            Report::Silence,
        ) <==> quotes.len() == 0),
        report_due(market, stats, since_report, uptime) matches Some(
            Report::Traffic { critical, uptime_min, stats: told },
        ) ==> {
            &&& critical <==> market == Market::Futures && exists|i: int|
                0 <= i < quotes.len() && (#[trigger] quotes[i]).0 is Some && quotes[i].1
                    - quotes[i].0->Some_0 > 500
            &&& 60 * uptime_min <= uptime < 60 * uptime_min + 60
            &&& told.msg_count == quotes.len()
            &&& told.sum_latency == stats.sum_latency
            &&& told.max_latency == stats.max_latency
        },
{
    law_counts_are_totals(quotes);
    let most = counted_all(quotes).max_latency;
    assert(forall|i: int| 0 <= i < quotes.len() ==> latency(#[trigger] quotes[i]) <= most);
    if most > 500 {
        let i = choose|i: int| 0 <= i < quotes.len() && latency(#[trigger] quotes[i]) == most;
        assert(quotes[i].0 is Some && quotes[i].1 - quotes[i].0->Some_0 > 500);
    }
}

} // verus!
