use bidasker_writer::command::{WorkerCmd, WsCommand};
use bidasker_writer::config::Market;
use bidasker_writer::dedicated::DedicatedWorker;
use bidasker_writer::handover::Handover;
use bidasker_writer::orchestrator::{OrchAction, Orchestrator};
use bidasker_writer::pool::{subscribe_commands, PoolWorker};
use bidasker_writer::record::Store;
use bidasker_writer::stats::{Report, Stats};
use bidasker_writer::worker::{
    heard, on_warmup, reply, BookTickerFutures, BookTickerSpot, Frame, Ticker, WarmupOutcome,
    WorkerAction,
};

fn futures(s: &str, e: u64) -> Ticker<'_> {
    Ticker::Futures(BookTickerFutures { s, b: "1.1", bq: "2", a: "1.2", aq: "3", e })
}

fn spot(s: &str) -> Ticker<'_> {
    Ticker::Spot(BookTickerSpot { s, b: "1.1", bq: "2", a: "1.2", aq: "3" })
}

fn written(action: WorkerAction) -> (usize, u64, u64) {
    match action {
        WorkerAction::Write(stores) => {
            assert_eq!(stores.len(), 9);
            let ts = match stores[6] {
                Store::Word { value, .. } => value,
                _ => panic!("no time stamp"),
            };
            match &stores[2] {
                Store::Bytes { bytes, .. } => assert_eq!(&bytes[..4], b"1.1\0"),
                other => panic!("no bid: {:?}", other),
            }
            match stores[8] {
                Store::Sequence { at, value } => (at, value, ts),
                _ => panic!("no sequence number"),
            }
        }
        other => panic!("not a write: {:?}", other),
    }
}

fn sent(action: WorkerAction) -> (Vec<WsCommand>, u64) {
    match action {
        WorkerAction::Send { commands, pause_ms } => (commands, pause_ms),
        other => panic!("not a send: {:?}", other),
    }
}

fn list(pairs: &[(&str, usize)]) -> WorkerCmd {
    WorkerCmd::Subscribe(pairs.iter().map(|(s, o)| (s.to_string(), *o)).collect())
}

#[test]
fn dedicated_asks_for_its_stream() {
    let mut w = DedicatedWorker::new(Market::Futures, "BTCUSDT", 1);
    let command = w.on_connected(1234);
    assert_eq!(command.method, "SUBSCRIBE");
    assert_eq!(command.params, vec!["btcusdt@bookTicker"]);
    assert_eq!(command.id, 1234);
}

#[test]
fn dedicated_writes_every_ticker() {
    let mut w = DedicatedWorker::new(Market::Futures, "BTCUSDT", 1);
    assert_eq!(written(w.on_frame(Frame::Text(Some(futures("BTCUSDT", 990))), 1000)), (128, 2, 990));
    assert_eq!(written(w.on_frame(Frame::Text(Some(futures("OTHER", 1005))), 1000)), (128, 4, 1005));
    assert_eq!(w.sequence(), 4);
    assert_eq!(w.stats(), Stats { msg_count: 2, sum_latency: 5, max_latency: 10 });
    w.on_connected(1);
    assert_eq!(w.sequence(), 4);
    assert_eq!(w.stats(), Stats { msg_count: 0, sum_latency: 0, max_latency: 0 });
}

#[test]
fn dedicated_spot_is_stamped_on_arrival() {
    let mut w = DedicatedWorker::new(Market::Spot, "BTCUSDT", 0);
    assert_eq!(written(w.on_frame(Frame::Text(Some(spot("BTCUSDT"))), 777)), (0, 2, 777));
    assert_eq!(w.stats(), Stats { msg_count: 1, sum_latency: 0, max_latency: 0 });
}

#[test]
fn market_decides_about_the_time() {
    let mut d = DedicatedWorker::new(Market::Spot, "AUSDT", 0);
    assert_eq!(written(d.on_frame(Frame::Text(Some(futures("AUSDT", 7))), 1000)), (0, 2, 1000));
    assert_eq!(d.stats(), Stats { msg_count: 1, sum_latency: 0, max_latency: 0 });
    let mut p = PoolWorker::new(Market::Spot);
    p.on_command(list(&[("AUSDT", 128)]));
    assert_eq!(written(p.on_frame(Frame::Text(Some(futures("AUSDT", 7))), 1000)), (128, 2, 1000));
    assert_eq!(p.stats(), Stats { msg_count: 1, sum_latency: 0, max_latency: 0 });

    let mut d = DedicatedWorker::new(Market::Futures, "AUSDT", 0);
    assert!(matches!(d.on_frame(Frame::Text(Some(spot("AUSDT"))), 1000), WorkerAction::Nothing));
    assert_eq!(d.sequence(), 0);
    assert_eq!(d.stats().msg_count, 0);
    let mut p = PoolWorker::new(Market::Futures);
    p.on_command(list(&[("AUSDT", 128)]));
    assert!(matches!(p.on_frame(Frame::Text(Some(spot("AUSDT"))), 1000), WorkerAction::Nothing));
    assert_eq!(p.sequence("AUSDT"), Some(0));
    assert!(heard(Market::Futures, spot("AUSDT")).is_none());
    assert!(matches!(heard(Market::Spot, futures("AUSDT", 7)), Some(Ticker::Spot(_))));
    assert!(matches!(heard(Market::Futures, futures("AUSDT", 7)), Some(Ticker::Futures(_))));
}

#[test]
fn number_counts_quotes_over_reconnects() {
    let mut d = DedicatedWorker::new(Market::Futures, "BTCUSDT", 0);
    let mut p = PoolWorker::new(Market::Spot);
    p.on_command(list(&[("AUSDT", 128), ("BUSDT", 256)]));
    for n in 1..=5u64 {
        d.on_connected(n);
        d.on_command(&WorkerCmd::PlannedReconnect);
        assert_eq!(written(d.on_frame(Frame::Text(Some(futures("BTCUSDT", n))), n)), (0, 2 * n, n));
        d.on_frame(Frame::Silence, n);
        p.on_connected();
        p.on_command(list(&[("CUSDT", 384)]));
        p.on_frame(Frame::Text(Some(spot("BUSDT"))), n);
        assert_eq!(written(p.on_frame(Frame::Text(Some(spot("AUSDT"))), n)), (128, 2 * n, n));
        p.on_command(WorkerCmd::Unsubscribe(vec!["CUSDT".to_string()]));
        p.on_frame(Frame::Close, n);
    }
}

#[test]
fn dropped_symbol_stays_out() {
    let mut p = PoolWorker::new(Market::Spot);
    p.on_command(list(&[("AUSDT", 128), ("BUSDT", 256)]));
    p.on_frame(Frame::Text(Some(spot("BUSDT"))), 1);
    p.on_command(WorkerCmd::Unsubscribe(vec!["AUSDT".to_string()]));
    p.on_command(list(&[("CUSDT", 384)]));
    assert!(matches!(p.on_frame(Frame::Text(Some(spot("AUSDT"))), 2), WorkerAction::Nothing));
    assert_eq!(p.stats().msg_count, 1);
    assert_eq!(p.sequence("AUSDT"), None);
    assert_eq!(p.sequence("BUSDT"), Some(2));
    let (commands, _) = sent(p.on_connected());
    assert!(!commands[0].params.contains(&"ausdt@bookTicker".to_string()));
    assert_eq!(commands[0].params.len(), 2);
    match p.on_command(WorkerCmd::PlannedReconnect) {
        WorkerAction::StartWarmup(streams) => {
            assert!(!streams.contains(&"ausdt@bookTicker".to_string()));
            assert_eq!(streams.len(), 2);
        }
        other => panic!("{:?}", other),
    }
    p.on_command(list(&[("AUSDT", 512)]));
    assert_eq!(written(p.on_frame(Frame::Text(Some(spot("AUSDT"))), 3)), (512, 2, 3));
}

#[test]
fn only_the_latest_replacement_takes_over() {
    let mut h = Handover::new();
    assert_eq!((h.started(), h.awaited()), (0, None));
    assert!(matches!(h.on_ended(0, WarmupOutcome::Ready), WorkerAction::Nothing));
    let first = h.on_started();
    let second = h.on_started();
    assert_eq!((first, second), (0, 1));
    assert_eq!(h.awaited(), Some(1));
    assert!(matches!(h.on_ended(first, WarmupOutcome::Ready), WorkerAction::Nothing));
    assert!(matches!(h.on_ended(second, WarmupOutcome::Ready), WorkerAction::SwitchStream));
    assert!(matches!(h.on_ended(second, WarmupOutcome::Ready), WorkerAction::Nothing));
    let third = h.on_started();
    assert!(matches!(h.on_ended(third, WarmupOutcome::Failed), WorkerAction::Nothing));
    assert_eq!(h.awaited(), None);
    let fourth = h.on_started();
    assert!(matches!(h.on_ended(fourth, WarmupOutcome::Died), WorkerAction::Nothing));
    let fifth = h.on_started();
    h.on_connected();
    assert!(matches!(h.on_ended(fifth, WarmupOutcome::Ready), WorkerAction::Nothing));
    assert_eq!(h.started(), 5);
}

#[test]
fn other_frames() {
    let mut d = DedicatedWorker::new(Market::Spot, "BTCUSDT", 0);
    let mut p = PoolWorker::new(Market::Spot);
    assert!(matches!(d.on_frame(Frame::Text(None), 0), WorkerAction::Nothing));
    assert!(matches!(d.on_frame(Frame::Ping, 0), WorkerAction::Flush));
    for frame in [Frame::Close, Frame::Ended, Frame::Failed, Frame::Silence] {
        assert!(matches!(d.on_frame(frame, 0), WorkerAction::Reconnect));
        assert!(matches!(p.on_frame(frame, 0), WorkerAction::Reconnect));
        assert!(matches!(reply(frame), WorkerAction::Reconnect));
    }
    assert!(matches!(d.on_frame(Frame::Other, 0), WorkerAction::Nothing));
    assert!(matches!(p.on_frame(Frame::Text(None), 0), WorkerAction::Nothing));
    assert!(matches!(p.on_frame(Frame::Ping, 0), WorkerAction::Flush));
    assert!(matches!(p.on_frame(Frame::Other, 0), WorkerAction::Nothing));
    assert_eq!(d.sequence(), 0);
}

#[test]
fn dedicated_heeds_planned_reconnects_only() {
    let w = DedicatedWorker::new(Market::Futures, "ETHUSDT", 1);
    assert!(matches!(w.on_command(&list(&[("AUSDT", 0)])), WorkerAction::Nothing));
    assert!(matches!(w.on_command(&WorkerCmd::Unsubscribe(vec![])), WorkerAction::Nothing));
    match w.on_command(&WorkerCmd::PlannedReconnect) {
        WorkerAction::StartWarmup(streams) => assert_eq!(streams, vec!["ethusdt@bookTicker"]),
        other => panic!("{:?}", other),
    }
}

#[test]
fn pool_follows_what_it_is_told() {
    let mut w = PoolWorker::new(Market::Futures);
    let (commands, pause) = sent(w.on_command(list(&[("AUSDT", 256), ("BUSDT", 384)])));
    assert_eq!(pause, 300);
    assert_eq!(commands.len(), 1);
    assert_eq!(commands[0].method, "SUBSCRIBE");
    assert_eq!(commands[0].params, vec!["ausdt@bookTicker", "busdt@bookTicker"]);
    assert_eq!(commands[0].id, 1);
    assert_eq!(w.symbol_count(), 2);
    assert_eq!(written(w.on_frame(Frame::Text(Some(futures("BUSDT", 10))), 12)), (384, 2, 10));
    assert_eq!(written(w.on_frame(Frame::Text(Some(futures("BUSDT", 11))), 12)), (384, 4, 11));
    assert_eq!(w.sequence("BUSDT"), Some(4));
    assert_eq!(w.sequence("AUSDT"), Some(0));
    assert_eq!(w.sequence("CUSDT"), None);
    assert!(matches!(w.on_frame(Frame::Text(Some(futures("CUSDT", 1))), 2), WorkerAction::Nothing));
    assert_eq!(w.stats(), Stats { msg_count: 2, sum_latency: 3, max_latency: 2 });

    let (commands, pause) = sent(w.on_command(WorkerCmd::Unsubscribe(vec!["BUSDT".to_string(), "ZUSDT".to_string()])));
    assert_eq!(pause, 0);
    assert_eq!(commands[0].method, "UNSUBSCRIBE");
    assert_eq!(commands[0].params, vec!["busdt@bookTicker", "zusdt@bookTicker"]);
    assert_eq!(w.symbol_count(), 1);
    assert!(matches!(w.on_frame(Frame::Text(Some(futures("BUSDT", 1))), 2), WorkerAction::Nothing));
}

#[test]
fn pool_symbol_told_again_starts_anew() {
    let mut w = PoolWorker::new(Market::Spot);
    w.on_command(list(&[("AUSDT", 0)]));
    w.on_frame(Frame::Text(Some(spot("AUSDT"))), 5);
    assert_eq!(w.sequence("AUSDT"), Some(2));
    w.on_command(list(&[("AUSDT", 128), ("AUSDT", 512)]));
    assert_eq!(w.sequence("AUSDT"), Some(0));
    assert_eq!(written(w.on_frame(Frame::Text(Some(spot("AUSDT"))), 6)), (512, 2, 6));
}

#[test]
fn pool_unsubscribe_undoes_subscribe() {
    let mut w = PoolWorker::new(Market::Spot);
    w.on_command(list(&[("AUSDT", 0)]));
    w.on_frame(Frame::Text(Some(spot("AUSDT"))), 5);
    w.on_command(list(&[("BUSDT", 128), ("CUSDT", 256)]));
    w.on_command(WorkerCmd::Unsubscribe(vec!["BUSDT".to_string(), "CUSDT".to_string()]));
    assert_eq!(w.symbol_count(), 1);
    assert_eq!(w.sequence("AUSDT"), Some(2));
}

#[test]
fn pool_asks_for_everything_after_a_reconnect() {
    let mut w = PoolWorker::new(Market::Spot);
    let (commands, pause) = sent(w.on_connected());
    assert!(commands.is_empty());
    assert_eq!(pause, 300);
    let symbols: Vec<String> = (0..120).map(|i| format!("C{}USDT", i)).collect();
    let placed: Vec<(String, usize)> = symbols.iter().enumerate().map(|(i, s)| (s.clone(), i * 128)).collect();
    w.on_command(WorkerCmd::Subscribe(placed));
    w.on_frame(Frame::Text(Some(spot("C7USDT"))), 5);
    let (commands, _) = sent(w.on_connected());
    assert_eq!(commands.len(), 3);
    assert!(commands.iter().all(|c| c.method == "SUBSCRIBE" && c.id == 1));
    let mut asked: Vec<String> = commands.into_iter().flat_map(|c| c.params).collect();
    asked.sort();
    let mut expected: Vec<String> = symbols.iter().map(|s| format!("{}@bookTicker", s.to_lowercase())).collect();
    expected.sort();
    assert_eq!(asked, expected);
    assert_eq!(w.sequence("C7USDT"), Some(2));
    assert_eq!(w.stats().msg_count, 0);
    match w.on_command(WorkerCmd::PlannedReconnect) {
        WorkerAction::StartWarmup(mut streams) => {
            streams.sort();
            assert_eq!(streams, expected);
        }
        other => panic!("{:?}", other),
    }
}

#[test]
fn commands_for_given_symbols() {
    let commands = subscribe_commands(&vec!["BUSDT".to_string(), "AUSDT".to_string()]);
    assert_eq!(commands.len(), 1);
    assert_eq!(commands[0].params, vec!["busdt@bookTicker", "ausdt@bookTicker"]);
}

#[test]
fn end_of_a_warmup() {
    assert!(matches!(on_warmup(WarmupOutcome::Ready), WorkerAction::SwitchStream));
    assert!(matches!(on_warmup(WarmupOutcome::Failed), WorkerAction::Nothing));
    assert!(matches!(on_warmup(WarmupOutcome::Died), WorkerAction::Nothing));
}

#[test]
fn reports() {
    let mut w = PoolWorker::new(Market::Futures);
    assert_eq!(w.report(29, 100), None);
    assert_eq!(w.report(30, 100), Some(Report::Silence));
    w.on_command(list(&[("AUSDT", 0)]));
    w.on_frame(Frame::Text(Some(futures("AUSDT", 1000))), 1500);
    assert_eq!(w.report(29, 119), None);
    let stats = Stats { msg_count: 1, sum_latency: 500, max_latency: 500 };
    assert_eq!(w.report(31, 119), Some(Report::Traffic { critical: false, uptime_min: 1, stats }));
    assert_eq!(w.stats().msg_count, 0);
    w.on_frame(Frame::Text(Some(futures("AUSDT", 1000))), 1501);
    let stats = Stats { msg_count: 1, sum_latency: 501, max_latency: 501 };
    assert_eq!(w.report(30, 3600), Some(Report::Traffic { critical: true, uptime_min: 60, stats }));

    let mut d = DedicatedWorker::new(Market::Spot, "AUSDT", 0);
    d.on_frame(Frame::Text(Some(futures("AUSDT", 0))), 9000);
    let stats = Stats { msg_count: 1, sum_latency: 0, max_latency: 0 };
    assert_eq!(d.report(30, 59), Some(Report::Traffic { critical: false, uptime_min: 0, stats }));
    assert_eq!(d.report(30, 59), Some(Report::Silence));
}

#[test]
fn latencies_below_zero() {
    let mut stats = Stats::new();
    stats.count(Some(1100), 1000);
    assert_eq!(stats, Stats { msg_count: 1, sum_latency: -100, max_latency: 0 });
    stats.count(Some(u64::MAX), 0);
    stats.count(Some(0), u64::MAX);
    stats.count(None, 5);
    assert_eq!(stats, Stats { msg_count: 4, sum_latency: -100, max_latency: u64::MAX as i128 });
}

#[test]
fn registries_follow_the_books() {
    let mut o = Orchestrator::new(vec![], 0, 2);
    let mut workers = vec![PoolWorker::new(Market::Spot), PoolWorker::new(Market::Spot)];
    let mut tell = |actions: Vec<OrchAction>| -> Vec<usize> {
        for action in actions {
            if let OrchAction::Send { worker, cmd } = action {
                workers[worker].on_command(cmd);
            }
        }
        workers.iter().map(|w| w.symbol_count()).collect()
    };
    let symbols: Vec<String> = (0..5).map(|i| format!("S{}", i)).collect();
    assert_eq!(tell(o.enlist(&symbols)), vec![3, 2]);
    assert_eq!(tell(o.delist(&symbols[..3].to_vec())), vec![1, 1]);
    assert_eq!(tell(o.enlist(&symbols[..1].to_vec())), vec![2, 1]);
    let action = workers[0].on_frame(Frame::Text(Some(spot("S0"))), 9);
    assert_eq!(written(action), (2 * 128, 2, 9));
}
