use bidasker_writer::config::Market;
use bidasker_writer::endpoint::{connect_target, socket_address, ConnectError};
use bidasker_writer::scheduler::{reconnect_cycle, reconnect_round, ReconnectStep};
use bidasker_writer::startup::{market_named, plan_dedicated};

fn pairs(list: &[(&str, &str)]) -> Vec<(String, String)> {
    list.iter().map(|(s, m)| (s.to_string(), m.to_string())).collect()
}

#[test]
fn dedicated_symbols_get_the_first_records() {
    let plan = plan_dedicated(&pairs(&[("BTCUSDT", "FUTURES"), ("ETHUSDT", "FUTURES")]));
    assert_eq!(plan.slots, vec![Some((Market::Futures, 0)), Some((Market::Futures, 1))]);
    assert_eq!(plan.skip_fut, vec!["BTCUSDT", "ETHUSDT"]);
    assert!(plan.skip_spot.is_empty());
}

#[test]
fn dedicated_symbols_of_both_markets() {
    let plan = plan_dedicated(&pairs(&[
        ("A", "SPOT"),
        ("B", "FUTURES"),
        ("C", "OPTIONS"),
        ("D", "SPOT"),
        ("E", "futures"),
        ("F", "FUTURES"),
    ]));
    assert_eq!(
        plan.slots,
        vec![
            Some((Market::Spot, 0)),
            Some((Market::Futures, 0)),
            None,
            Some((Market::Spot, 1)),
            None,
            Some((Market::Futures, 1)),
        ]
    );
    assert_eq!(plan.skip_fut, vec!["B", "F"]);
    assert_eq!(plan.skip_spot, vec!["A", "D"]);
}

#[test]
fn markets() {
    assert_eq!(market_named(&"FUTURES".to_string()), Some(Market::Futures));
    assert_eq!(market_named(&"SPOT".to_string()), Some(Market::Spot));
    assert_eq!(market_named(&"".to_string()), None);
    assert_eq!(Market::Futures.name(), "FUTURES");
    assert_eq!(Market::Spot.name(), "SPOT");
    assert_eq!(Market::Futures.ws_url(), "wss://fstream.binance.com/stream");
    assert_eq!(Market::Spot.ws_url(), "wss://stream.binance.com:9443/stream");
    assert_eq!(Market::Futures.rest_url(), "https://fapi.binance.com/fapi/v1/exchangeInfo");
    assert_eq!(Market::Spot.rest_url(), "https://api.binance.com/api/v3/exchangeInfo");
    assert_eq!(Market::Futures.mmap_file(), "binance_bbo_futum_mem.mmap");
    assert_eq!(Market::Spot.mmap_file(), "binance_bbo_spot_mem.mmap");
    assert_eq!(Market::Futures.num_workers(), 8);
    assert_eq!(Market::Spot.num_workers(), 3);
}

#[test]
fn rounds_of_reconnects() {
    assert!(reconnect_round(0).is_empty());
    assert_eq!(reconnect_round(1), vec![ReconnectStep::Tell(0)]);
    assert_eq!(
        reconnect_round(3),
        vec![
            ReconnectStep::Tell(0),
            ReconnectStep::Wait(5),
            ReconnectStep::Tell(1),
            ReconnectStep::Wait(5),
            ReconnectStep::Tell(2),
        ]
    );
}

#[test]
fn when_workers_are_told() {
    let mut time = 0u64;
    let mut told: Vec<(usize, u64)> = Vec::new();
    for _ in 0..2 {
        for step in reconnect_cycle(3) {
            match step {
                ReconnectStep::Tell(worker) => told.push((worker, time)),
                ReconnectStep::Wait(secs) => time += secs,
            }
        }
    }
    assert_eq!(told, vec![(0, 3600), (1, 3605), (2, 3610), (0, 7210), (1, 7215), (2, 7220)]);
    assert_eq!(reconnect_cycle(0), vec![ReconnectStep::Wait(3600)]);
    assert_eq!(reconnect_cycle(1), vec![ReconnectStep::Wait(3600), ReconnectStep::Tell(0)]);
}

#[test]
fn socket_addresses() {
    assert_eq!(socket_address(Some("h".to_string()), Some(9443)).unwrap(), "h:9443");
    assert_eq!(socket_address(Some("h".to_string()), None).unwrap(), "h:443");
    assert_eq!(socket_address(Some("h".to_string()), Some(0)).unwrap(), "h:0");
    assert_eq!(socket_address(Some("h".to_string()), Some(65535)).unwrap(), "h:65535");
    assert_eq!(socket_address(Some("h".to_string()), Some(10)).unwrap(), "h:10");
    assert!(matches!(socket_address(None, Some(1)), Err(ConnectError::NoHost)));
}

#[test]
fn targets_of_addresses() {
    assert_eq!(connect_target("wss://fstream.binance.com/stream").unwrap(), "fstream.binance.com:443");
    assert_eq!(
        connect_target("wss://stream.binance.com:9443/stream").unwrap(),
        "stream.binance.com:9443"
    );
    assert!(matches!(connect_target("/stream"), Err(ConnectError::Url(_))));
    assert!(matches!(connect_target("not an address"), Err(ConnectError::Url(_))));
    match connect_target("/stream") {
        Err(e) => assert_eq!(e.text(), "Ошибка URL: URL error: No host name in the URL"),
        Ok(address) => panic!("{}", address),
    }
}

#[test]
fn errors_in_words() {
    assert_eq!(ConnectError::NoHost.text(), "Нет host");
    assert_eq!(ConnectError::Dns("x".to_string()).text(), "DNS: x");
    assert_eq!(ConnectError::NoIp.text(), "Нет IP");
    assert_eq!(ConnectError::Socket("x".to_string()).text(), "Socket: x");
    assert_eq!(ConnectError::Tcp("x".to_string()).text(), "TCP Connect: x");
    assert_eq!(ConnectError::Handshake("x".to_string()).text(), "TLS/WS: x");
}
