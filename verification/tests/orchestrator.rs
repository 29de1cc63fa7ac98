use bidasker_writer::command::WorkerCmd;
use bidasker_writer::config::{Market, RECORD_SIZE, SHM_SIZE};
use bidasker_writer::dedicated::DedicatedWorker;
use bidasker_writer::orchestrator::{wanted_symbols, OrchAction, Orchestrator, SymbolInfo};
use bidasker_writer::pool::PoolWorker;
use bidasker_writer::record::Store;
use bidasker_writer::worker::{BookTickerSpot, Frame, Ticker, WorkerAction};

fn info(symbol: &str, status: &str) -> SymbolInfo {
    SymbolInfo {
        symbol: symbol.to_string(),
        status: status.to_string(),
    }
}

fn trading(symbols: &[&str]) -> Vec<SymbolInfo> {
    symbols.iter().map(|s| info(s, "TRADING")).collect()
}

fn strings(symbols: &[&str]) -> Vec<String> {
    symbols.iter().map(|s| s.to_string()).collect()
}

fn named(action: &OrchAction) -> (usize, String) {
    match action {
        OrchAction::Store(Store::Bytes { at, bytes }) => {
            assert_eq!(bytes.len(), 16);
            assert_eq!(at % 128, 8);
            let end = bytes.iter().position(|b| *b == 0).unwrap_or(16);
            (at / 128, String::from_utf8(bytes[..end].to_vec()).unwrap())
        }
        other => panic!("not a naming: {:?}", other),
    }
}

fn cleared(action: &OrchAction) -> usize {
    match action {
        OrchAction::Store(Store::Bytes { at, bytes }) => {
            assert_eq!(&bytes[..], &[0u8; 128]);
            assert_eq!(at % 128, 0);
            at / 128
        }
        other => panic!("not a clearing: {:?}", other),
    }
}

fn subscribed(action: &OrchAction) -> (usize, Vec<(String, usize)>) {
    match action {
        OrchAction::Send { worker, cmd: WorkerCmd::Subscribe(list) } => (*worker, list.clone()),
        other => panic!("not a subscribe: {:?}", other),
    }
}

fn unsubscribed(action: &OrchAction) -> (usize, Vec<String>) {
    match action {
        OrchAction::Send { worker, cmd: WorkerCmd::Unsubscribe(list) } => (*worker, list.clone()),
        other => panic!("not an unsubscribe: {:?}", other),
    }
}

#[test]
fn which_symbols_are_wanted() {
    let reserved = strings(&["BTCUSDT"]);
    let infos = vec![
        info("BTCUSDT", "TRADING"),
        info("ETHUSDT", "TRADING"),
        info("SOLUSDC", "PRE_TRADING"),
        info("ADAUSDT", "BREAK"),
        info("ETHBTC", "TRADING"),
        info("XRPUSDT", "SETTLING"),
        info("DOGEUSDC", "TRADING"),
        info("ETHUSDT_240628", "TRADING"),
    ];
    assert_eq!(wanted_symbols(&reserved, &infos), strings(&["ETHUSDT", "SOLUSDC", "DOGEUSDC"]));
}

#[test]
fn first_list_is_spread_over_the_workers() {
    let mut o = Orchestrator::new(strings(&["BTCUSDT", "ETHUSDT"]), 2, 3);
    let actions = o.refresh(&trading(&["BTCUSDT", "AUSDT", "BUSDT", "CUSDT", "DUSDT", "ETHUSDT"]));
    assert_eq!(actions.len(), 7);
    assert_eq!(named(&actions[0]), (2, "AUSDT".to_string()));
    assert_eq!(named(&actions[1]), (3, "BUSDT".to_string()));
    assert_eq!(named(&actions[2]), (4, "CUSDT".to_string()));
    assert_eq!(named(&actions[3]), (5, "DUSDT".to_string()));
    assert_eq!(
        subscribed(&actions[4]),
        (0, vec![("AUSDT".to_string(), 256), ("DUSDT".to_string(), 640)])
    );
    assert_eq!(subscribed(&actions[5]), (1, vec![("BUSDT".to_string(), 384)]));
    assert_eq!(subscribed(&actions[6]), (2, vec![("CUSDT".to_string(), 512)]));
    assert_eq!(o.next_index(), 6);
}

#[test]
fn same_list_does_nothing() {
    let mut o = Orchestrator::new(vec![], 0, 2);
    let list = trading(&["AUSDT", "BUSDT", "CUSDC"]);
    assert_eq!(o.refresh(&list).len(), 5);
    assert!(o.refresh(&list).is_empty());
    assert_eq!(o.next_index(), 3);
}

#[test]
fn delisted_record_is_blanked_and_used_again() {
    let mut o = Orchestrator::new(vec![], 0, 2);
    o.refresh(&trading(&["AUSDT", "BUSDT", "CUSDT"]));
    let actions = o.refresh(&trading(&["AUSDT", "CUSDT", "DUSDT"]));
    assert_eq!(actions.len(), 4);
    assert_eq!(cleared(&actions[0]), 1);
    assert_eq!(unsubscribed(&actions[1]), (1, strings(&["BUSDT"])));
    assert_eq!(named(&actions[2]), (1, "DUSDT".to_string()));
    assert_eq!(subscribed(&actions[3]), (1, vec![("DUSDT".to_string(), 128)]));
    assert_eq!(o.next_index(), 3);
}

#[test]
fn halted_symbol_is_delisted() {
    let mut o = Orchestrator::new(vec![], 0, 1);
    o.refresh(&trading(&["AUSDT"]));
    let actions = o.refresh(&vec![info("AUSDT", "BREAK")]);
    assert_eq!(actions.len(), 2);
    assert_eq!(cleared(&actions[0]), 0);
    assert_eq!(unsubscribed(&actions[1]), (0, strings(&["AUSDT"])));
}

#[test]
fn records_are_given_back_last_first() {
    let mut o = Orchestrator::new(vec![], 0, 1);
    o.refresh(&trading(&["AUSDT", "BUSDT", "CUSDT"]));
    let actions = o.delist(&strings(&["CUSDT", "AUSDT", "NONE"]));
    assert_eq!(actions.len(), 4);
    assert_eq!(cleared(&actions[0]), 2);
    assert_eq!(cleared(&actions[2]), 0);
    let actions = o.enlist(&strings(&["XUSDT", "YUSDT", "ZUSDT"]));
    assert_eq!(named(&actions[0]), (0, "XUSDT".to_string()));
    assert_eq!(named(&actions[1]), (2, "YUSDT".to_string()));
    assert_eq!(named(&actions[2]), (3, "ZUSDT".to_string()));
}

#[test]
fn least_loaded_worker_is_chosen() {
    let mut o = Orchestrator::new(vec![], 0, 3);
    o.enlist(&strings(&["A", "B", "C", "D", "E", "F"]));
    o.delist(&strings(&["C", "F", "B"]));
    let actions = o.enlist(&strings(&["G", "H"]));
    assert_eq!(subscribed(&actions[2]), (1, vec![("H".to_string(), 640)]));
    assert_eq!(subscribed(&actions[3]), (2, vec![("G".to_string(), 128)]));
}

#[test]
fn full_memory_takes_no_more() {
    let mut o = Orchestrator::new(vec![], 1999, 2);
    let actions = o.refresh(&trading(&["AUSDT", "BUSDT"]));
    assert_eq!(actions.len(), 2);
    assert_eq!(named(&actions[0]), (1999, "AUSDT".to_string()));
    assert_eq!(o.next_index(), 2001);
    let actions = o.refresh(&trading(&["AUSDT", "BUSDT"]));
    assert!(actions.is_empty());
    assert_eq!(o.next_index(), 2002);
    let actions = o.refresh(&trading(&["BUSDT"]));
    assert_eq!(actions.len(), 4);
    assert_eq!(named(&actions[2]), (1999, "BUSDT".to_string()));
    assert_eq!(o.next_index(), 2002);
}

#[test]
fn symbol_listed_twice_gets_two_records() {
    let mut o = Orchestrator::new(vec![], 0, 2);
    let actions = o.refresh(&trading(&["AUSDT", "AUSDT"]));
    assert_eq!(actions.len(), 4);
    assert_eq!(named(&actions[0]), (0, "AUSDT".to_string()));
    assert_eq!(named(&actions[1]), (1, "AUSDT".to_string()));
    assert_eq!(subscribed(&actions[2]), (0, vec![("AUSDT".to_string(), 0)]));
    assert_eq!(subscribed(&actions[3]), (1, vec![("AUSDT".to_string(), 128)]));
    let actions = o.refresh(&trading(&[]));
    assert_eq!(actions.len(), 3);
    assert_eq!(cleared(&actions[0]), 1);
    assert_eq!(unsubscribed(&actions[1]), (0, strings(&["AUSDT"])));
    assert_eq!(unsubscribed(&actions[2]), (1, strings(&["AUSDT"])));
    let actions = o.refresh(&trading(&["BUSDT", "CUSDT"]));
    assert_eq!(named(&actions[0]), (1, "BUSDT".to_string()));
    assert_eq!(named(&actions[1]), (2, "CUSDT".to_string()));
}

#[test]
fn everything_delisted_at_once() {
    let mut o = Orchestrator::new(vec![], 0, 4);
    let all: Vec<String> = (0..100).map(|i| format!("C{}USDT", i)).collect();
    let infos: Vec<SymbolInfo> = all.iter().map(|s| info(s, "TRADING")).collect();
    assert_eq!(o.refresh(&infos).len(), 104);
    let actions = o.refresh(&trading(&[]));
    assert_eq!(actions.len(), 200);
    let mut slots: Vec<usize> = (0..100).map(|i| cleared(&actions[2 * i])).collect();
    slots.sort();
    assert_eq!(slots, (0..100).collect::<Vec<usize>>());
    let mut gone: Vec<String> = (0..100).flat_map(|i| unsubscribed(&actions[2 * i + 1]).1).collect();
    gone.sort();
    let mut expected = all.clone();
    expected.sort();
    assert_eq!(gone, expected);
    let again = o.refresh(&infos);
    let mut slots: Vec<usize> = (0..100).map(|i| named(&again[i]).0).collect();
    slots.sort();
    assert_eq!(slots, (0..100).collect::<Vec<usize>>());
    assert_eq!(o.next_index(), 100);
}

fn apply(mem: &mut [u8], store: &Store) {
    match store {
        Store::Sequence { at, value } | Store::Word { at, value } => {
            mem[*at..*at + 8].copy_from_slice(&value.to_ne_bytes())
        }
        Store::Bytes { at, bytes } => mem[*at..*at + bytes.len()].copy_from_slice(bytes),
        Store::Fence => {}
    }
}

fn name_at(mem: &[u8], slot: usize) -> String {
    let name = &mem[slot * RECORD_SIZE + 8..slot * RECORD_SIZE + 24];
    let end = name.iter().position(|b| *b == 0).unwrap_or(16);
    String::from_utf8(name[..end].to_vec()).unwrap()
}

fn quote_of(symbol: &str) -> Frame<'_> {
    Frame::Text(Some(Ticker::Spot(BookTickerSpot {
        s: symbol,
        b: "1.5",
        bq: "2",
        a: "1.6",
        aq: "3",
    })))
}

#[test]
fn workers_and_records_follow_the_lists() {
    let mut o = Orchestrator::new(strings(&["BTCUSDT"]), 1, 3);
    let mut workers: Vec<PoolWorker> = (0..3).map(|_| PoolWorker::new(Market::Spot)).collect();
    let mut mem = vec![0u8; SHM_SIZE];
    let lists: [&[&str]; 5] = [
        &["BTCUSDT", "AUSDT", "BUSDT", "CUSDT", "DUSDT"],
        &["AUSDT", "CUSDT", "DUSDT", "EUSDC"],
        &["EUSDC"],
        &["EUSDC", "FUSDT", "GUSDT", "HUSDT", "AUSDT", "VERYLONGSYMBOLNAMEUSDT"],
        &[],
    ];
    for list in lists {
        for action in o.refresh(&trading(list)) {
            match action {
                OrchAction::Store(store) => apply(&mut mem, &store),
                OrchAction::Send { worker, cmd } => {
                    let _ = workers[worker].on_command(cmd);
                }
            }
        }
        let followed: Vec<&str> = list.iter().copied().filter(|s| *s != "BTCUSDT").collect();
        assert_eq!(workers.iter().map(|w| w.symbol_count()).sum::<usize>(), followed.len());
        let mut slots: Vec<usize> = Vec::new();
        for symbol in &followed {
            let holders: Vec<usize> =
                (0..3).filter(|w| workers[*w].sequence(symbol).is_some()).collect();
            assert_eq!(holders.len(), 1);
            let stores = match workers[holders[0]].on_frame(quote_of(symbol), 7) {
                WorkerAction::Write(stores) => stores,
                other => panic!("not a write: {:?}", other),
            };
            let at = match stores[0] {
                Store::Sequence { at, .. } => at,
                _ => panic!("no sequence number"),
            };
            for store in &stores {
                apply(&mut mem, store);
            }
            assert_eq!(at % RECORD_SIZE, 0);
            let cut: String = symbol.chars().take(16).collect();
            assert_eq!(name_at(&mem, at / RECORD_SIZE), cut);
            slots.push(at / RECORD_SIZE);
        }
        slots.sort();
        slots.dedup();
        assert_eq!(slots.len(), followed.len());
        assert!(slots.iter().all(|slot| *slot >= 1));
        assert!(workers.iter().all(|w| w.sequence("BTCUSDT").is_none()));
    }
    assert!(mem.iter().all(|b| *b == 0));
}

#[test]
fn new_symbols_keep_the_workers_level() {
    let symbols: Vec<String> = (0..17).map(|i| format!("S{}USDT", i)).collect();
    let names: Vec<&str> = symbols.iter().map(|s| s.as_str()).collect();
    let mut o = Orchestrator::new(Vec::new(), 0, 5);
    let mut load = [0usize; 5];
    for n in [3, 11, 17] {
        for action in o.refresh(&trading(&names[..n])) {
            if let OrchAction::Send { worker, cmd: WorkerCmd::Subscribe(list) } = action {
                load[worker] += list.len();
            }
        }
        assert_eq!(load.iter().sum::<usize>(), n);
        assert!(load.iter().max().unwrap() - load.iter().min().unwrap() <= 1);
    }
}

#[test]
fn records_come_back_however_often_symbols_go() {
    let mut o = Orchestrator::new(Vec::new(), 1990, 2);
    for round in 0..50 {
        let symbols: Vec<String> = (0..10).map(|i| format!("R{}S{}USDT", round, i)).collect();
        let names: Vec<&str> = symbols.iter().map(|s| s.as_str()).collect();
        let actions = o.refresh(&trading(&names));
        let named_now = actions
            .iter()
            .filter(|a| matches!(a, OrchAction::Store(Store::Bytes { bytes, .. }) if bytes.len() == 16))
            .count();
        assert_eq!(named_now, 10);
        let mut turned = names.clone();
        turned.reverse();
        assert!(o.refresh(&trading(&turned)).is_empty());
    }
}

#[test]
fn who_is_told_of_a_change() {
    let mut o = Orchestrator::new(Vec::new(), 0, 2);
    o.refresh(&trading(&["AUSDT", "BUSDT", "CUSDT"]));
    let actions = o.refresh(&trading(&["CUSDT", "DUSDT", "AUSDT"]));
    assert_eq!(actions.len(), 4);
    assert_eq!(cleared(&actions[0]), 1);
    assert_eq!(unsubscribed(&actions[1]), (1, strings(&["BUSDT"])));
    assert_eq!(named(&actions[2]), (1, "DUSDT".to_string()));
    assert_eq!(subscribed(&actions[3]), (1, vec![("DUSDT".to_string(), 128)]));
}

#[test]
fn what_a_list_changes_in_memory() {
    let mut o = Orchestrator::new(Vec::new(), 0, 2);
    o.refresh(&trading(&["AUSDT", "BUSDT", "CUSDT", "DUSDT"]));
    let before = vec![0xAAu8; SHM_SIZE];
    let mut mem = before.clone();
    let actions = o.refresh(&trading(&["AUSDT", "EUSDT", "CUSDT"]));
    for action in &actions {
        if let OrchAction::Store(store) = action {
            apply(&mut mem, store);
        }
    }
    let taken = if name_at(&mem, 1) == "EUSDT" { 1 } else { 3 };
    assert_eq!(name_at(&mem, taken), "EUSDT");
    for i in 0..SHM_SIZE {
        let slot = i / RECORD_SIZE;
        let at = i % RECORD_SIZE;
        if slot == taken && (8..24).contains(&at) {
            let name = b"EUSDT";
            assert_eq!(mem[i], if at - 8 < name.len() { name[at - 8] } else { 0 });
        } else if slot == 1 || slot == 3 {
            assert_eq!(mem[i], 0);
        } else {
            assert_eq!(mem[i], before[i]);
        }
    }
}

#[test]
fn quotes_change_nothing_but_their_fields() {
    let mut w = PoolWorker::new(Market::Spot);
    w.on_command(WorkerCmd::Subscribe(vec![
        ("AUSDT".to_string(), 256),
        ("BUSDT".to_string(), 512),
    ]));
    let mut d = DedicatedWorker::new(Market::Spot, "CUSDT", 1);
    let mut mem = vec![0xAAu8; SHM_SIZE];
    for symbol in ["AUSDT", "BUSDT", "CUSDT", "AUSDT"] {
        for action in [w.on_frame(quote_of(symbol), 7), d.on_frame(quote_of(symbol), 8)] {
            if let WorkerAction::Write(stores) = action {
                for store in &stores {
                    apply(&mut mem, store);
                }
            }
        }
    }
    for i in 0..SHM_SIZE {
        let at = i % RECORD_SIZE;
        let of_quote = at < 8 || (24..112).contains(&at);
        if ![1, 2, 4].contains(&(i / RECORD_SIZE)) || !of_quote {
            assert_eq!(mem[i], 0xAA);
        } else {
            assert_ne!(mem[i], 0xAA);
        }
    }
}
