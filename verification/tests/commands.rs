use bidasker_writer::command::{chunk_command, chunked_commands, count_chunks};
use bidasker_writer::text::{book_ticker_stream, ends_in, list_holds, same_text, stream_name, stream_names};

fn names(n: usize) -> Vec<String> {
    (0..n).map(|i| format!("s{}", i)).collect()
}

#[test]
fn stream_names_are_lowercase() {
    assert_eq!(stream_name("BTCUSDT"), "btcusdt@bookTicker");
    assert_eq!(stream_name("1000PEPEUSDT"), "1000pepeusdt@bookTicker");
    assert_eq!(stream_name("ΑΣ"), "ας@bookTicker");
    assert_eq!(book_ticker_stream("eth".to_string()), "eth@bookTicker");
    let list = vec!["AUSDT".to_string(), "BUSDC".to_string()];
    assert_eq!(stream_names(&list), vec!["ausdt@bookTicker", "busdc@bookTicker"]);
}

#[test]
fn suffixes() {
    assert!(ends_in("BTCUSDT", "USDT"));
    assert!(ends_in("USDT", "USDT"));
    assert!(!ends_in("SDT", "USDT"));
    assert!(!ends_in("BTCUSDT_240628", "USDT"));
    assert!(ends_in("монетаUSDC", "USDC"));
    assert!(ends_in("x", ""));
}

#[test]
fn texts_in_lists() {
    let list = names(3);
    assert!(list_holds(&list, &"s2".to_string()));
    assert!(!list_holds(&list, &"s3".to_string()));
    assert!(same_text(&"TRADING".to_string(), "TRADING"));
    assert!(!same_text(&"TRADING".to_string(), "TRADING "));
}

#[test]
fn number_of_commands() {
    assert_eq!(count_chunks(0), 0);
    assert_eq!(count_chunks(1), 1);
    assert_eq!(count_chunks(50), 1);
    assert_eq!(count_chunks(51), 2);
    assert_eq!(count_chunks(usize::MAX), usize::MAX / 50 + 1);
}

#[test]
fn commands_name_every_stream_in_order() {
    for n in [0usize, 1, 49, 50, 51, 100, 123] {
        let streams = names(n);
        let commands = chunked_commands("SUBSCRIBE", &streams, 1);
        assert_eq!(commands.len(), n.div_ceil(50));
        let mut all = Vec::new();
        for command in commands {
            assert_eq!(command.method, "SUBSCRIBE");
            assert_eq!(command.id, 1);
            assert!(!command.params.is_empty() && command.params.len() <= 50);
            all.extend(command.params);
        }
        assert_eq!(all, streams);
    }
}

#[test]
fn one_command_of_many() {
    let streams = names(120);
    let command = chunk_command("UNSUBSCRIBE", &streams, 2, 77);
    assert_eq!(command.method, "UNSUBSCRIBE");
    assert_eq!(command.id, 77);
    assert_eq!(command.params, streams[100..]);
}
