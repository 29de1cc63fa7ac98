use bidasker_writer::config::{MAX_COINS, RECORD_SIZE, SHM_SIZE};
use bidasker_writer::record::{clear_store, fits, symbol_store, write_to_mmap, Store};

fn apply(mem: &mut [u8], store: &Store) {
    match store {
        Store::Sequence { at, value } | Store::Word { at, value } => {
            mem[*at..*at + 8].copy_from_slice(&value.to_ne_bytes())
        }
        Store::Bytes { at, bytes } => mem[*at..*at + bytes.len()].copy_from_slice(bytes),
        Store::Fence => {}
    }
}

fn word(mem: &[u8], at: usize) -> u64 {
    u64::from_ne_bytes(mem[at..at + 8].try_into().unwrap())
}

fn padded(text: &str, width: usize) -> Vec<u8> {
    let mut bytes = text.as_bytes().to_vec();
    bytes.resize(width, 0);
    bytes
}

#[test]
fn sizes_of_the_memory() {
    assert_eq!(MAX_COINS, 2000);
    assert_eq!(RECORD_SIZE, 128);
    assert_eq!(SHM_SIZE, 256_000);
    assert_eq!(RECORD_SIZE % 64, 0);
}

#[test]
fn quote_lands_in_its_fields() {
    let mut mem = vec![0xAAu8; SHM_SIZE];
    let base = 5 * RECORD_SIZE;
    let mut seq = 0u64;
    let stores = write_to_mmap(base, &mut seq, "60000.10", "1.5", "60000.20", "0.25", 1_700_000_000_123);
    assert_eq!(seq, 2);
    for store in &stores {
        apply(&mut mem, store);
    }
    assert_eq!(word(&mem, base), 2);
    assert_eq!(&mem[base + 8..base + 24], &[0xAA; 16]);
    assert_eq!(&mem[base + 24..base + 44], &padded("60000.10", 20)[..]);
    assert_eq!(&mem[base + 44..base + 64], &padded("1.5", 20)[..]);
    assert_eq!(&mem[base + 64..base + 84], &padded("60000.20", 20)[..]);
    assert_eq!(&mem[base + 84..base + 104], &padded("0.25", 20)[..]);
    assert_eq!(word(&mem, base + 104), 1_700_000_000_123);
    assert_eq!(&mem[base + 112..base + 128], &[0xAA; 16]);
    assert!(mem[..base].iter().all(|b| *b == 0xAA));
    assert!(mem[base + 128..].iter().all(|b| *b == 0xAA));
}

#[test]
fn order_of_the_stores() {
    let mut seq = 6u64;
    let stores = write_to_mmap(0, &mut seq, "1", "2", "3", "4", 9);
    assert_eq!(stores.len(), 9);
    assert!(matches!(stores[0], Store::Sequence { at: 0, value: 7 }));
    assert!(matches!(stores[1], Store::Fence));
    assert!(matches!(&stores[2], Store::Bytes { at: 24, .. }));
    assert!(matches!(&stores[3], Store::Bytes { at: 44, .. }));
    assert!(matches!(&stores[4], Store::Bytes { at: 64, .. }));
    assert!(matches!(&stores[5], Store::Bytes { at: 84, .. }));
    assert!(matches!(stores[6], Store::Word { at: 104, value: 9 }));
    assert!(matches!(stores[7], Store::Fence));
    assert!(matches!(stores[8], Store::Sequence { at: 0, value: 8 }));
}

#[test]
fn no_torn_quote_at_any_step() {
    let mut mem = vec![0u8; SHM_SIZE];
    let base = 3 * RECORD_SIZE;
    let mut seq = 0u64;
    for store in &write_to_mmap(base, &mut seq, "1", "1", "1", "1", 1) {
        apply(&mut mem, store);
    }
    let old = mem[base + 8..base + 128].to_vec();
    let stores = write_to_mmap(base, &mut seq, "2", "2", "2", "2", 2);
    let mut states = vec![mem.clone()];
    for store in &stores {
        apply(&mut mem, store);
        states.push(mem.clone());
    }
    let new = mem[base + 8..base + 128].to_vec();
    assert_ne!(old, new);
    for (k, state) in states.iter().enumerate() {
        let number = word(state, base);
        let body = &state[base + 8..base + 128];
        match k {
            0 => assert!(number == 2 && body == &old[..]),
            9 => assert!(number == 4 && body == &new[..]),
            _ => assert_eq!(number, 3),
        }
    }
}

#[test]
fn long_texts_are_cut() {
    let mut seq = 0u64;
    let stores = write_to_mmap(0, &mut seq, "123456789012345678901234", "", "12345678901234567890", "1", 0);
    match &stores[2] {
        Store::Bytes { bytes, .. } => assert_eq!(&bytes[..], b"12345678901234567890"),
        _ => unreachable!(),
    }
    match &stores[3] {
        Store::Bytes { bytes, .. } => assert_eq!(&bytes[..], &[0u8; 20]),
        _ => unreachable!(),
    }
    match &stores[4] {
        Store::Bytes { bytes, .. } => assert_eq!(&bytes[..], b"12345678901234567890"),
        _ => unreachable!(),
    }
}

#[test]
fn last_sequence_number() {
    let mut seq = u64::MAX - 2;
    let stores = write_to_mmap(0, &mut seq, "1", "2", "3", "4", 9);
    assert_eq!(seq, u64::MAX);
    assert!(matches!(stores[8], Store::Sequence { at: 0, value: u64::MAX }));
}

#[test]
fn symbol_is_named() {
    match symbol_store(7, "BTCUSDT") {
        Store::Bytes { at, bytes } => {
            assert_eq!(at, 7 * 128 + 8);
            assert_eq!(bytes, padded("BTCUSDT", 16));
        }
        _ => unreachable!(),
    }
    match symbol_store(1999, "1000000MOGUSDTUSDC") {
        Store::Bytes { at, bytes } => {
            assert_eq!(at, 1999 * 128 + 8);
            assert_eq!(&bytes[..], b"1000000MOGUSDTUS");
        }
        _ => unreachable!(),
    }
}

#[test]
fn record_is_blanked() {
    let mut mem = vec![0xFFu8; SHM_SIZE];
    apply(&mut mem, &clear_store(2));
    assert!(mem[..256].iter().all(|b| *b == 0xFF));
    assert!(mem[256..384].iter().all(|b| *b == 0));
    assert!(mem[384..].iter().all(|b| *b == 0xFF));
    assert_eq!(word(&mem, 256), 0);
}

#[test]
fn where_a_record_fits() {
    assert!(fits(0));
    assert!(fits(8));
    assert!(fits(SHM_SIZE - RECORD_SIZE));
    assert!(!fits(4));
    assert!(!fits(SHM_SIZE - RECORD_SIZE + 8));
    assert!(!fits(usize::MAX - 7));
}

#[test]
fn other_records_are_left_alone() {
    let mut mem = vec![0u8; SHM_SIZE];
    let mut a = 0u64;
    for store in &write_to_mmap(10 * RECORD_SIZE, &mut a, "1", "2", "3", "4", 5) {
        apply(&mut mem, store);
    }
    let kept = mem[10 * RECORD_SIZE..11 * RECORD_SIZE].to_vec();
    let mut b = 40u64;
    for slot in [9usize, 11] {
        for store in &write_to_mmap(slot * RECORD_SIZE, &mut b, "9", "9", "9", "9", 9) {
            apply(&mut mem, store);
        }
    }
    assert_eq!(&mem[10 * RECORD_SIZE..11 * RECORD_SIZE], &kept[..]);
}

#[test]
fn slow_copy_is_one_quote() {
    let quotes = ["1", "22", "333", "4444"];
    let mut seq = 0u64;
    let mut stores: Vec<Store> = Vec::new();
    for quote in quotes {
        stores.append(&mut write_to_mmap(128, &mut seq, quote, quote, quote, quote, 9));
    }
    let mut moments = vec![vec![0u8; SHM_SIZE]];
    for store in &stores {
        let mut mem = moments[moments.len() - 1].clone();
        apply(&mut mem, store);
        moments.push(mem);
    }
    let mut copies = 0;
    for from in 0..moments.len() {
        for to in from..moments.len() {
            let number = word(&moments[from], 128);
            if number % 2 == 0 && number == word(&moments[to], 128) {
                for mem in &moments[from..=to] {
                    let text = if number == 0 { "" } else { quotes[number as usize / 2 - 1] };
                    for at in [24, 44, 64, 84] {
                        assert_eq!(&mem[128 + at..128 + at + 20], &padded(text, 20)[..]);
                    }
                    copies += 1;
                }
            }
        }
    }
    assert_eq!(copies, 5);
}
