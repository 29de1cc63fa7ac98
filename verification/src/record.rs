//! The records of the shared memory, and the stores that change them.
//!
//! The memory is an array of `MAX_COINS` records of `RECORD_SIZE` bytes:
//!
//! | bytes     | field                                  |
//! |-----------|----------------------------------------|
//! | 0..8      | sequence number, odd during an update  |
//! | 8..24     | symbol                                 |
//! | 24..44    | bid price                              |
//! | 44..64    | bid quantity                           |
//! | 64..84    | ask price                              |
//! | 84..104   | ask quantity                           |
//! | 104..112  | time stamp, milliseconds               |
//! | 112..128  | unused                                 |
//!
//! Texts are cut to the width of their field and filled up with zero bytes. A reader takes
//! the sequence number, the fields, and the sequence number again, and keeps what it read
//! if both numbers are the same even number. This is sound as long as the record is not
//! blanked between the two looks, for then its numbers start anew.
use vstd::prelude::*;
use vstd::utf8::encode_utf8;

use crate::config::{MAX_COINS, RECORD_SIZE, SHM_SIZE};

verus! {

/// First byte of the symbol.
pub const SYMBOL_AT: usize = 8;

/// Bytes of the symbol.
pub const SYMBOL_WIDTH: usize = 16;

/// First byte of the bid price.
pub const BID_AT: usize = 24;

/// First byte of the bid quantity.
pub const BID_QTY_AT: usize = 44;

/// First byte of the ask price.
pub const ASK_AT: usize = 64;

/// First byte of the ask quantity.
pub const ASK_QTY_AT: usize = 84;

/// Bytes of a price or a quantity.
pub const NUMBER_WIDTH: usize = 20;

/// First byte of the time stamp.
pub const TIME_AT: usize = 104;

/// One step of an update of the shared memory. Steps are carried out in order.
#[derive(Debug)]
pub enum Store {
    /// Store a sequence number at byte `at`, as one relaxed atomic store.
    Sequence { at: usize, value: u64 },
    /// Store a number at byte `at`.
    Word { at: usize, value: u64 },
    /// Copy bytes to byte `at` and on.
    Bytes { at: usize, bytes: Vec<u8> },
    /// A release fence.
    Fence,
}

/// What a `Store` says.
pub enum StoreView {
    /// A sequence number.
    Sequence { at: int, value: u64 },
    /// A number.
    Word { at: int, value: u64 },
    /// Bytes.
    Bytes { at: int, bytes: Seq<u8> },
    /// A release fence.
    Fence,
}

impl View for Store {
    type V = StoreView;

    open spec fn view(&self) -> StoreView {
        match *self {
            Store::Sequence { at, value } => StoreView::Sequence { at: at as int, value },
            Store::Word { at, value } => StoreView::Word { at: at as int, value },
            Store::Bytes { at, bytes } => StoreView::Bytes { at: at as int, bytes: bytes@ },
            Store::Fence => StoreView::Fence,
        }
    }
}

/// What a list of stores says.
pub open spec fn stores_view(stores: Seq<Store>) -> Seq<StoreView> {
    Seq::new(stores.len(), |i: int| stores[i]@)
}

/// A text in a field of `width` bytes: cut to the width, and filled up with zeros.
pub open spec fn field(text: Seq<u8>, width: nat) -> Seq<u8> {
    Seq::new(
        width,
        |i: int|
            if i < text.len() {
                text[i]
            } else {
                0u8
            },
    )
}

/// Whether a record can start at byte `offset`: its sequence number is aligned, and the
/// whole record lies in the shared memory.
pub open spec fn record_fits(offset: int) -> bool {
    &&& 0 <= offset
    &&& offset % 8 == 0
    &&& offset + RECORD_SIZE <= SHM_SIZE
}

/// The texts of one quote, as bytes.
pub struct QuoteBytes {
    pub bid: Seq<u8>,
    pub bid_qty: Seq<u8>,
    pub ask: Seq<u8>,
    pub ask_qty: Seq<u8>,
}

/// The stores that put a quote into the record at `offset`, whose sequence number is `seq`.
pub open spec fn quote_stores(offset: int, seq: u64, quote: QuoteBytes, ts: u64) -> Seq<StoreView> {
    seq![
        StoreView::Sequence { at: offset, value: (seq + 1) as u64 },
        StoreView::Fence,
        StoreView::Bytes { at: offset + BID_AT, bytes: field(quote.bid, NUMBER_WIDTH as nat) },
        StoreView::Bytes { at: offset + BID_QTY_AT, bytes: field(quote.bid_qty, NUMBER_WIDTH as nat) },
        StoreView::Bytes { at: offset + ASK_AT, bytes: field(quote.ask, NUMBER_WIDTH as nat) },
        StoreView::Bytes { at: offset + ASK_QTY_AT, bytes: field(quote.ask_qty, NUMBER_WIDTH as nat) },
        StoreView::Word { at: offset + TIME_AT, value: ts },
        StoreView::Fence,
        StoreView::Sequence { at: offset, value: (seq + 2) as u64 },
    ]
}

/// The store that names the symbol of record number `slot`.
pub open spec fn symbol_store_of(slot: int, symbol: Seq<u8>) -> StoreView {
    StoreView::Bytes { at: slot * RECORD_SIZE + SYMBOL_AT, bytes: field(symbol, SYMBOL_WIDTH as nat) }
}

/// The store that blanks record number `slot`.
pub open spec fn clear_store_of(slot: int) -> StoreView {
    StoreView::Bytes { at: slot * RECORD_SIZE, bytes: field(Seq::empty(), RECORD_SIZE as nat) }
}

/// A text as the bytes of a field of `width` bytes.
fn field_bytes(text: &[u8], width: usize) -> (bytes: Vec<u8>)
    ensures
        bytes@ == field(text@, width as nat),
{
    let mut bytes: Vec<u8> = Vec::with_capacity(width);
    let mut i: usize = 0;
    while i < width
        invariant
            i <= width,
            bytes@.len() == i,
            forall|j: int|
                0 <= j < i ==> bytes@[j] == (if j < text@.len() {
                    text@[j]
                } else {
                    0u8
                }),
        decreases width - i,
    {
        if i < text.len() {
            bytes.push(text[i]);
        } else {
            bytes.push(0);
        }
        i = i + 1;
    }
    assert(bytes@ =~= field(text@, width as nat));
    bytes
}

/// Whether a record can start at byte `offset`.
pub fn fits(offset: usize) -> (fit: bool)
    ensures
        fit == record_fits(offset as int),
{
    offset % 8 == 0 && offset <= SHM_SIZE - RECORD_SIZE
}

/// The stores that put a quote into the record at `offset`. The sequence number goes up by
/// two: it is odd from before the first change of a field until after the last.
pub fn write_to_mmap(
    offset: usize,
    seq: &mut u64,
    b: &str,
    bq: &str,
    a: &str,
    aq: &str,
    ts: u64,
) -> (stores: Vec<Store>)
    requires
        record_fits(offset as int),
        *old(seq) <= u64::MAX - 2,
    ensures
        *final(seq) == *old(seq) + 2,
        stores_view(stores@) == quote_stores(
            offset as int,
            *old(seq),
            (QuoteBytes {
                bid: encode_utf8(b@),
                bid_qty: encode_utf8(bq@),
                ask: encode_utf8(a@),
                ask_qty: encode_utf8(aq@),
            }),
            ts,
        ),
{
    let mut stores: Vec<Store> = Vec::with_capacity(9);
    *seq = *seq + 1;
    stores.push(Store::Sequence { at: offset, value: *seq });
    stores.push(Store::Fence);
    stores.push(Store::Bytes { at: offset + BID_AT, bytes: field_bytes(b.as_bytes(), NUMBER_WIDTH) });
    stores.push(Store::Bytes { at: offset + BID_QTY_AT, bytes: field_bytes(bq.as_bytes(), NUMBER_WIDTH) });
    stores.push(Store::Bytes { at: offset + ASK_AT, bytes: field_bytes(a.as_bytes(), NUMBER_WIDTH) });
    stores.push(Store::Bytes { at: offset + ASK_QTY_AT, bytes: field_bytes(aq.as_bytes(), NUMBER_WIDTH) });
    stores.push(Store::Word { at: offset + TIME_AT, value: ts });
    stores.push(Store::Fence);
    *seq = *seq + 1;
    stores.push(Store::Sequence { at: offset, value: *seq });
    proof {
        let quote = QuoteBytes {
            bid: encode_utf8(b@),
            bid_qty: encode_utf8(bq@),
            ask: encode_utf8(a@),
            ask_qty: encode_utf8(aq@),
        };
        assert(stores_view(stores@) =~= quote_stores(offset as int, *old(seq), quote, ts));
    }
    stores
}

/// The store that names the symbol of record number `slot`.
pub fn symbol_store(slot: usize, symbol: &str) -> (store: Store)
    requires
        slot < MAX_COINS,
    ensures
        store@ == symbol_store_of(slot as int, encode_utf8(symbol@)),
{
    Store::Bytes {
        at: slot * RECORD_SIZE + SYMBOL_AT,
        bytes: field_bytes(symbol.as_bytes(), SYMBOL_WIDTH),
    }
}

/// The store that blanks record number `slot`.
pub fn clear_store(slot: usize) -> (store: Store)
    requires
        slot < MAX_COINS,
    ensures
        store@ == clear_store_of(slot as int),
{
    let nothing: Vec<u8> = Vec::new();
    assert(nothing@ =~= Seq::<u8>::empty());
    Store::Bytes { at: slot * RECORD_SIZE, bytes: field_bytes(nothing.as_slice(), RECORD_SIZE) }
}

/// What a store says is what it holds.
pub proof fn law_store_says_what_it_holds(store: Store, stores: Seq<Store>)
    ensures
        match store {
            Store::Sequence { at, value } => store@ == StoreView::Sequence { at: at as int, value },
            Store::Word { at, value } => store@ == StoreView::Word { at: at as int, value },
            Store::Bytes { at, bytes } => store@ == StoreView::Bytes {
                at: at as int,
                bytes: bytes@,
            },
            Store::Fence => store@ is Fence,
        },
        stores_view(stores).len() == stores.len(),
        forall|i: int| 0 <= i < stores.len() ==> #[trigger] stores_view(stores)[i] == stores[i]@,
{
}

/// A field has as many bytes as it is wide: those of its text, as far as they go, and then zeros.
pub proof fn law_field_holds_its_text(text: Seq<u8>, width: nat)
    ensures
        field(text, width).len() == width,
        forall|k: int|
            0 <= k < width ==> #[trigger] field(text, width)[k] == (if k < text.len() {
                text[k]
            } else {
                0u8
            }),
{
}

/// A record can start at a multiple of eight from which 128 bytes lie in the 256000 of the
/// memory.
pub proof fn law_where_a_record_fits(offset: int)
    ensures
        record_fits(offset) <==> 0 <= offset <= 256000 - 128 && offset % 8 == 0,
{
}

/// The sequence number is stored first and last, and nowhere between: first the next odd one,
/// last the next even one, with a fence behind the first and a fence before the last.
pub proof fn law_number_goes_first_and_last(offset: int, seq: u64, quote: QuoteBytes, ts: u64)
    ensures
        ({
            let stores = quote_stores(offset, seq, quote, ts);
            let last = stores.len() - 1;
            &&& last > 3
            &&& stores[0] == StoreView::Sequence { at: offset, value: (seq + 1) as u64 }
            &&& stores[1] is Fence
            &&& stores[last - 1] is Fence
            &&& stores[last] == StoreView::Sequence { at: offset, value: (seq + 2) as u64 }
            &&& forall|i: int| 0 < i < last ==> !(#[trigger] stores[i] is Sequence)
        }),
{
}

/// The name of a record takes the 16 bytes from its ninth on: as much of the symbol as fits, and
/// then zeros. A record is blanked by 128 zeros from its first byte on.
pub proof fn law_name_and_blank(slot: int, symbol: Seq<u8>)
    ensures
        symbol_store_of(slot, symbol) matches StoreView::Bytes { at, bytes } && at == 128 * slot
            + 8 && bytes.len() == 16 && forall|k: int|
            0 <= k < 16 ==> #[trigger] bytes[k] == (if k < symbol.len() {
                symbol[k]
            } else {
                0u8
            }),
        clear_store_of(slot) matches StoreView::Bytes { at, bytes } && at == 128 * slot
            && bytes.len() == 128 && forall|k: int| 0 <= k < 128 ==> #[trigger] bytes[k] == 0,
{
}

} // verus!
