//! What the stores of a record do to the shared memory, and what a reader of the memory can
//! rely on.
//!
//! Stores are taken one after the other, in the order in which they are carried out. That a
//! reader on another core meets them in this order is what the fences among them are for.
//!
//! How a machine lays out a number in eight bytes is a parameter of the model: what is proved
//! holds for every byte order.
use vstd::prelude::*;

use crate::config::{MAX_COINS, RECORD_SIZE, SHM_SIZE};
use crate::record::{
    clear_store_of, field, quote_stores, record_fits, symbol_store_of, QuoteBytes, StoreView,
    ASK_AT, ASK_QTY_AT, BID_AT, BID_QTY_AT, NUMBER_WIDTH, SYMBOL_AT, SYMBOL_WIDTH, TIME_AT,
};

verus! {

/// A layout of numbers in memory: eight bytes each, different for different numbers, and all
/// zero for zero.
pub open spec fn is_word_layout(layout: spec_fn(u64) -> Seq<u8>) -> bool {
    &&& layout(0) == Seq::new(8, |i: int| 0u8)
    &&& forall|v: u64| (#[trigger] layout(v)).len() == 8
    &&& forall|v: u64, w: u64| #[trigger] layout(v) == #[trigger] layout(w) ==> v == w
}

/// The memory with `bytes` at byte `at` and on.
pub open spec fn overwritten(mem: Seq<u8>, at: int, bytes: Seq<u8>) -> Seq<u8> {
    Seq::new(
        mem.len(),
        |i: int|
            if at <= i < at + bytes.len() {
                bytes[i - at]
            } else {
                mem[i]
            },
    )
}

/// The memory after one store.
pub open spec fn after_store(
    mem: Seq<u8>,
    store: StoreView,
    layout: spec_fn(u64) -> Seq<u8>,
) -> Seq<u8> {
    match store {
        StoreView::Sequence { at, value } => overwritten(mem, at, layout(value)),
        StoreView::Word { at, value } => overwritten(mem, at, layout(value)),
        StoreView::Bytes { at, bytes } => overwritten(mem, at, bytes),
        StoreView::Fence => mem,
    }
}

/// The memory after a list of stores.
pub open spec fn after_stores(
    mem: Seq<u8>,
    stores: Seq<StoreView>,
    layout: spec_fn(u64) -> Seq<u8>,
) -> Seq<u8>
    decreases stores.len(),
{
    if stores.len() == 0 {
        mem
    } else {
        after_store(after_stores(mem, stores.drop_last(), layout), stores.last(), layout)
    }
}

/// The bytes of the sequence number of the record at `offset`.
pub open spec fn sequence_bytes(mem: Seq<u8>, offset: int) -> Seq<u8> {
    mem.subrange(offset, offset + 8)
}

/// The bytes of the record at `offset` that follow its sequence number.
pub open spec fn body_bytes(mem: Seq<u8>, offset: int) -> Seq<u8> {
    mem.subrange(offset + 8, offset + RECORD_SIZE)
}

/// The bytes of record number `slot`.
pub open spec fn record_bytes(mem: Seq<u8>, slot: int) -> Seq<u8> {
    mem.subrange(slot * RECORD_SIZE, slot * RECORD_SIZE + RECORD_SIZE)
}

/// Whether the fields of the record at `offset` hold a quote and its time stamp.
pub open spec fn holds_quote(
    mem: Seq<u8>,
    offset: int,
    quote: QuoteBytes,
    ts: u64,
    layout: spec_fn(u64) -> Seq<u8>,
) -> bool {
    &&& mem.subrange(offset + BID_AT, offset + BID_QTY_AT) == field(quote.bid, NUMBER_WIDTH as nat)
    &&& mem.subrange(offset + BID_QTY_AT, offset + ASK_AT) == field(
        quote.bid_qty,
        NUMBER_WIDTH as nat,
    )
    &&& mem.subrange(offset + ASK_AT, offset + ASK_QTY_AT) == field(quote.ask, NUMBER_WIDTH as nat)
    &&& mem.subrange(offset + ASK_QTY_AT, offset + TIME_AT) == field(
        quote.ask_qty,
        NUMBER_WIDTH as nat,
    )
    &&& mem.subrange(offset + TIME_AT, offset + TIME_AT + 8) == layout(ts)
}

/// What a reader takes a field to hold: the bytes before the first zero byte.
pub open spec fn field_text(bytes: Seq<u8>) -> Seq<u8>
    decreases bytes.len(),
{
    if bytes.len() == 0 || bytes[0] == 0 {
        Seq::empty()
    } else {
        seq![bytes[0]] + field_text(bytes.skip(1))
    }
}

/// The first `k` stores are the first `k - 1` and then one more.
proof fn lemma_one_more(
    mem: Seq<u8>,
    stores: Seq<StoreView>,
    k: int,
    layout: spec_fn(u64) -> Seq<u8>,
)
    requires
        0 < k <= stores.len(),
    ensures
        after_stores(mem, stores.take(k), layout) == after_store(
            after_stores(mem, stores.take(k - 1), layout),
            stores[k - 1],
            layout,
        ),
{
    assert(stores.take(k).drop_last() =~= stores.take(k - 1));
}

/// The memory after each number of stores of an update, spelled out store by store.
proof fn lemma_prefixes(
    mem: Seq<u8>,
    offset: int,
    seq: u64,
    quote: QuoteBytes,
    ts: u64,
    layout: spec_fn(u64) -> Seq<u8>,
)
    ensures
        ({
            let stores = quote_stores(offset, seq, quote, ts);
            let m1 = overwritten(mem, offset, layout((seq + 1) as u64));
            let m3 = overwritten(m1, offset + BID_AT, field(quote.bid, NUMBER_WIDTH as nat));
            let m4 = overwritten(m3, offset + BID_QTY_AT, field(quote.bid_qty, NUMBER_WIDTH as nat));
            let m5 = overwritten(m4, offset + ASK_AT, field(quote.ask, NUMBER_WIDTH as nat));
            let m6 = overwritten(m5, offset + ASK_QTY_AT, field(quote.ask_qty, NUMBER_WIDTH as nat));
            let m7 = overwritten(m6, offset + TIME_AT, layout(ts));
            let m9 = overwritten(m7, offset, layout((seq + 2) as u64));
            &&& after_stores(mem, stores.take(0), layout) == mem
            &&& after_stores(mem, stores.take(1), layout) == m1
            &&& after_stores(mem, stores.take(2), layout) == m1
            &&& after_stores(mem, stores.take(3), layout) == m3
            &&& after_stores(mem, stores.take(4), layout) == m4
            &&& after_stores(mem, stores.take(5), layout) == m5
            &&& after_stores(mem, stores.take(6), layout) == m6
            &&& after_stores(mem, stores.take(7), layout) == m7
            &&& after_stores(mem, stores.take(8), layout) == m7
            &&& after_stores(mem, stores.take(9), layout) == m9
            &&& stores.take(9) == stores
        }),
{
    let stores = quote_stores(offset, seq, quote, ts);
    assert(stores.take(9) =~= stores);
    lemma_one_more(mem, stores, 1, layout);
    lemma_one_more(mem, stores, 2, layout);
    lemma_one_more(mem, stores, 3, layout);
    lemma_one_more(mem, stores, 4, layout);
    lemma_one_more(mem, stores, 5, layout);
    lemma_one_more(mem, stores, 6, layout);
    lemma_one_more(mem, stores, 7, layout);
    lemma_one_more(mem, stores, 8, layout);
    lemma_one_more(mem, stores, 9, layout);
}

/// One list of stores after another.
pub proof fn lemma_after_concat(
    mem: Seq<u8>,
    a: Seq<StoreView>,
    b: Seq<StoreView>,
    layout: spec_fn(u64) -> Seq<u8>,
)
    ensures
        after_stores(mem, a + b, layout) == after_stores(after_stores(mem, a, layout), b, layout),
    decreases b.len(),
{
    if b.len() == 0 {
        assert(a + b =~= a);
    } else {
        lemma_after_concat(mem, a, b.drop_last(), layout);
        assert((a + b).drop_last() =~= a + b.drop_last());
        assert((a + b).last() == b.last());
    }
}

/// Whether byte `i` is one that an update of the record at `offset` sets: one of the sequence
/// number, of the quote's fields or of the time stamp.
pub open spec fn is_quote_byte(offset: int, i: int) -> bool {
    offset <= i < offset + SYMBOL_AT || offset + BID_AT <= i < offset + TIME_AT + 8
}

/// An update changes no byte but those of its quote.
pub proof fn lemma_update_changes_its_quote(
    mem: Seq<u8>,
    offset: int,
    seq: u64,
    quote: QuoteBytes,
    ts: u64,
    layout: spec_fn(u64) -> Seq<u8>,
)
    requires
        is_word_layout(layout),
    ensures
        ({
            let done = after_stores(mem, quote_stores(offset, seq, quote, ts), layout);
            &&& done.len() == mem.len()
            &&& forall|i: int|
                0 <= i < mem.len() && !is_quote_byte(offset, i) ==> #[trigger] done[i] == mem[i]
        }),
{
    lemma_prefixes(mem, offset, seq, quote, ts, layout);
    assert(layout(ts).len() == 8 && layout((seq + 1) as u64).len() == 8 && layout(
        (seq + 2) as u64,
    ).len() == 8);
}

/// After an update, the record at `offset` holds the next even sequence number, the quote
/// and the time stamp. Its symbol, its unused bytes and every other byte of the memory are
/// as before.
pub proof fn law_update_lands(
    mem: Seq<u8>,
    offset: int,
    seq: u64,
    quote: QuoteBytes,
    ts: u64,
    layout: spec_fn(u64) -> Seq<u8>,
)
    requires
        mem.len() == SHM_SIZE,
        record_fits(offset),
        seq <= u64::MAX - 2,
        is_word_layout(layout),
    ensures
        ({
            let done = after_stores(mem, quote_stores(offset, seq, quote, ts), layout);
            &&& done.len() == SHM_SIZE
            &&& sequence_bytes(done, offset) == layout((seq + 2) as u64)
            &&& holds_quote(done, offset, quote, ts, layout)
            &&& forall|i: int|
                0 <= i < SHM_SIZE && !is_quote_byte(offset, i) ==> #[trigger] done[i] == mem[i]
        }),
{
    lemma_prefixes(mem, offset, seq, quote, ts, layout);
    let done = after_stores(mem, quote_stores(offset, seq, quote, ts), layout);
    assert(layout(ts).len() == 8 && layout((seq + 1) as u64).len() == 8 && layout(
        (seq + 2) as u64,
    ).len() == 8);
    assert(sequence_bytes(done, offset) =~= layout((seq + 2) as u64));
    assert(done.subrange(offset + BID_AT, offset + BID_QTY_AT) =~= field(quote.bid, NUMBER_WIDTH as nat));
    assert(done.subrange(offset + BID_QTY_AT, offset + ASK_AT) =~= field(
        quote.bid_qty,
        NUMBER_WIDTH as nat,
    ));
    assert(done.subrange(offset + ASK_AT, offset + ASK_QTY_AT) =~= field(quote.ask, NUMBER_WIDTH as nat));
    assert(done.subrange(offset + ASK_QTY_AT, offset + TIME_AT) =~= field(
        quote.ask_qty,
        NUMBER_WIDTH as nat,
    ));
    assert(done.subrange(offset + TIME_AT, offset + TIME_AT + 8) =~= layout(ts));
}

/// A reader never meets half a quote. Whatever part of an update has been carried out, the
/// sequence number is the old one and the fields are the old ones, or it is the next odd
/// number, or it is the next even number and the fields are the new ones. So where the
/// number is even, the fields belong to one quote.
pub proof fn law_no_torn_quote(
    mem: Seq<u8>,
    offset: int,
    seq: u64,
    quote: QuoteBytes,
    ts: u64,
    layout: spec_fn(u64) -> Seq<u8>,
    done: int,
)
    requires
        mem.len() == SHM_SIZE,
        record_fits(offset),
        seq <= u64::MAX - 2,
        seq % 2 == 0,
        is_word_layout(layout),
        sequence_bytes(mem, offset) == layout(seq),
        0 <= done <= quote_stores(offset, seq, quote, ts).len(),
    ensures
        ({
            let stores = quote_stores(offset, seq, quote, ts);
            let now = after_stores(mem, stores.take(done), layout);
            let end = after_stores(mem, stores, layout);
            &&& sequence_bytes(now, offset) == layout(
                if done == 0 {
                    seq
                } else if done < stores.len() {
                    (seq + 1) as u64
                } else {
                    (seq + 2) as u64
                },
            )
            &&& forall|v: u64|
                #[trigger] layout(v) == sequence_bytes(now, offset) && v % 2 == 0 ==> {
                    ||| v == seq && body_bytes(now, offset) == body_bytes(mem, offset)
                    ||| v == seq + 2 && body_bytes(now, offset) == body_bytes(end, offset)
                }
        }),
{
    lemma_prefixes(mem, offset, seq, quote, ts, layout);
    let stores = quote_stores(offset, seq, quote, ts);
    let now = after_stores(mem, stores.take(done), layout);
    assert(layout(ts).len() == 8 && layout((seq + 1) as u64).len() == 8 && layout(
        (seq + 2) as u64,
    ).len() == 8);
    assert(stores.len() == 9);
    if done == 0 {
    } else if done < 9 {
        assert(done == 1 || done == 2 || done == 3 || done == 4 || done == 5 || done == 6 || done == 7
            || done == 8);
        assert(sequence_bytes(now, offset) =~= layout((seq + 1) as u64));
    } else {
        assert(done == 9);
        assert(sequence_bytes(now, offset) =~= layout((seq + 2) as u64));
    }
}

/// No field changes while the sequence number is even: the first field is stored behind the
/// odd number and a fence, and the even number behind the last field and a fence.
pub proof fn law_fields_change_between_the_fences(
    offset: int,
    seq: u64,
    quote: QuoteBytes,
    ts: u64,
    i: int,
)
    requires
        0 <= i < quote_stores(offset, seq, quote, ts).len(),
    ensures
        ({
            let stores = quote_stores(offset, seq, quote, ts);
            (stores[i] is Bytes || stores[i] is Word) ==> {
                &&& 1 < i < stores.len() - 2
                &&& stores[0] == StoreView::Sequence { at: offset, value: (seq + 1) as u64 }
                &&& stores[1] is Fence
                &&& stores[stores.len() - 2] is Fence
                &&& stores[stores.len() - 1] == StoreView::Sequence { at: offset, value: (seq + 2) as u64 }
            }
        }),
{
}

/// An update of one record leaves every other record alone.
pub proof fn law_records_are_independent(
    mem: Seq<u8>,
    slot: int,
    other: int,
    seq: u64,
    quote: QuoteBytes,
    ts: u64,
    layout: spec_fn(u64) -> Seq<u8>,
)
    requires
        mem.len() == SHM_SIZE,
        0 <= slot < MAX_COINS,
        0 <= other < MAX_COINS,
        slot != other,
        seq <= u64::MAX - 2,
        is_word_layout(layout),
    ensures
        record_bytes(
            after_stores(mem, quote_stores(slot * RECORD_SIZE, seq, quote, ts), layout),
            other,
        ) == record_bytes(mem, other),
{
    law_update_lands(mem, slot * RECORD_SIZE, seq, quote, ts, layout);
    let done = after_stores(mem, quote_stores(slot * RECORD_SIZE, seq, quote, ts), layout);
    assert(record_bytes(done, other) =~= record_bytes(mem, other));
}

/// Naming a record's symbol sets the symbol's field and nothing else.
pub proof fn law_symbol_lands(
    mem: Seq<u8>,
    slot: int,
    symbol: Seq<u8>,
    layout: spec_fn(u64) -> Seq<u8>,
)
    requires
        mem.len() == SHM_SIZE,
        0 <= slot < MAX_COINS,
    ensures
        ({
            let done = after_store(mem, symbol_store_of(slot, symbol), layout);
            let at = slot * RECORD_SIZE + SYMBOL_AT;
            &&& done.len() == SHM_SIZE
            &&& done.subrange(at, at + SYMBOL_WIDTH) == field(symbol, SYMBOL_WIDTH as nat)
            &&& forall|i: int|
                0 <= i < SHM_SIZE && !(at <= i < at + SYMBOL_WIDTH) ==> #[trigger] done[i] == mem[i]
        }),
{
    let done = after_store(mem, symbol_store_of(slot, symbol), layout);
    let at = slot * RECORD_SIZE + SYMBOL_AT;
    assert(done.subrange(at, at + SYMBOL_WIDTH) =~= field(symbol, SYMBOL_WIDTH as nat));
}

/// Blanking a record sets each of its bytes to zero and no other byte.
pub proof fn law_clear_lands(mem: Seq<u8>, slot: int, layout: spec_fn(u64) -> Seq<u8>)
    requires
        mem.len() == SHM_SIZE,
        0 <= slot < MAX_COINS,
    ensures
        ({
            let done = after_store(mem, clear_store_of(slot), layout);
            &&& done.len() == SHM_SIZE
            &&& forall|i: int|
                0 <= i < SHM_SIZE ==> #[trigger] done[i] == (if slot * RECORD_SIZE <= i < slot
                    * RECORD_SIZE + RECORD_SIZE {
                    0u8
                } else {
                    mem[i]
                })
        }),
{
}

/// A blanked record has the sequence number zero, from which a worker starts to count.
pub proof fn law_cleared_record_starts_at_zero(
    mem: Seq<u8>,
    slot: int,
    layout: spec_fn(u64) -> Seq<u8>,
)
    requires
        mem.len() == SHM_SIZE,
        0 <= slot < MAX_COINS,
        is_word_layout(layout),
    ensures
        sequence_bytes(after_store(mem, clear_store_of(slot), layout), slot * RECORD_SIZE)
            == layout(0),
{
    law_clear_lands(mem, slot, layout);
    assert(sequence_bytes(after_store(mem, clear_store_of(slot), layout), slot * RECORD_SIZE)
        =~= layout(0));
}

/// A text without zero bytes that is no longer than its field is read back as it was
/// written.
pub proof fn law_field_reads_back(text: Seq<u8>, width: nat)
    requires
        text.len() <= width,
        forall|i: int| 0 <= i < text.len() ==> text[i] != 0,
    ensures
        field_text(field(text, width)) == text,
    decreases width,
{
    let bytes = field(text, width);
    if text.len() > 0 {
        law_field_reads_back(text.skip(1), (width - 1) as nat);
        assert(bytes.skip(1) =~= field(text.skip(1), (width - 1) as nat));
        assert(text =~= seq![text[0]] + text.skip(1));
    } else {
        assert(text =~= Seq::<u8>::empty());
    }
}

/// Of a text that is longer than its field, the field keeps the beginning.
pub proof fn law_field_keeps_the_beginning(text: Seq<u8>, width: nat)
    requires
        width <= text.len(),
    ensures
        field(text, width) == text.take(width as int),
{
    assert(field(text, width) =~= text.take(width as int));
}

} // verus!
