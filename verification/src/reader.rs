//! What a reader gets that takes its time: a record may be updated any number of times while it
//! is being read.
use vstd::prelude::*;

use crate::config::{RECORD_SIZE, SHM_SIZE};
use crate::memory::{
    after_stores, body_bytes, holds_quote, is_word_layout, law_no_torn_quote, law_update_lands,
    lemma_after_concat, sequence_bytes,
};
use crate::record::{
    quote_stores, record_fits, QuoteBytes, StoreView, ASK_AT, ASK_QTY_AT, BID_AT, BID_QTY_AT,
    TIME_AT,
};

verus! {

/// A quote and its time stamp.
pub struct Update {
    pub quote: QuoteBytes,
    pub ts: u64,
}

/// The stores of one update after another of the record at `offset`, whose sequence number is
/// `seq` at first.
pub open spec fn update_stores(offset: int, seq: u64, updates: Seq<Update>) -> Seq<StoreView>
    decreases updates.len(),
{
    if updates.len() == 0 {
        Seq::empty()
    } else {
        update_stores(offset, seq, updates.drop_last()) + quote_stores(
            offset,
            (seq + 2 * (updates.len() - 1)) as u64,
            updates.last().quote,
            updates.last().ts,
        )
    }
}

/// The memory when the first `done` stores of the updates have been carried out.
pub open spec fn memory_at(
    mem: Seq<u8>,
    offset: int,
    seq: u64,
    updates: Seq<Update>,
    layout: spec_fn(u64) -> Seq<u8>,
    done: int,
) -> Seq<u8> {
    after_stores(mem, update_stores(offset, seq, updates).take(done), layout)
}

/// The stores of the first `k` updates are the first stores, nine for each.
proof fn lemma_first_updates(offset: int, seq: u64, updates: Seq<Update>, k: int)
    requires
        0 <= k <= updates.len(),
    ensures
        update_stores(offset, seq, updates).len() == 9 * updates.len(),
        update_stores(offset, seq, updates).take(9 * k) == update_stores(
            offset,
            seq,
            updates.take(k),
        ),
    decreases updates.len(),
{
    let all = update_stores(offset, seq, updates);
    if updates.len() == 0 {
        assert(updates.take(k) =~= updates);
        assert(all.take(0) =~= all);
    } else {
        let before = updates.drop_last();
        if k == updates.len() {
            lemma_first_updates(offset, seq, before, k - 1);
            assert(updates.take(k) =~= updates);
            assert(all.take(9 * k) =~= all);
        } else {
            lemma_first_updates(offset, seq, before, k);
            assert(before.take(k) =~= updates.take(k));
            assert(all.take(9 * k) =~= update_stores(offset, seq, before).take(9 * k));
        }
    }
}

/// The sequence number at each moment: it is even where an update is over and the next one has
/// not begun, and odd everywhere else.
proof fn lemma_number_at(
    mem: Seq<u8>,
    offset: int,
    seq: u64,
    updates: Seq<Update>,
    layout: spec_fn(u64) -> Seq<u8>,
    done: int,
)
    requires
        mem.len() == SHM_SIZE,
        record_fits(offset),
        seq % 2 == 0,
        seq + 2 * updates.len() <= u64::MAX,
        is_word_layout(layout),
        sequence_bytes(mem, offset) == layout(seq),
        0 <= done <= 9 * updates.len(),
    ensures
        memory_at(mem, offset, seq, updates, layout, done).len() == SHM_SIZE,
        sequence_bytes(memory_at(mem, offset, seq, updates, layout, done), offset) == layout(
            (seq + 2 * (done / 9) + (if done % 9 == 0 {
                0int
            } else {
                1int
            })) as u64,
        ),
    decreases updates.len(),
{
    let all = update_stores(offset, seq, updates);
    lemma_first_updates(offset, seq, updates, updates.len() as int);
    if updates.len() == 0 {
        assert(all.take(0) =~= Seq::empty());
    } else {
        let before = updates.drop_last();
        let n = before.len() as int;
        let first = update_stores(offset, seq, before);
        lemma_first_updates(offset, seq, before, n);
        if done <= 9 * n {
            lemma_number_at(mem, offset, seq, before, layout, done);
            assert(all.take(done) =~= first.take(done));
        } else {
            lemma_number_at(mem, offset, seq, before, layout, 9 * n);
            assert(first.take(9 * n) =~= first);
            let m = after_stores(mem, first, layout);
            let s = (seq + 2 * n) as u64;
            let last = quote_stores(offset, s, updates.last().quote, updates.last().ts);
            let rest = done - 9 * n;
            assert((9 * n) / 9 == n && (9 * n) % 9 == 0);
            assert(all.take(done) =~= first + last.take(rest));
            lemma_after_concat(mem, first, last.take(rest), layout);
            law_no_torn_quote(
                m,
                offset,
                s,
                updates.last().quote,
                updates.last().ts,
                layout,
                rest,
            );
            assert(after_stores(m, last.take(rest), layout).len() == SHM_SIZE) by {
                lemma_length(m, last.take(rest), layout);
            }
            if rest == 9 {
                assert(done == 9 * (n + 1));
                assert(done / 9 == n + 1 && done % 9 == 0);
            } else {
                assert(done / 9 == n && done % 9 == rest);
            }
        }
    }
}

/// Stores do not change the size of the memory.
proof fn lemma_length(mem: Seq<u8>, stores: Seq<StoreView>, layout: spec_fn(u64) -> Seq<u8>)
    ensures
        after_stores(mem, stores, layout).len() == mem.len(),
    decreases stores.len(),
{
    if stores.len() > 0 {
        lemma_length(mem, stores.drop_last(), layout);
    }
}

/// What a reader copies that meets nothing but the updates of its record.
proof fn lemma_copy_is_one_quote(
    mem: Seq<u8>,
    offset: int,
    seq: u64,
    updates: Seq<Update>,
    layout: spec_fn(u64) -> Seq<u8>,
    from: int,
    at: int,
    to: int,
    number: u64,
)
    requires
        mem.len() == SHM_SIZE,
        record_fits(offset),
        seq % 2 == 0,
        seq + 2 * updates.len() <= u64::MAX,
        is_word_layout(layout),
        sequence_bytes(mem, offset) == layout(seq),
        0 <= from <= at <= to <= update_stores(offset, seq, updates).len(),
        number % 2 == 0,
        sequence_bytes(memory_at(mem, offset, seq, updates, layout, from), offset) == layout(
            number,
        ),
        sequence_bytes(memory_at(mem, offset, seq, updates, layout, to), offset) == layout(number),
    ensures
        seq <= number <= seq + 2 * updates.len(),
        ({
            let k = (number - seq) / 2;
            let copied = memory_at(mem, offset, seq, updates, layout, at);
            let whole = after_stores(mem, update_stores(offset, seq, updates.take(k)), layout);
            &&& body_bytes(copied, offset) == body_bytes(whole, offset)
            &&& k > 0 ==> holds_quote(
                copied,
                offset,
                updates[k - 1].quote,
                updates[k - 1].ts,
                layout,
            )
        }),
{
    lemma_first_updates(offset, seq, updates, updates.len() as int);
    lemma_number_at(mem, offset, seq, updates, layout, from);
    lemma_number_at(mem, offset, seq, updates, layout, to);
    let k = (number - seq) / 2;
    assert(from % 9 == 0 && from == 9 * k);
    assert(to % 9 == 0 && to == 9 * k);
    lemma_first_updates(offset, seq, updates, k);
    if k > 0 {
        let done = updates.take(k);
        let before = done.drop_last();
        lemma_first_updates(offset, seq, before, k - 1);
        lemma_number_at(mem, offset, seq, before, layout, 9 * (k - 1));
        let first = update_stores(offset, seq, before);
        assert(first.take(9 * (k - 1)) =~= first);
        let s = (seq + 2 * (k - 1)) as u64;
        let m = after_stores(mem, first, layout);
        let last = quote_stores(offset, s, done.last().quote, done.last().ts);
        lemma_after_concat(mem, first, last, layout);
        law_update_lands(m, offset, s, done.last().quote, done.last().ts, layout);
    }
}

/// A store to the shared memory, and whether it is one of the updates of the record that is
/// read.
pub struct Step {
    pub own: bool,
    pub store: StoreView,
}

/// All stores of a list of steps.
pub open spec fn all_stores(steps: Seq<Step>) -> Seq<StoreView> {
    Seq::new(steps.len(), |i: int| steps[i].store)
}

/// The stores among them that update the record.
pub open spec fn own_stores(steps: Seq<Step>) -> Seq<StoreView>
    decreases steps.len(),
{
    if steps.len() == 0 {
        Seq::empty()
    } else if steps.last().own {
        own_stores(steps.drop_last()).push(steps.last().store)
    } else {
        own_stores(steps.drop_last())
    }
}

/// Whether a store changes no byte of the record at `offset`.
pub open spec fn leaves_alone(store: StoreView, offset: int) -> bool {
    match store {
        StoreView::Sequence { at, .. } => at + 8 <= offset || offset + RECORD_SIZE <= at,
        StoreView::Word { at, .. } => at + 8 <= offset || offset + RECORD_SIZE <= at,
        StoreView::Bytes { at, bytes } => at + bytes.len() <= offset || offset + RECORD_SIZE <= at,
        StoreView::Fence => true,
    }
}

/// The memory when the first `t` steps have been carried out.
pub open spec fn memory_at_step(
    mem: Seq<u8>,
    steps: Seq<Step>,
    layout: spec_fn(u64) -> Seq<u8>,
    t: int,
) -> Seq<u8> {
    after_stores(mem, all_stores(steps.take(t)), layout)
}

/// As far as the record goes, only its own stores count.
proof fn lemma_only_own_stores_count(
    mem: Seq<u8>,
    offset: int,
    steps: Seq<Step>,
    layout: spec_fn(u64) -> Seq<u8>,
)
    requires
        mem.len() == SHM_SIZE,
        record_fits(offset),
        is_word_layout(layout),
        forall|i: int|
            0 <= i < steps.len() && !(#[trigger] steps[i]).own ==> leaves_alone(
                steps[i].store,
                offset,
            ),
    ensures
        after_stores(mem, all_stores(steps), layout).len() == SHM_SIZE,
        after_stores(mem, own_stores(steps), layout).len() == SHM_SIZE,
        forall|i: int|
            offset <= i < offset + RECORD_SIZE ==> #[trigger] after_stores(
                mem,
                all_stores(steps),
                layout,
            )[i] == after_stores(mem, own_stores(steps), layout)[i],
    decreases steps.len(),
{
    if steps.len() > 0 {
        let before = steps.drop_last();
        let last = steps[steps.len() - 1];
        assert(forall|i: int| 0 <= i < before.len() ==> before[i] == steps[i]);
        lemma_only_own_stores_count(mem, offset, before, layout);
        assert(all_stores(steps).drop_last() =~= all_stores(before));
        assert(all_stores(steps).last() == last.store);
        if last.own {
            assert(own_stores(steps).drop_last() =~= own_stores(before));
        } else {
            assert(leaves_alone(last.store, offset));
        }
        match last.store {
            StoreView::Sequence { at, value } => {
                assert(layout(value).len() == 8);
            },
            StoreView::Word { at, value } => {
                assert(layout(value).len() == 8);
            },
            _ => {},
        }
    }
}

/// The own stores of the first steps are the first own stores.
proof fn lemma_own_prefix(steps: Seq<Step>, t: int)
    requires
        0 <= t <= steps.len(),
    ensures
        own_stores(steps.take(t)).len() <= own_stores(steps).len(),
        own_stores(steps.take(t)) == own_stores(steps).take(
            own_stores(steps.take(t)).len() as int,
        ),
    decreases steps.len(),
{
    if t == steps.len() {
        assert(steps.take(t) =~= steps);
        assert(own_stores(steps).take(own_stores(steps).len() as int) =~= own_stores(steps));
    } else {
        let before = steps.drop_last();
        lemma_own_prefix(before, t);
        assert(before.take(t) =~= steps.take(t));
        assert(own_stores(steps).take(own_stores(steps.take(t)).len() as int) =~= own_stores(
            before,
        ).take(own_stores(steps.take(t)).len() as int));
    }
}

/// The record at a step is what its own stores until then have made of it.
proof fn lemma_record_at_step(
    mem: Seq<u8>,
    offset: int,
    seq: u64,
    updates: Seq<Update>,
    steps: Seq<Step>,
    layout: spec_fn(u64) -> Seq<u8>,
    t: int,
)
    requires
        mem.len() == SHM_SIZE,
        record_fits(offset),
        is_word_layout(layout),
        own_stores(steps) == update_stores(offset, seq, updates),
        forall|i: int|
            0 <= i < steps.len() && !(#[trigger] steps[i]).own ==> leaves_alone(
                steps[i].store,
                offset,
            ),
        0 <= t <= steps.len(),
    ensures
        ({
            let c = own_stores(steps.take(t)).len() as int;
            let here = memory_at_step(mem, steps, layout, t);
            let alone = memory_at(mem, offset, seq, updates, layout, c);
            &&& 0 <= c <= update_stores(offset, seq, updates).len()
            &&& here.len() == SHM_SIZE
            &&& alone.len() == SHM_SIZE
            &&& sequence_bytes(here, offset) == sequence_bytes(alone, offset)
            &&& body_bytes(here, offset) == body_bytes(alone, offset)
            &&& forall|i: int|
                offset <= i < offset + RECORD_SIZE ==> #[trigger] here[i] == alone[i]
        }),
{
    let first = steps.take(t);
    lemma_own_prefix(steps, t);
    assert(forall|i: int| 0 <= i < first.len() ==> first[i] == steps[i]);
    lemma_only_own_stores_count(mem, offset, first, layout);
    let here = memory_at_step(mem, steps, layout, t);
    let alone = memory_at(mem, offset, seq, updates, layout, own_stores(first).len() as int);
    assert(sequence_bytes(here, offset) =~= sequence_bytes(alone, offset));
    assert(body_bytes(here, offset) =~= body_bytes(alone, offset));
}

/// A reader that finds the same even sequence number before and after it copied a record has
/// copied one whole quote. The record may be updated any number of times before, between and
/// after the two looks at the number, and between any two stores of these updates there may be
/// stores elsewhere in the memory; all that is ruled out is that somebody else stores to the
/// record, as the orchestrator does when it blanks it. Each byte of the copy may be taken at a moment of its own,
/// `at`, between the two looks: it is what it was when so many updates were over as the number
/// says and the next one had not begun, and the fields are those of the last of these updates.
pub proof fn law_copy_is_one_quote(
    mem: Seq<u8>,
    offset: int,
    seq: u64,
    updates: Seq<Update>,
    steps: Seq<Step>,
    layout: spec_fn(u64) -> Seq<u8>,
    from: int,
    at: int,
    to: int,
    number: u64,
)
    requires
        mem.len() == SHM_SIZE,
        record_fits(offset),
        seq % 2 == 0,
        seq + 2 * updates.len() <= u64::MAX,
        is_word_layout(layout),
        sequence_bytes(mem, offset) == layout(seq),
        own_stores(steps) == update_stores(offset, seq, updates),
        forall|i: int|
            0 <= i < steps.len() && !(#[trigger] steps[i]).own ==> leaves_alone(
                steps[i].store,
                offset,
            ),
        0 <= from <= at <= to <= steps.len(),
        number % 2 == 0,
        sequence_bytes(memory_at_step(mem, steps, layout, from), offset) == layout(number),
        sequence_bytes(memory_at_step(mem, steps, layout, to), offset) == layout(number),
    ensures
        seq <= number <= seq + 2 * updates.len(),
        ({
            let k = (number - seq) / 2;
            let copied = memory_at_step(mem, steps, layout, at);
            let whole = after_stores(mem, update_stores(offset, seq, updates.take(k)), layout);
            &&& body_bytes(copied, offset) == body_bytes(whole, offset)
            &&& k > 0 ==> holds_quote(
                copied,
                offset,
                updates[k - 1].quote,
                updates[k - 1].ts,
                layout,
            )
        }),
{
    lemma_record_at_step(mem, offset, seq, updates, steps, layout, from);
    lemma_record_at_step(mem, offset, seq, updates, steps, layout, at);
    lemma_record_at_step(mem, offset, seq, updates, steps, layout, to);
    assert(steps.take(to).take(at) =~= steps.take(at));
    assert(steps.take(at).take(from) =~= steps.take(from));
    lemma_own_prefix(steps.take(to), at);
    lemma_own_prefix(steps.take(at), from);
    let c = own_stores(steps.take(at)).len() as int;
    lemma_copy_is_one_quote(
        mem,
        offset,
        seq,
        updates,
        layout,
        own_stores(steps.take(from)).len() as int,
        c,
        own_stores(steps.take(to)).len() as int,
        number,
    );
    let k = (number - seq) / 2;
    if k > 0 {
        let copied = memory_at_step(mem, steps, layout, at);
        let alone = memory_at(mem, offset, seq, updates, layout, c);
        let last = updates[k - 1];
        assert(copied.subrange(offset + BID_AT, offset + BID_QTY_AT) =~= alone.subrange(
            offset + BID_AT,
            offset + BID_QTY_AT,
        ));
        assert(copied.subrange(offset + BID_QTY_AT, offset + ASK_AT) =~= alone.subrange(
            offset + BID_QTY_AT,
            offset + ASK_AT,
        ));
        assert(copied.subrange(offset + ASK_AT, offset + ASK_QTY_AT) =~= alone.subrange(
            offset + ASK_AT,
            offset + ASK_QTY_AT,
        ));
        assert(copied.subrange(offset + ASK_QTY_AT, offset + TIME_AT) =~= alone.subrange(
            offset + ASK_QTY_AT,
            offset + TIME_AT,
        ));
        assert(copied.subrange(offset + TIME_AT, offset + TIME_AT + 8) =~= alone.subrange(
            offset + TIME_AT,
            offset + TIME_AT + 8,
        ));
        assert(holds_quote(alone, offset, last.quote, last.ts, layout));
    }
}

} // verus!
