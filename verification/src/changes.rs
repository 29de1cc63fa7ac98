//! What a new list of the exchange changes in the shared memory, byte by byte.
use vstd::prelude::*;
use vstd::utf8::encode_utf8;

use crate::config::{RECORD_SIZE, SHM_SIZE};
use crate::delivery::{
    lemma_memory_concat, lemma_memory_sends, lemma_placed_slots, lemma_subscribes_can_be_done,
    lemma_unsubscribes_can_be_done, memory_after, symbol_bytes,
};
use crate::listing::lemma_without_all;
use crate::memory::{after_store, law_clear_lands, law_symbol_lands};
use crate::orchestrator::{newcomers, refresh_actions};
use crate::record::{clear_store_of, field, symbol_store_of, SYMBOL_AT, SYMBOL_WIDTH};
use crate::slots::{
    law_with_all_keeps_wf, law_without_all_keeps_wf, naming, subscribes, unsubscribes,
    OrchActionView, Placement, Slots,
};
use crate::text::lemma_push_contains;

verus! {

/// Whether byte `i` lies in record number `slot`.
pub open spec fn in_record(slot: int, i: int) -> bool {
    slot * RECORD_SIZE <= i < slot * RECORD_SIZE + RECORD_SIZE
}

/// Whether byte `i` lies in the name of record number `slot`.
pub open spec fn in_name(slot: int, i: int) -> bool {
    slot * RECORD_SIZE + SYMBOL_AT <= i < slot * RECORD_SIZE + SYMBOL_AT + SYMBOL_WIDTH
}

/// Whether byte `i` lies in the record of a symbol of `gone`.
pub open spec fn is_blanked(s: Slots, gone: Seq<Seq<char>>, i: int) -> bool {
    exists|x: Seq<char>| #[trigger]
        gone.contains(x) && s.index.contains_key(x) && in_record(s.index[x] as int, i)
}

/// Whether byte `i` lies in the name of a record that was handed out.
pub open spec fn is_named(placements: Seq<Placement>, i: int) -> bool {
    exists|j: int| 0 <= j < placements.len() && in_name((#[trigger] placements[j]).slot as int, i)
}

/// Taking symbols off the list blanks their records and changes nothing else.
proof fn lemma_off_blanks(
    s: Slots,
    gone: Seq<Seq<char>>,
    mem: Seq<u8>,
    layout: spec_fn(u64) -> Seq<u8>,
)
    requires
        s.wf(),
        mem.len() == SHM_SIZE,
    ensures
        memory_after(mem, s.without_all_actions(gone), layout).len() == SHM_SIZE,
        forall|i: int|
            0 <= i < SHM_SIZE ==> #[trigger] memory_after(mem, s.without_all_actions(gone), layout)[i]
                == (if is_blanked(s, gone, i) {
                0u8
            } else {
                mem[i]
            }),
    decreases gone.len(),
{
    if gone.len() > 0 {
        let before = gone.drop_last();
        let symbol = gone.last();
        lemma_off_blanks(s, before, mem, layout);
        lemma_without_all(s, before);
        law_without_all_keeps_wf(s, before);
        lemma_push_contains(before, symbol);
        assert(gone =~= before.push(symbol));
        let t = s.without_all(before);
        let m = memory_after(mem, s.without_all_actions(before), layout);
        let after = memory_after(mem, s.without_all_actions(gone), layout);
        lemma_memory_concat(mem, s.without_all_actions(before), t.without_actions(symbol), layout);
        let drops = unsubscribes(t.workers, symbol, t.workers.len());
        lemma_unsubscribes_can_be_done(t.workers, symbol, t.workers.len());
        if t.index.contains_key(symbol) {
            let slot = t.index[symbol];
            assert(t.handed_out(slot));
            let cleared = seq![OrchActionView::Store(clear_store_of(slot as int))];
            let blank = after_store(m, clear_store_of(slot as int), layout);
            lemma_memory_concat(m, cleared, drops, layout);
            assert(cleared.drop_last() =~= Seq::empty());
            assert(memory_after(m, cleared.drop_last(), layout) == m);
            assert(memory_after(m, cleared, layout) == blank);
            lemma_memory_sends(blank, drops, layout);
            law_clear_lands(m, slot as int, layout);
            assert(after == blank);
        } else {
            assert(t.without_actions(symbol) =~= drops);
            lemma_memory_sends(m, drops, layout);
            assert(after == m);
        }
        assert forall|i: int| 0 <= i < SHM_SIZE implies #[trigger] after[i] == (if is_blanked(
            s,
            gone,
            i,
        ) {
            0u8
        } else {
            mem[i]
        }) by {
            if is_blanked(s, before, i) {
                let x = choose|x: Seq<char>| #[trigger]
                    before.contains(x) && s.index.contains_key(x) && in_record(
                        s.index[x] as int,
                        i,
                    );
                assert(gone.contains(x));
            }
            if is_blanked(s, gone, i) && !is_blanked(s, before, i) {
                let x = choose|x: Seq<char>| #[trigger]
                    gone.contains(x) && s.index.contains_key(x) && in_record(s.index[x] as int, i);
                assert(!before.contains(x));
                assert(x == symbol);
            }
            if t.index.contains_key(symbol) && in_record(t.index[symbol] as int, i) {
                assert(gone.contains(symbol));
            }
        }
    } else {
        assert(forall|i: int| !is_blanked(s, gone, i));
    }
}

/// A record that was handed out is not free and is not the next new one.
proof fn lemma_handed_out_is_taken(s: Slots, added: Seq<Seq<char>>, j: int)
    requires
        s.wf(),
        0 <= j < s.placements(added).len(),
    ensures
        s.placements(added)[j].slot < s.with_all(added).next,
        forall|k: int|
            0 <= k < s.with_all(added).free.len() ==> #[trigger] s.with_all(added).free[k]
                != s.placements(added)[j].slot,
    decreases added.len(),
{
    if added.len() > 0 {
        let before = added.drop_last();
        law_with_all_keeps_wf(s, before);
        let t = s.with_all(before);
        let placed = s.placements(before);
        if t.free.len() > 0 {
            assert(t.handed_out(t.free[t.free.len() - 1]));
        }
        if j < placed.len() {
            lemma_handed_out_is_taken(s, before, j);
            assert(s.placements(added)[j] == placed[j]);
        } else {
            assert(Some(s.placements(added)[j]) == t.placement(added.last()));
        }
    }
}

/// Putting symbols on the list names their records and changes nothing else.
proof fn lemma_on_names(
    s: Slots,
    added: Seq<Seq<char>>,
    mem: Seq<u8>,
    layout: spec_fn(u64) -> Seq<u8>,
)
    requires
        s.wf(),
        mem.len() == SHM_SIZE,
    ensures
        ({
            let placed = s.placements(added);
            let after = memory_after(mem, naming(placed), layout);
            &&& after.len() == SHM_SIZE
            &&& forall|i: int|
                0 <= i < SHM_SIZE && !is_named(placed, i) ==> #[trigger] after[i] == mem[i]
            &&& forall|j: int|
                0 <= j < placed.len() ==> symbol_bytes(after, (#[trigger] placed[j]).slot as int)
                    == field(encode_utf8(placed[j].symbol), SYMBOL_WIDTH as nat)
        }),
    decreases added.len(),
{
    if added.len() > 0 {
        let before = added.drop_last();
        let symbol = added.last();
        lemma_on_names(s, before, mem, layout);
        law_with_all_keeps_wf(s, before);
        let t = s.with_all(before);
        let placed = s.placements(before);
        let m = memory_after(mem, naming(placed), layout);
        if let Some(p) = t.placement(symbol) {
            let all = s.placements(added);
            assert(all =~= placed.push(p));
            assert(naming(all).drop_last() =~= naming(placed));
            let store = symbol_store_of(p.slot as int, encode_utf8(symbol));
            assert(naming(all).last() == OrchActionView::Store(store));
            let after = after_store(m, store, layout);
            assert(memory_after(mem, naming(all), layout) == after);
            lemma_placed_slots(s, added);
            assert(all[placed.len() as int] == p);
            law_symbol_lands(m, p.slot as int, encode_utf8(symbol), layout);
            assert forall|i: int| 0 <= i < SHM_SIZE && !is_named(all, i) implies #[trigger] after[i]
                == mem[i] by {
                if is_named(placed, i) {
                    let j = choose|j: int|
                        0 <= j < placed.len() && in_name((#[trigger] placed[j]).slot as int, i);
                    assert(in_name(all[j].slot as int, i));
                }
                assert(!in_name(all[placed.len() as int].slot as int, i));
            }
            assert forall|j: int| 0 <= j < all.len() implies symbol_bytes(
                after,
                (#[trigger] all[j]).slot as int,
            ) == field(encode_utf8(all[j].symbol), SYMBOL_WIDTH as nat) by {
                if j < placed.len() {
                    lemma_handed_out_is_taken(s, before, j);
                    assert(all[j] == placed[j]);
                    if t.free.len() > 0 {
                        assert(t.free[t.free.len() - 1] != placed[j].slot);
                    }
                    assert(all[j].slot != p.slot);
                    assert(all[j].slot as int * RECORD_SIZE + RECORD_SIZE <= SHM_SIZE);
                    assert(symbol_bytes(after, all[j].slot as int) =~= symbol_bytes(
                        m,
                        all[j].slot as int,
                    ));
                }
            }
        }
    }
}

/// What a new list changes in the memory: the records that it hands out get their symbols'
/// names; of the records of the symbols that go, every other byte is blank; and every other byte
/// of the memory is as it was.
pub proof fn law_what_a_list_changes(
    s: Slots,
    latest: Seq<Seq<char>>,
    gone: Seq<Seq<char>>,
    mem: Seq<u8>,
    layout: spec_fn(u64) -> Seq<u8>,
)
    requires
        s.wf(),
        mem.len() == SHM_SIZE,
    ensures
        ({
            let placed = s.without_all(gone).placements(newcomers(s, latest));
            let after = memory_after(mem, refresh_actions(s, latest, gone), layout);
            &&& after.len() == SHM_SIZE
            &&& forall|j: int|
                0 <= j < placed.len() ==> symbol_bytes(after, (#[trigger] placed[j]).slot as int)
                    == field(encode_utf8(placed[j].symbol), SYMBOL_WIDTH as nat)
            &&& forall|i: int|
                0 <= i < SHM_SIZE && !is_named(placed, i) ==> #[trigger] after[i]
                    == (if is_blanked(s, gone, i) {
                    0u8
                } else {
                    mem[i]
                })
        }),
{
    let t = s.without_all(gone);
    let added = newcomers(s, latest);
    let placed = t.placements(added);
    let subs = subscribes(placed, t.workers.len());
    law_without_all_keeps_wf(s, gone);
    lemma_off_blanks(s, gone, mem, layout);
    let m = memory_after(mem, s.without_all_actions(gone), layout);
    lemma_on_names(t, added, m, layout);
    lemma_memory_concat(mem, s.without_all_actions(gone), t.with_all_actions(added), layout);
    lemma_memory_concat(m, naming(placed), subs, layout);
    lemma_placed_slots(t, added);
    lemma_subscribes_can_be_done(placed, t.workers.len());
    lemma_memory_sends(memory_after(m, naming(placed), layout), subs, layout);
}

} // verus!
