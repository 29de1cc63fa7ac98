//! What the orchestrator's actions bring about: what the workers follow, and what the records
//! are named.
use vstd::prelude::*;
use vstd::utf8::encode_utf8;

use crate::command::WorkerCmdView;
use crate::config::{MAX_COINS, RECORD_SIZE, SHM_SIZE};
use crate::memory::{
    after_store, after_stores, is_word_layout, law_clear_lands, law_symbol_lands, law_update_lands,
};
use crate::orchestrator::{newcomers, refresh_actions, refreshed};
use crate::pool::{all_fit, subscribed, unsubscribed, Registry};
use crate::record::{
    clear_store_of, field, quote_stores, record_fits, symbol_store_of, QuoteBytes, StoreView,
    SYMBOL_AT, SYMBOL_WIDTH,
};
use crate::slots::{
    law_least_loaded, law_with_all_keeps_wf, law_without_all_keeps_wf, naming, payload,
    subscribes, unsubscribes, OrchActionView, Placement, Slots,
};

verus! {

/// What worker `w` has in its registry after it was told what `actions` tell it.
pub open spec fn told(registry: Registry, actions: Seq<OrchActionView>, w: int) -> Registry
    decreases actions.len(),
{
    if actions.len() == 0 {
        registry
    } else {
        let before = told(registry, actions.drop_last(), w);
        match actions.last() {
            OrchActionView::Send { worker, cmd } => if worker == w {
                match cmd {
                    WorkerCmdView::Subscribe(list) => subscribed(before, list),
                    WorkerCmdView::Unsubscribe(list) => unsubscribed(before, list),
                    WorkerCmdView::PlannedReconnect => before,
                }
            } else {
                before
            },
            OrchActionView::Store(_) => before,
        }
    }
}

/// Whether a registry holds the symbols of `followed`, each at the byte where its record
/// starts.
pub open spec fn agrees(registry: Registry, followed: Map<Seq<char>, usize>) -> bool {
    &&& registry.dom() == followed.dom()
    &&& forall|x: Seq<char>| #[trigger]
        registry.contains_key(x) ==> registry[x].0 == followed[x] * RECORD_SIZE
}

/// To be told one thing after another is to be told both.
pub proof fn lemma_told_concat(
    registry: Registry,
    a: Seq<OrchActionView>,
    b: Seq<OrchActionView>,
    w: int,
)
    ensures
        told(registry, a + b, w) == told(told(registry, a, w), b, w),
    decreases b.len(),
{
    if b.len() == 0 {
        assert(a + b =~= a);
    } else {
        lemma_told_concat(registry, a, b.drop_last(), w);
        assert((a + b).drop_last() =~= a + b.drop_last());
        assert((a + b).last() == b.last());
    }
}

/// Stores tell nobody anything.
proof fn lemma_told_stores(registry: Registry, actions: Seq<OrchActionView>, w: int)
    requires
        forall|i: int| 0 <= i < actions.len() ==> (#[trigger] actions[i]) is Store,
    ensures
        told(registry, actions, w) == registry,
    decreases actions.len(),
{
    if actions.len() > 0 {
        assert(actions.last() is Store);
        assert(forall|i: int|
            0 <= i < actions.drop_last().len() ==> actions.drop_last()[i] == actions[i]);
        lemma_told_stores(registry, actions.drop_last(), w);
    }
}

/// What the first `n` workers are told when a symbol is taken off the list.
proof fn lemma_told_unsubscribes(
    registry: Registry,
    workers: Seq<Map<Seq<char>, usize>>,
    symbol: Seq<char>,
    n: nat,
    w: int,
)
    ensures
        told(registry, unsubscribes(workers, symbol, n), w) == (if 0 <= w < n
            && workers[w].contains_key(symbol) {
            unsubscribed(registry, seq![symbol])
        } else {
            registry
        }),
    decreases n,
{
    if n > 0 {
        let before = unsubscribes(workers, symbol, (n - 1) as nat);
        lemma_told_unsubscribes(registry, workers, symbol, (n - 1) as nat, w);
        if workers[n - 1].contains_key(symbol) {
            let all = unsubscribes(workers, symbol, n);
            assert(all.drop_last() =~= before);
        }
    }
}

/// What the first `n` workers are told when symbols were placed.
proof fn lemma_told_subscribes(
    registry: Registry,
    placements: Seq<Placement>,
    n: nat,
    w: int,
)
    ensures
        told(registry, subscribes(placements, n), w) == (if 0 <= w < n {
            subscribed(registry, payload(placements, w))
        } else {
            registry
        }),
    decreases n,
{
    if n > 0 {
        let before = subscribes(placements, (n - 1) as nat);
        lemma_told_subscribes(registry, placements, (n - 1) as nat, w);
        if payload(placements, n - 1).len() > 0 {
            let all = subscribes(placements, n);
            assert(all.drop_last() =~= before);
        }
    }
}

/// A worker's registry follows the books when symbols are taken off the list.
proof fn lemma_told_without_all(s: Slots, gone: Seq<Seq<char>>, registry: Registry, w: int)
    requires
        s.wf(),
        0 <= w < s.workers.len(),
        agrees(registry, s.workers[w]),
    ensures
        agrees(told(registry, s.without_all_actions(gone), w), s.without_all(gone).workers[w]),
    decreases gone.len(),
{
    if gone.len() > 0 {
        let before = gone.drop_last();
        let symbol = gone.last();
        lemma_told_without_all(s, before, registry, w);
        law_without_all_keeps_wf(s, before);
        let t = s.without_all(before);
        let reg = told(registry, s.without_all_actions(before), w);
        lemma_told_concat(registry, s.without_all_actions(before), t.without_actions(symbol), w);
        let cleared = if t.index.contains_key(symbol) {
            seq![
                OrchActionView::Store(
                    clear_store_of(t.index[symbol] as int),
                ),
            ]
        } else {
            Seq::empty()
        };
        lemma_told_concat(reg, cleared, unsubscribes(t.workers, symbol, t.workers.len()), w);
        lemma_told_stores(reg, cleared, w);
        lemma_told_unsubscribes(reg, t.workers, symbol, t.workers.len(), w);
        let after = told(registry, s.without_all_actions(gone), w);
        assert(t.without(symbol).workers[w] == t.workers[w].remove(symbol));
        assert(seq![symbol].to_set() =~= set![symbol]) by {
            assert(seq![symbol][0] == symbol);
        }
        assert(after.dom() =~= t.workers[w].remove(symbol).dom());
    }
}

/// Every record that is handed out lies in the memory.
pub proof fn lemma_placed_slots(s: Slots, added: Seq<Seq<char>>)
    requires
        s.wf(),
    ensures
        forall|i: int|
            0 <= i < s.placements(added).len() ==> (#[trigger] s.placements(added)[i]).slot < MAX_COINS,
    decreases added.len(),
{
    if added.len() > 0 {
        lemma_placed_slots(s, added.drop_last());
        law_with_all_keeps_wf(s, added.drop_last());
        let before = s.placements(added.drop_last());
        let all = s.placements(added);
        assert forall|i: int| 0 <= i < all.len() implies (#[trigger] all[i]).slot < MAX_COINS by {
            if i < before.len() {
                assert(all[i] == before[i]);
            }
        }
    }
}

/// The list that a worker is given makes its registry follow the books.
proof fn lemma_told_with_all(s: Slots, added: Seq<Seq<char>>, registry: Registry, w: int)
    requires
        s.wf(),
        0 <= w < s.workers.len(),
        agrees(registry, s.workers[w]),
    ensures
        agrees(subscribed(registry, payload(s.placements(added), w)), s.with_all(added).workers[w]),
    decreases added.len(),
{
    if added.len() > 0 {
        let before = added.drop_last();
        lemma_told_with_all(s, before, registry, w);
        law_with_all_keeps_wf(s, before);
        let t = s.with_all(before);
        law_least_loaded(t.workers, t.workers.len());
        let placed = s.placements(before);
        let reg = subscribed(registry, payload(placed, w));
        match t.placement(added.last()) {
            None => {},
            Some(p) => {
                let all = s.placements(added);
                assert(all.drop_last() =~= placed);
                assert(all.last() == p);
                if p.worker == w {
                    let list = payload(all, w);
                    assert(list.drop_last() =~= payload(placed, w));
                    let after = subscribed(registry, list);
                    assert(after.dom() =~= t.workers[w].insert(p.symbol, p.slot).dom());
                }
            },
        }
    }
}

/// The books are true: if a worker's registry held what the orchestrator thinks that the worker
/// follows, it does so again after the commands of a new list reached the worker.
pub proof fn law_workers_follow_the_books(
    s: Slots,
    latest: Seq<Seq<char>>,
    gone: Seq<Seq<char>>,
    registry: Registry,
    w: int,
)
    requires
        s.wf(),
        0 <= w < s.workers.len(),
        agrees(registry, s.workers[w]),
    ensures
        agrees(
            told(registry, refresh_actions(s, latest, gone), w),
            refreshed(s, latest, gone).workers[w],
        ),
{
    let added = newcomers(s, latest);
    let t = s.without_all(gone);
    law_without_all_keeps_wf(s, gone);
    lemma_told_without_all(s, gone, registry, w);
    let reg = told(registry, s.without_all_actions(gone), w);
    lemma_told_with_all(t, added, reg, w);
    let placed = t.placements(added);
    lemma_told_concat(registry, s.without_all_actions(gone), t.with_all_actions(added), w);
    lemma_told_concat(reg, naming(placed), subscribes(placed, t.workers.len()), w);
    lemma_told_stores(reg, naming(placed), w);
    lemma_told_subscribes(reg, placed, t.workers.len(), w);
}

/// Whether an action can be carried out where there are `n` workers: a store lies in the
/// memory, a command goes to one of the workers, and the records that it names lie in the
/// memory.
pub open spec fn can_be_done(action: OrchActionView, n: nat) -> bool {
    match action {
        OrchActionView::Store(StoreView::Bytes { at, bytes }) => 0 <= at && at + bytes.len()
            <= SHM_SIZE,
        OrchActionView::Store(_) => false,
        OrchActionView::Send { worker, cmd } => {
            &&& 0 <= worker < n
            &&& match cmd {
                WorkerCmdView::Subscribe(list) => list.len() > 0 && all_fit(list),
                WorkerCmdView::Unsubscribe(list) => list.len() == 1,
                WorkerCmdView::PlannedReconnect => false,
            }
        },
    }
}

/// Whether all of a list of actions can be carried out.
pub open spec fn all_can_be_done(actions: Seq<OrchActionView>, n: nat) -> bool {
    forall|i: int| 0 <= i < actions.len() ==> can_be_done(#[trigger] actions[i], n)
}

/// Commands to drop a symbol can be carried out.
pub proof fn lemma_unsubscribes_can_be_done(
    workers: Seq<Map<Seq<char>, usize>>,
    symbol: Seq<char>,
    n: nat,
)
    ensures
        all_can_be_done(unsubscribes(workers, symbol, n), n),
        forall|i: int|
            0 <= i < unsubscribes(workers, symbol, n).len() ==> (#[trigger] unsubscribes(
                workers,
                symbol,
                n,
            )[i]) is Send,
    decreases n,
{
    if n > 0 {
        lemma_unsubscribes_can_be_done(workers, symbol, (n - 1) as nat);
        let before = unsubscribes(workers, symbol, (n - 1) as nat);
        let all = unsubscribes(workers, symbol, n);
        assert forall|i: int| 0 <= i < all.len() implies can_be_done(#[trigger] all[i], n)
            && all[i] is Send by {
            if i < before.len() {
                assert(all[i] == before[i]);
                assert(can_be_done(before[i], (n - 1) as nat));
            }
        }
    }
}

/// The records of a list that a worker is given lie in the memory.
proof fn lemma_payload_fits(placements: Seq<Placement>, w: int)
    requires
        forall|i: int| 0 <= i < placements.len() ==> (#[trigger] placements[i]).slot < MAX_COINS,
    ensures
        all_fit(payload(placements, w)),
    decreases placements.len(),
{
    if placements.len() > 0 {
        let before = placements.drop_last();
        assert(forall|i: int| 0 <= i < before.len() ==> before[i] == placements[i]);
        lemma_payload_fits(before, w);
        assert(placements[placements.len() - 1].slot < MAX_COINS);
        let list = payload(placements, w);
        assert forall|i: int| 0 <= i < list.len() implies record_fits(
            (#[trigger] list[i]).1 as int,
        ) by {
            if i < payload(before, w).len() {
                assert(list[i] == payload(before, w)[i]);
            }
        }
    }
}

/// Commands to follow symbols can be carried out.
pub proof fn lemma_subscribes_can_be_done(placements: Seq<Placement>, n: nat)
    requires
        forall|i: int| 0 <= i < placements.len() ==> (#[trigger] placements[i]).slot < MAX_COINS,
    ensures
        all_can_be_done(subscribes(placements, n), n),
        forall|i: int|
            0 <= i < subscribes(placements, n).len() ==> (#[trigger] subscribes(
                placements,
                n,
            )[i]) is Send,
    decreases n,
{
    if n > 0 {
        lemma_subscribes_can_be_done(placements, (n - 1) as nat);
        lemma_payload_fits(placements, n - 1);
        let before = subscribes(placements, (n - 1) as nat);
        let all = subscribes(placements, n);
        assert forall|i: int| 0 <= i < all.len() implies can_be_done(#[trigger] all[i], n)
            && all[i] is Send by {
            if i < before.len() {
                assert(all[i] == before[i]);
                assert(can_be_done(before[i], (n - 1) as nat));
            }
        }
    }
}

/// What is done when symbols are taken off the list can be carried out.
proof fn lemma_without_all_can_be_done(s: Slots, gone: Seq<Seq<char>>)
    requires
        s.wf(),
    ensures
        all_can_be_done(s.without_all_actions(gone), s.workers.len()),
    decreases gone.len(),
{
    if gone.len() > 0 {
        let before = gone.drop_last();
        lemma_without_all_can_be_done(s, before);
        law_without_all_keeps_wf(s, before);
        let t = s.without_all(before);
        lemma_unsubscribes_can_be_done(t.workers, gone.last(), t.workers.len());
        if t.index.contains_key(gone.last()) {
            assert(t.handed_out(t.index[gone.last()]));
        }
    }
}

/// Whatever a new list brings about can be carried out: no store leaves the memory, no command
/// goes to a worker that there is not, and every record that a worker is given lies in the
/// memory.
pub proof fn law_actions_can_be_done(s: Slots, latest: Seq<Seq<char>>, gone: Seq<Seq<char>>)
    requires
        s.wf(),
    ensures
        all_can_be_done(refresh_actions(s, latest, gone), s.workers.len()),
{
    let t = s.without_all(gone);
    let added = newcomers(s, latest);
    lemma_without_all_can_be_done(s, gone);
    law_without_all_keeps_wf(s, gone);
    lemma_placed_slots(t, added);
    lemma_subscribes_can_be_done(t.placements(added), t.workers.len());
}

/// A symbol's record bears its name before any worker is told to follow the symbol: of what is
/// done when symbols are put on the list, no store comes after a command.
pub proof fn law_named_before_followed(s: Slots, added: Seq<Seq<char>>, i: int, j: int)
    requires
        s.wf(),
        0 <= i < j < s.with_all_actions(added).len(),
        s.with_all_actions(added)[i] is Send,
    ensures
        s.with_all_actions(added)[j] is Send,
{
    lemma_placed_slots(s, added);
    lemma_subscribes_can_be_done(s.placements(added), s.workers.len());
    let placed = s.placements(added);
    assert(s.with_all_actions(added)[i] is Send ==> i >= naming(placed).len());
    assert(s.with_all_actions(added)[j] == subscribes(placed, s.workers.len())[j
        - naming(placed).len()]);
}

/// The memory after the stores among a list of actions.
pub open spec fn memory_after(
    mem: Seq<u8>,
    actions: Seq<OrchActionView>,
    layout: spec_fn(u64) -> Seq<u8>,
) -> Seq<u8>
    decreases actions.len(),
{
    if actions.len() == 0 {
        mem
    } else {
        let before = memory_after(mem, actions.drop_last(), layout);
        match actions.last() {
            OrchActionView::Store(store) => after_store(before, store, layout),
            OrchActionView::Send { worker, cmd } => before,
        }
    }
}

/// The bytes of the symbol of record number `slot`.
pub open spec fn symbol_bytes(mem: Seq<u8>, slot: int) -> Seq<u8> {
    mem.subrange(
        slot * RECORD_SIZE + SYMBOL_AT,
        slot * RECORD_SIZE + SYMBOL_AT + SYMBOL_WIDTH,
    )
}

/// Whether every record in use bears the name of its symbol.
pub open spec fn names_hold(s: Slots, mem: Seq<u8>) -> bool {
    &&& mem.len() == SHM_SIZE
    &&& forall|symbol: Seq<char>| #[trigger]
        s.index.contains_key(symbol) ==> symbol_bytes(mem, s.index[symbol] as int) == field(
            encode_utf8(symbol),
            SYMBOL_WIDTH as nat,
        )
}

/// One list of actions after another.
pub proof fn lemma_memory_concat(
    mem: Seq<u8>,
    a: Seq<OrchActionView>,
    b: Seq<OrchActionView>,
    layout: spec_fn(u64) -> Seq<u8>,
)
    ensures
        memory_after(mem, a + b, layout) == memory_after(memory_after(mem, a, layout), b, layout),
    decreases b.len(),
{
    if b.len() == 0 {
        assert(a + b =~= a);
    } else {
        lemma_memory_concat(mem, a, b.drop_last(), layout);
        assert((a + b).drop_last() =~= a + b.drop_last());
        assert((a + b).last() == b.last());
    }
}

/// Commands do not change the memory.
pub proof fn lemma_memory_sends(
    mem: Seq<u8>,
    actions: Seq<OrchActionView>,
    layout: spec_fn(u64) -> Seq<u8>,
)
    requires
        forall|i: int| 0 <= i < actions.len() ==> (#[trigger] actions[i]) is Send,
    ensures
        memory_after(mem, actions, layout) == mem,
    decreases actions.len(),
{
    if actions.len() > 0 {
        assert(actions.last() is Send);
        assert(forall|i: int|
            0 <= i < actions.drop_last().len() ==> actions.drop_last()[i] == actions[i]);
        lemma_memory_sends(mem, actions.drop_last(), layout);
    }
}

/// Taking symbols off the list leaves the names of the others.
proof fn lemma_names_without_all(
    s: Slots,
    gone: Seq<Seq<char>>,
    mem: Seq<u8>,
    layout: spec_fn(u64) -> Seq<u8>,
)
    requires
        s.wf(),
        names_hold(s, mem),
    ensures
        names_hold(s.without_all(gone), memory_after(mem, s.without_all_actions(gone), layout)),
    decreases gone.len(),
{
    if gone.len() > 0 {
        let before = gone.drop_last();
        let symbol = gone.last();
        lemma_names_without_all(s, before, mem, layout);
        law_without_all_keeps_wf(s, before);
        let t = s.without_all(before);
        let m = memory_after(mem, s.without_all_actions(before), layout);
        lemma_memory_concat(mem, s.without_all_actions(before), t.without_actions(symbol), layout);
        let drops = unsubscribes(t.workers, symbol, t.workers.len());
        lemma_unsubscribes_can_be_done(t.workers, symbol, t.workers.len());
        if t.index.contains_key(symbol) {
            let slot = t.index[symbol];
            assert(t.handed_out(slot));
            let cleared = seq![OrchActionView::Store(clear_store_of(slot as int))];
            let after = after_store(m, clear_store_of(slot as int), layout);
            lemma_memory_concat(m, cleared, drops, layout);
            assert(cleared.drop_last() =~= Seq::empty());
            assert(memory_after(m, cleared.drop_last(), layout) == m);
            assert(memory_after(m, cleared, layout) == after);
            lemma_memory_sends(after, drops, layout);
            law_clear_lands(m, slot as int, layout);
            let r = t.without(symbol);
            assert forall|x: Seq<char>| #[trigger] r.index.contains_key(x) implies symbol_bytes(
                after,
                r.index[x] as int,
            ) == field(encode_utf8(x), SYMBOL_WIDTH as nat) by {
                assert(t.index.contains_key(x));
                assert(t.handed_out(t.index[x]));
                assert(t.index[x] != slot);
                assert(symbol_bytes(after, r.index[x] as int) =~= symbol_bytes(m, t.index[x] as int));
            }
        } else {
            assert(t.without_actions(symbol) =~= drops);
            lemma_memory_sends(m, drops, layout);
        }
    }
}

/// Naming the records that are handed out leaves the names of the others.
proof fn lemma_names_with_all(
    s: Slots,
    added: Seq<Seq<char>>,
    mem: Seq<u8>,
    layout: spec_fn(u64) -> Seq<u8>,
)
    requires
        s.wf(),
        names_hold(s, mem),
    ensures
        names_hold(s.with_all(added), memory_after(mem, naming(s.placements(added)), layout)),
    decreases added.len(),
{
    if added.len() > 0 {
        let before = added.drop_last();
        let symbol = added.last();
        lemma_names_with_all(s, before, mem, layout);
        law_with_all_keeps_wf(s, before);
        law_with_all_keeps_wf(s, added);
        let t = s.with_all(before);
        let r = s.with_all(added);
        let placed = s.placements(before);
        let m = memory_after(mem, naming(placed), layout);
        match t.placement(symbol) {
            None => {},
            Some(p) => {
                let all = s.placements(added);
                assert(all =~= placed.push(p));
                assert(naming(all).drop_last() =~= naming(placed));
                let store = symbol_store_of(p.slot as int, encode_utf8(symbol));
                assert(naming(all).last() == OrchActionView::Store(store));
                let after = after_store(m, store, layout);
                assert(memory_after(mem, naming(all), layout) == after);
                law_symbol_lands(m, p.slot as int, encode_utf8(symbol), layout);
                assert(r.index.contains_key(symbol));
                assert forall|x: Seq<char>| #[trigger] r.index.contains_key(x) implies symbol_bytes(
                    after,
                    r.index[x] as int,
                ) == field(encode_utf8(x), SYMBOL_WIDTH as nat) by {
                    assert(r.handed_out(r.index[x]));
                    if x != symbol {
                        assert(t.index.contains_key(x));
                        assert(r.index[x] != r.index[symbol]);
                        assert(symbol_bytes(after, r.index[x] as int) =~= symbol_bytes(
                            m,
                            t.index[x] as int,
                        ));
                    }
                }
            },
        }
    }
}

/// Every record in use bears the name of its symbol, whatever lists are taken in: if it was so
/// before, it is so after the stores of a new list.
pub proof fn law_records_bear_their_names(
    s: Slots,
    latest: Seq<Seq<char>>,
    gone: Seq<Seq<char>>,
    mem: Seq<u8>,
    layout: spec_fn(u64) -> Seq<u8>,
)
    requires
        s.wf(),
        names_hold(s, mem),
    ensures
        names_hold(
            refreshed(s, latest, gone),
            memory_after(mem, refresh_actions(s, latest, gone), layout),
        ),
{
    let t = s.without_all(gone);
    let added = newcomers(s, latest);
    law_without_all_keeps_wf(s, gone);
    lemma_names_without_all(s, gone, mem, layout);
    let m = memory_after(mem, s.without_all_actions(gone), layout);
    lemma_names_with_all(t, added, m, layout);
    let placed = t.placements(added);
    let subs = subscribes(placed, t.workers.len());
    lemma_memory_concat(mem, s.without_all_actions(gone), t.with_all_actions(added), layout);
    lemma_memory_concat(m, naming(placed), subs, layout);
    lemma_placed_slots(t, added);
    lemma_subscribes_can_be_done(placed, t.workers.len());
    lemma_memory_sends(memory_after(m, naming(placed), layout), subs, layout);
}

/// Quotes leave the names of the records as they are.
pub proof fn law_quotes_keep_names(
    s: Slots,
    mem: Seq<u8>,
    slot: int,
    seq: u64,
    quote: QuoteBytes,
    ts: u64,
    layout: spec_fn(u64) -> Seq<u8>,
)
    requires
        s.wf(),
        names_hold(s, mem),
        0 <= slot < MAX_COINS,
        seq <= u64::MAX - 2,
        is_word_layout(layout),
    ensures
        names_hold(s, after_stores(mem, quote_stores(slot * RECORD_SIZE, seq, quote, ts), layout)),
{
    law_update_lands(mem, slot * RECORD_SIZE, seq, quote, ts, layout);
    let after = after_stores(mem, quote_stores(slot * RECORD_SIZE, seq, quote, ts), layout);
    assert forall|x: Seq<char>| #[trigger] s.index.contains_key(x) implies symbol_bytes(
        after,
        s.index[x] as int,
    ) == field(encode_utf8(x), SYMBOL_WIDTH as nat) by {
        assert(s.handed_out(s.index[x]));
        assert(symbol_bytes(after, s.index[x] as int) =~= symbol_bytes(mem, s.index[x] as int));
    }
}

} // verus!
