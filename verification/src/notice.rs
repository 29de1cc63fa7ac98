//! Whom a new list of the exchange concerns: which commands name a symbol, and which stores touch
//! its record.
use vstd::prelude::*;
use vstd::utf8::encode_utf8;

use crate::command::WorkerCmdView;
use crate::config::RECORD_SIZE;
use crate::listing::{
    law_followed_is_wanted, lemma_newcomers, lemma_with_all_leaves, lemma_without_all,
    one_worker_each,
};
use crate::orchestrator::{are_gone, newcomers, refresh_actions, refreshed};
use crate::pool::symbols_of;
use crate::record::{clear_store_of, symbol_store_of, StoreView};
use crate::slots::{
    law_with_all_keeps_wf, law_without_all_keeps_wf, naming, payload, subscribes, unsubscribes,
    OrchActionView, Placement, Slots,
};

verus! {

/// Whether an action is a command that names `symbol`.
pub open spec fn names(action: OrchActionView, symbol: Seq<char>) -> bool {
    match action {
        OrchActionView::Send { worker, cmd } => match cmd {
            WorkerCmdView::Subscribe(list) => symbols_of(list).contains(symbol),
            WorkerCmdView::Unsubscribe(list) => list.contains(symbol),
            WorkerCmdView::PlannedReconnect => false,
        },
        OrchActionView::Store(_) => false,
    }
}

/// Whether an action is a store to some byte of record number `slot`.
pub open spec fn touches(action: OrchActionView, slot: int) -> bool {
    let start = slot * RECORD_SIZE;
    match action {
        OrchActionView::Send { .. } => false,
        OrchActionView::Store(StoreView::Sequence { at, .. }) => at < start + RECORD_SIZE && start
            < at + 8,
        OrchActionView::Store(StoreView::Word { at, .. }) => at < start + RECORD_SIZE && start < at
            + 8,
        OrchActionView::Store(StoreView::Bytes { at, bytes }) => at < start + RECORD_SIZE && start
            < at + bytes.len(),
        OrchActionView::Store(StoreView::Fence) => false,
    }
}

/// Whether an action is one that takes a symbol of `gone` off the list: its record is blanked,
/// or a worker that follows it is told to drop it.
pub open spec fn takes_off(s: Slots, gone: Seq<Seq<char>>, action: OrchActionView) -> bool {
    match action {
        OrchActionView::Store(store) => exists|x: Seq<char>| #[trigger]
            gone.contains(x) && s.index.contains_key(x) && store == clear_store_of(
                s.index[x] as int,
            ),
        OrchActionView::Send { worker, cmd } => exists|x: Seq<char>| #[trigger]
            gone.contains(x) && s.follows(worker, x) && cmd == WorkerCmdView::Unsubscribe(seq![x]),
    }
}

/// Every command to drop a symbol goes to a worker that follows it.
proof fn lemma_unsubscribes(workers: Seq<Map<Seq<char>, usize>>, symbol: Seq<char>, n: nat, i: int)
    requires
        n <= workers.len(),
        0 <= i < unsubscribes(workers, symbol, n).len(),
    ensures
        unsubscribes(workers, symbol, n)[i] matches OrchActionView::Send { worker, cmd } && 0
            <= worker < n && workers[worker].contains_key(symbol) && cmd
            == WorkerCmdView::Unsubscribe(seq![symbol]),
    decreases n,
{
    if n > 0 {
        let before = unsubscribes(workers, symbol, (n - 1) as nat);
        if i < before.len() {
            lemma_unsubscribes(workers, symbol, (n - 1) as nat, i);
            assert(unsubscribes(workers, symbol, n)[i] == before[i]);
        }
    }
}

/// Of what is done when symbols are taken off the list, everything is about one of them.
proof fn lemma_takes_off(s: Slots, gone: Seq<Seq<char>>, i: int)
    requires
        s.wf(),
        0 <= i < s.without_all_actions(gone).len(),
    ensures
        takes_off(s, gone, s.without_all_actions(gone)[i]),
    decreases gone.len(),
{
    if gone.len() > 0 {
        let before = gone.drop_last();
        let symbol = gone.last();
        let first = s.without_all_actions(before);
        let t = s.without_all(before);
        law_without_all_keeps_wf(s, before);
        lemma_without_all(s, before);
        let action = s.without_all_actions(gone)[i];
        assert(gone.contains(symbol)) by {
            assert(gone[gone.len() - 1] == symbol);
        }
        if i < first.len() {
            lemma_takes_off(s, before, i);
            assert(action == first[i]);
            assert forall|x: Seq<char>| #[trigger] before.contains(x) implies gone.contains(x) by {
                let j = choose|j: int| 0 <= j < before.len() && before[j] == x;
                assert(gone[j] == x);
            }
        } else {
            let last = t.without_actions(symbol);
            let drops = unsubscribes(t.workers, symbol, t.workers.len());
            assert(action == last[i - first.len()]);
            if t.index.contains_key(symbol) {
                if i > first.len() {
                    lemma_unsubscribes(t.workers, symbol, t.workers.len(), i - first.len() - 1);
                    assert(action == drops[i - first.len() - 1]);
                    assert(t.follows(action->worker, symbol));
                }
            } else {
                lemma_unsubscribes(t.workers, symbol, t.workers.len(), i - first.len());
                assert(action == drops[i - first.len()]);
                assert(t.follows(action->worker, symbol));
            }
        }
    }
}

/// What is handed out goes to a symbol of the list, and is a record that nobody has.
proof fn lemma_placed(s: Slots, added: Seq<Seq<char>>, i: int)
    requires
        s.wf(),
        0 <= i < s.placements(added).len(),
    ensures
        added.contains(s.placements(added)[i].symbol),
        forall|w: int, x: Seq<char>| #[trigger]
            s.follows(w, x) && !added.contains(x) ==> s.workers[w][x] != s.placements(added)[i].slot,
    decreases added.len(),
{
    if added.len() > 0 {
        let before = added.drop_last();
        let placed = s.placements(before);
        let p = s.placements(added)[i];
        assert(added.contains(added.last())) by {
            assert(added[added.len() - 1] == added.last());
        }
        assert forall|x: Seq<char>| #[trigger] before.contains(x) implies added.contains(x) by {
            let j = choose|j: int| 0 <= j < before.len() && before[j] == x;
            assert(added[j] == x);
        }
        if i < placed.len() {
            lemma_placed(s, before, i);
            assert(p == placed[i]);
        } else {
            law_with_all_keeps_wf(s, before);
            let t = s.with_all(before);
            assert(Some(p) == t.placement(added.last()));
            assert forall|w: int, x: Seq<char>| #[trigger]
                s.follows(w, x) && !added.contains(x) implies s.workers[w][x] != p.slot by {
                lemma_with_all_leaves(s, before, x);
                assert(t.follows(w, x));
                assert(t.handed_out(t.workers[w][x]));
                if t.free.len() > 0 {
                    assert(t.free[t.free.len() - 1] != t.workers[w][x]);
                }
            }
        }
    }
}

/// What a worker is given was placed.
proof fn lemma_payload(placements: Seq<Placement>, w: int, x: Seq<char>)
    requires
        symbols_of(payload(placements, w)).contains(x),
    ensures
        exists|i: int| 0 <= i < placements.len() && (#[trigger] placements[i]).symbol == x,
    decreases placements.len(),
{
    let list = payload(placements, w);
    let k = choose|k: int| 0 <= k < list.len() && symbols_of(list)[k] == x;
    assert(list[k].0 == x);
    if placements.len() > 0 {
        let before = placements.drop_last();
        let rest = payload(before, w);
        if k < rest.len() {
            assert(rest[k] == list[k]);
            assert(symbols_of(rest)[k] == x);
            lemma_payload(before, w, x);
            let i = choose|i: int| 0 <= i < before.len() && (#[trigger] before[i]).symbol == x;
            assert(placements[i].symbol == x);
        } else {
            assert(placements[placements.len() - 1].symbol == x);
        }
    }
}

/// Commands to follow symbols name symbols that were placed.
proof fn lemma_subscribes(placements: Seq<Placement>, n: nat, i: int)
    requires
        0 <= i < subscribes(placements, n).len(),
    ensures
        subscribes(placements, n)[i] matches OrchActionView::Send { worker, cmd } && cmd
            == WorkerCmdView::Subscribe(payload(placements, worker)),
    decreases n,
{
    if n > 0 {
        let before = subscribes(placements, (n - 1) as nat);
        if i < before.len() {
            lemma_subscribes(placements, (n - 1) as nat, i);
            assert(subscribes(placements, n)[i] == before[i]);
        }
    }
}

/// Of what is done when symbols are put on the list, no command names another symbol, and no
/// store touches a record that another symbol has.
proof fn lemma_puts_on(s: Slots, added: Seq<Seq<char>>, i: int, x: Seq<char>)
    requires
        s.wf(),
        0 <= i < s.with_all_actions(added).len(),
        !added.contains(x),
    ensures
        !names(s.with_all_actions(added)[i], x),
        forall|w: int| #[trigger]
            s.follows(w, x) ==> !touches(s.with_all_actions(added)[i], s.workers[w][x] as int),
{
    let placed = s.placements(added);
    let action = s.with_all_actions(added)[i];
    let first = naming(placed);
    if i < first.len() {
        lemma_placed(s, added, i);
        assert(action == first[i]);
    } else {
        let k = i - first.len();
        lemma_subscribes(placed, s.workers.len(), k);
        assert(action == subscribes(placed, s.workers.len())[k]);
        if names(action, x) {
            lemma_payload(placed, action->worker, x);
            let j = choose|j: int| 0 <= j < placed.len() && (#[trigger] placed[j]).symbol == x;
            lemma_placed(s, added, j);
        }
    }
}

/// A symbol that stays on the list is left in peace: no command names it, and no store touches
/// a record at which it is followed.
pub proof fn law_staying_symbol_is_in_no_action(
    s: Slots,
    latest: Seq<Seq<char>>,
    gone: Seq<Seq<char>>,
    symbol: Seq<char>,
    w: int,
    i: int,
)
    requires
        s.wf(),
        are_gone(s, latest, gone),
        latest.contains(symbol),
        s.follows(w, symbol),
        0 <= i < refresh_actions(s, latest, gone).len(),
    ensures
        !names(refresh_actions(s, latest, gone)[i], symbol),
        !touches(refresh_actions(s, latest, gone)[i], s.workers[w][symbol] as int),
{
    let off = s.without_all_actions(gone);
    let t = s.without_all(gone);
    let added = newcomers(s, latest);
    let action = refresh_actions(s, latest, gone)[i];
    assert(!gone.contains(symbol));
    if i < off.len() {
        lemma_takes_off(s, gone, i);
        assert(action == off[i]);
        match action {
            OrchActionView::Store(store) => {
                let x = choose|x: Seq<char>| #[trigger]
                    gone.contains(x) && s.index.contains_key(x) && store == clear_store_of(
                        s.index[x] as int,
                    );
                let home = choose|h: int|
                    #![trigger s.follows(h, x)]
                    s.follows(h, x) && s.workers[h][x] == s.index[x];
                assert(s.follows(home, x) && s.follows(w, symbol));
                assert(s.workers[home][x] != s.workers[w][symbol]);
            },
            OrchActionView::Send { worker, cmd } => {
                let x = choose|x: Seq<char>| #[trigger]
                    gone.contains(x) && s.follows(worker, x) && cmd == WorkerCmdView::Unsubscribe(
                        seq![x],
                    );
                assert(seq![x].contains(symbol) ==> x == symbol);
            },
        }
    } else {
        law_without_all_keeps_wf(s, gone);
        lemma_without_all(s, gone);
        lemma_newcomers(s, latest, symbol);
        assert(action == t.with_all_actions(added)[i - off.len()]);
        assert(s.index.contains_key(symbol));
        assert(t.follows(w, symbol));
        lemma_puts_on(t, added, i - off.len(), symbol);
    }
}

/// Where one worker follows a symbol, one command tells it to drop the symbol.
proof fn lemma_one_unsubscribe(
    workers: Seq<Map<Seq<char>, usize>>,
    symbol: Seq<char>,
    n: nat,
    w: int,
)
    requires
        n <= workers.len(),
        0 <= w < workers.len(),
        workers[w].contains_key(symbol),
        forall|x: int|
            0 <= x < workers.len() && (#[trigger] workers[x]).contains_key(symbol) ==> x == w,
    ensures
        unsubscribes(workers, symbol, n) == (if w < n {
            seq![
                OrchActionView::Send { worker: w, cmd: WorkerCmdView::Unsubscribe(seq![symbol]) },
            ]
        } else {
            Seq::empty()
        }),
    decreases n,
{
    if n > 0 {
        lemma_one_unsubscribe(workers, symbol, (n - 1) as nat, w);
        assert(workers[n - 1].contains_key(symbol) ==> n - 1 == w);
    }
}

/// Whether exactly one command of a list names `symbol`: it is number `i`, and tells worker `w`
/// to drop the symbol.
pub open spec fn dropped_once(
    actions: Seq<OrchActionView>,
    symbol: Seq<char>,
    w: int,
    i: int,
) -> bool {
    &&& 0 <= i < actions.len()
    &&& actions[i] == (OrchActionView::Send {
        worker: w,
        cmd: WorkerCmdView::Unsubscribe(seq![symbol]),
    })
    &&& forall|j: int| 0 <= j < actions.len() && names(#[trigger] actions[j], symbol) ==> j == i
}

/// Whether action number `k` of a list blanks record number `slot`.
pub open spec fn blanked_at(actions: Seq<OrchActionView>, slot: int, k: int) -> bool {
    0 <= k < actions.len() && actions[k] == OrchActionView::Store(clear_store_of(slot))
}

/// What is done when symbols are taken off the list, for one of them.
proof fn lemma_dropped_once(s: Slots, gone: Seq<Seq<char>>, symbol: Seq<char>, w: int)
    requires
        s.wf(),
        one_worker_each(s),
        gone.no_duplicates(),
        gone.contains(symbol),
        s.index.contains_key(symbol),
        s.follows(w, symbol),
    ensures
        exists|i: int| #[trigger] dropped_once(s.without_all_actions(gone), symbol, w, i),
        exists|k: int| #[trigger]
            blanked_at(s.without_all_actions(gone), s.index[symbol] as int, k),
    decreases gone.len(),
{
    let all = s.without_all_actions(gone);
    if gone.len() > 0 {
        let before = gone.drop_last();
        let last = gone.last();
        let first = s.without_all_actions(before);
        let t = s.without_all(before);
        let rest = t.without_actions(last);
        law_without_all_keeps_wf(s, before);
        lemma_without_all(s, before);
        assert(all == first + rest);
        assert(forall|j: int| 0 <= j < before.len() ==> before[j] == gone[j]);
        if last == symbol {
            assert(!before.contains(symbol)) by {
                if before.contains(symbol) {
                    let j = choose|j: int| 0 <= j < before.len() && before[j] == symbol;
                    assert(gone[j] == gone[gone.len() - 1]);
                }
            }
            assert(t.follows(w, symbol));
            assert forall|x: int|
                0 <= x < t.workers.len() && (#[trigger] t.workers[x]).contains_key(
                    symbol,
                ) implies x == w by {
                assert(t.follows(x, symbol));
                assert(s.follows(x, symbol));
            }
            lemma_one_unsubscribe(t.workers, symbol, t.workers.len(), w);
            let n = first.len() as int;
            assert(rest.len() == 2);
            assert(all[n] == rest[0] && all[n + 1] == rest[1]);
            assert forall|j: int| 0 <= j < all.len() && names(
                #[trigger] all[j],
                symbol,
            ) implies j == n + 1 by {
                if j < n {
                    assert(all[j] == first[j]);
                    lemma_takes_off(s, before, j);
                    lemma_names_a_gone_one(s, before, first[j], symbol);
                }
            }
            assert(seq![symbol][0] == symbol);
            assert(dropped_once(all, symbol, w, n + 1));
            assert(blanked_at(all, s.index[symbol] as int, n));
        } else {
            assert(before.contains(symbol)) by {
                let j = choose|j: int| 0 <= j < gone.len() && gone[j] == symbol;
                assert(before[j] == symbol);
            }
            lemma_dropped_once(s, before, symbol, w);
            let i = choose|i: int| #[trigger] dropped_once(first, symbol, w, i);
            let k = choose|k: int| #[trigger] blanked_at(first, s.index[symbol] as int, k);
            assert(all[i] == first[i] && all[k] == first[k]);
            assert forall|j: int| 0 <= j < all.len() && names(
                #[trigger] all[j],
                symbol,
            ) implies j == i by {
                if j < first.len() {
                    assert(all[j] == first[j]);
                } else {
                    let m = j - first.len();
                    let drops = unsubscribes(t.workers, last, t.workers.len());
                    let shift = rest.len() - drops.len();
                    assert(all[j] == rest[m]);
                    assert(m >= shift);
                    assert(rest[m] == drops[m - shift]);
                    lemma_unsubscribes(t.workers, last, t.workers.len(), m - shift);
                    assert(seq![last].contains(symbol) ==> last == symbol);
                }
            }
            assert(dropped_once(all, symbol, w, i));
            assert(blanked_at(all, s.index[symbol] as int, k));
        }
    }
}

/// An action that takes symbols off the list names only symbols that go.
proof fn lemma_names_a_gone_one(
    s: Slots,
    gone: Seq<Seq<char>>,
    action: OrchActionView,
    symbol: Seq<char>,
)
    requires
        takes_off(s, gone, action),
        names(action, symbol),
    ensures
        gone.contains(symbol),
{
    if let OrchActionView::Send { worker, cmd } = action {
        let x = choose|x: Seq<char>| #[trigger]
            gone.contains(x) && s.follows(worker, x) && cmd == WorkerCmdView::Unsubscribe(seq![x]);
        assert(seq![x].contains(symbol) ==> x == symbol);
    }
}

/// A symbol that goes is dropped once: of all that a list brings about, one command names it,
/// which tells the worker that follows it, and nobody else, to drop it. Its record is blanked,
/// before any record gets a new name, and afterwards no worker follows it, so that it counts for
/// nobody's load.
pub proof fn law_gone_symbol_is_dropped_once(
    s: Slots,
    latest: Seq<Seq<char>>,
    gone: Seq<Seq<char>>,
    symbol: Seq<char>,
    w: int,
)
    requires
        s.wf(),
        one_worker_each(s),
        are_gone(s, latest, gone),
        s.follows(w, symbol),
        !latest.contains(symbol),
    ensures
        exists|i: int| #[trigger] dropped_once(refresh_actions(s, latest, gone), symbol, w, i),
        exists|k: int|
            {
                &&& #[trigger] blanked_at(
                    refresh_actions(s, latest, gone),
                    s.workers[w][symbol] as int,
                    k,
                )
                &&& forall|j: int, slot: int, name: Seq<char>|
                    0 <= j < refresh_actions(s, latest, gone).len() && #[trigger] refresh_actions(
                        s,
                        latest,
                        gone,
                    )[j] == OrchActionView::Store(
                        #[trigger] symbol_store_of(slot, encode_utf8(name)),
                    ) ==> k < j
            },
        !refreshed(s, latest, gone).index.contains_key(symbol),
        forall|x: int| !(#[trigger] refreshed(s, latest, gone).follows(x, symbol)),
{
    let all = refresh_actions(s, latest, gone);
    let off = s.without_all_actions(gone);
    let t = s.without_all(gone);
    let added = newcomers(s, latest);
    law_without_all_keeps_wf(s, gone);
    law_with_all_keeps_wf(t, added);
    assert(s.index.contains_key(symbol));
    let home = choose|h: int|
        #![trigger s.follows(h, symbol)]
        s.follows(h, symbol) && s.workers[h][symbol] == s.index[symbol];
    assert(s.follows(home, symbol) && home == w);
    assert(gone.contains(symbol));
    lemma_dropped_once(s, gone, symbol, w);
    lemma_newcomers(s, latest, symbol);
    let i = choose|i: int| #[trigger] dropped_once(off, symbol, w, i);
    let k = choose|k: int| #[trigger] blanked_at(off, s.index[symbol] as int, k);
    assert(all[i] == off[i] && all[k] == off[k]);
    assert forall|j: int| 0 <= j < all.len() && names(#[trigger] all[j], symbol) implies j == i by {
        if j < off.len() {
            assert(all[j] == off[j]);
        } else {
            assert(all[j] == t.with_all_actions(added)[j - off.len()]);
            lemma_puts_on(t, added, j - off.len(), symbol);
        }
    }
    assert(dropped_once(all, symbol, w, i));
    assert(blanked_at(all, s.workers[w][symbol] as int, k));
    assert forall|j: int, slot: int, name: Seq<char>|
        0 <= j < all.len() && #[trigger] all[j] == OrchActionView::Store(
            #[trigger] symbol_store_of(slot, encode_utf8(name)),
        ) implies k < j by {
        if j < off.len() {
            lemma_takes_off(s, gone, j);
            assert(all[j] == off[j]);
            let x = choose|x: Seq<char>| #[trigger]
                gone.contains(x) && s.index.contains_key(x) && symbol_store_of(
                    slot,
                    encode_utf8(name),
                ) == clear_store_of(s.index[x] as int);
            assert(clear_store_of(s.index[x] as int)->bytes.len() == RECORD_SIZE);
            assert(symbol_store_of(slot, encode_utf8(name))->bytes.len() < RECORD_SIZE);
        }
    }
    let r = refreshed(s, latest, gone);
    if r.index.contains_key(symbol) {
        law_followed_is_wanted(s, latest, gone, symbol);
    }
    assert forall|x: int| !(#[trigger] r.follows(x, symbol)) by {
        if r.follows(x, symbol) {
            assert(r.index.contains_key(symbol));
        }
    }
}

} // verus!
