//! The orchestrator of one market: it holds the exchange's list of symbols against what is
//! followed, hands out records and workers, and takes them back.
use rustc_hash::FxHashMap;
use vstd::hash_set::StringHashSet;
use vstd::prelude::*;
use vstd::utf8::encode_utf8;

use crate::command::{placed_texts, WorkerCmd, WorkerCmdView};
use crate::config::{MAX_COINS, RECORD_SIZE};
use crate::fx_map::{entries, fx_get, fx_insert, fx_keys, fx_len, fx_new, fx_remove};
use crate::record::{clear_store, symbol_store, symbol_store_of, Store};
use crate::slots::{
    law_fresh_is_wf, law_least_loaded, law_with_all_keeps_wf, law_without_all_keeps_wf,
    least_loaded, naming, payload, subscribes, unsubscribes, OrchActionView, Slots,
};
use crate::text::{ends_in, has_suffix, lemma_push_contains, list_holds, same_text, texts};

verus! {

/// A symbol of the exchange's list.
#[derive(Debug)]
pub struct SymbolInfo {
    pub symbol: String,
    pub status: String,
}

/// What a `SymbolInfo` says.
pub struct SymbolInfoView {
    pub symbol: Seq<char>,
    pub status: Seq<char>,
}

impl View for SymbolInfo {
    type V = SymbolInfoView;

    open spec fn view(&self) -> SymbolInfoView {
        SymbolInfoView { symbol: self.symbol@, status: self.status@ }
    }
}

/// What a list of symbols says.
pub open spec fn infos_view(infos: Seq<SymbolInfo>) -> Seq<SymbolInfoView> {
    Seq::new(infos.len(), |i: int| infos[i]@)
}

/// Whether a symbol is one to follow: it is traded or about to be, it is quoted in one of the
/// two dollar coins, and it is not reserved.
pub open spec fn is_wanted(reserved: Seq<Seq<char>>, info: SymbolInfoView) -> bool {
    &&& !reserved.contains(info.symbol)
    &&& info.status == "TRADING"@ || info.status == "PRE_TRADING"@
    &&& has_suffix(info.symbol, "USDT"@) || has_suffix(info.symbol, "USDC"@)
}

/// The symbols of a list that are to be followed, in the list's order.
pub open spec fn wanted(reserved: Seq<Seq<char>>, infos: Seq<SymbolInfoView>) -> Seq<Seq<char>> {
    infos.filter(|info: SymbolInfoView| is_wanted(reserved, info)).map_values(
        |info: SymbolInfoView| info.symbol,
    )
}

/// The symbols of `latest` that have no record yet, in the order of `latest`.
pub open spec fn newcomers(s: Slots, latest: Seq<Seq<char>>) -> Seq<Seq<char>> {
    latest.filter(|symbol: Seq<char>| !s.index.contains_key(symbol))
}

/// Whether `gone` names, once each and in some order, the symbols that have a record and are
/// not in `latest`.
pub open spec fn are_gone(s: Slots, latest: Seq<Seq<char>>, gone: Seq<Seq<char>>) -> bool {
    &&& gone.no_duplicates()
    &&& forall|symbol: Seq<char>| #[trigger]
        gone.contains(symbol) <==> s.index.contains_key(symbol) && !latest.contains(symbol)
}

/// The bookkeeping after a new list was taken in, where `gone` was taken off first.
pub open spec fn refreshed(s: Slots, latest: Seq<Seq<char>>, gone: Seq<Seq<char>>) -> Slots {
    s.without_all(gone).with_all(newcomers(s, latest))
}

/// What is done when a new list is taken in, where `gone` is taken off first.
pub open spec fn refresh_actions(
    s: Slots,
    latest: Seq<Seq<char>>,
    gone: Seq<Seq<char>>,
) -> Seq<OrchActionView> {
    s.without_all_actions(gone) + s.without_all(gone).with_all_actions(newcomers(s, latest))
}

/// One thing for the orchestrator to do. Things are done in order.
#[derive(Debug)]
pub enum OrchAction {
    /// Carry out a store to the shared memory.
    Store(Store),
    /// Send a command to a worker.
    Send { worker: usize, cmd: WorkerCmd },
}

impl View for OrchAction {
    type V = OrchActionView;

    open spec fn view(&self) -> OrchActionView {
        match *self {
            OrchAction::Store(store) => OrchActionView::Store(store@),
            OrchAction::Send { worker, cmd } => OrchActionView::Send {
                worker: worker as int,
                cmd: cmd@,
            },
        }
    }
}

/// What a list of things to do says.
pub open spec fn actions_view(actions: Seq<OrchAction>) -> Seq<OrchActionView> {
    Seq::new(actions.len(), |i: int| actions[i]@)
}

/// Whether a symbol is one to follow.
fn wants(reserved: &Vec<String>, info: &SymbolInfo) -> (yes: bool)
    ensures
        yes == is_wanted(texts(reserved@), info@),
{
    if list_holds(reserved, &info.symbol) {
        return false;
    }
    (same_text(&info.status, "TRADING") || same_text(&info.status, "PRE_TRADING")) && (ends_in(
        info.symbol.as_str(),
        "USDT",
    ) || ends_in(info.symbol.as_str(), "USDC"))
}

/// The symbols of the exchange's list that are to be followed, in the list's order.
pub fn wanted_symbols(reserved: &Vec<String>, infos: &Vec<SymbolInfo>) -> (latest: Vec<String>)
    ensures
        texts(latest@) == wanted(texts(reserved@), infos_view(infos@)),
        latest@.len() <= infos@.len(),
{
    let mut latest: Vec<String> = Vec::new();
    let ghost all = infos_view(infos@);
    let mut i: usize = 0;
    assert(all.take(0) =~= Seq::empty());
    assert(texts(latest@) =~= wanted(texts(reserved@), all.take(0))) by {
        reveal(Seq::filter);
    }
    while i < infos.len()
        invariant
            i <= infos.len(),
            all == infos_view(infos@),
            latest@.len() <= i,
            texts(latest@) == wanted(texts(reserved@), all.take(i as int)),
        decreases infos.len() - i,
    {
        let ghost before = latest@;
        let take = wants(reserved, &infos[i]);
        if take {
            latest.push(infos[i].symbol.clone());
        }
        proof {
            reveal(Seq::filter);
            assert(all.take(i + 1).drop_last() =~= all.take(i as int));
            assert(all.take(i + 1).last() == infos@[i as int]@);
            let pick = |info: SymbolInfoView| is_wanted(texts(reserved@), info);
            let name = |info: SymbolInfoView| info.symbol;
            let kept = all.take(i as int).filter(pick);
            if take {
                assert(all.take(i + 1).filter(pick) == kept.push(infos@[i as int]@));
                assert(kept.push(infos@[i as int]@).map_values(name) =~= kept.map_values(name).push(
                    infos@[i as int].symbol@,
                ));
                assert(texts(latest@) =~= texts(before).push(infos@[i as int].symbol@));
            } else {
                assert(all.take(i + 1).filter(pick) == kept);
            }
        }
        i = i + 1;
    }
    assert(all.take(i as int) =~= all);
    latest
}

/// The bookkeeping of one market, and the rules by which it changes.
pub struct Orchestrator {
    reserved: Vec<String>,
    first: usize,
    symbol_to_index: FxHashMap<String, usize>,
    worker_symbols: Vec<FxHashMap<String, usize>>,
    free_indices: Vec<usize>,
    next_index: usize,
}

/// The entries of a list of maps.
pub open spec fn all_entries(maps: Seq<FxHashMap<String, usize>>) -> Seq<Map<Seq<char>, usize>> {
    Seq::new(maps.len(), |w: int| entries(maps[w]))
}

impl View for Orchestrator {
    type V = Slots;

    closed spec fn view(&self) -> Slots {
        Slots {
            reserved: texts(self.reserved@),
            first: self.first as int,
            index: entries(self.symbol_to_index),
            workers: all_entries(self.worker_symbols@),
            free: self.free_indices@,
            next: self.next_index as int,
        }
    }
}

impl Orchestrator {
    /// An orchestrator that has placed nothing. Records before `first` are not its own.
    pub fn new(reserved: Vec<String>, first: usize, num_workers: usize) -> (orchestrator: Self)
        requires
            0 < num_workers,
        ensures
            orchestrator@ == Slots::fresh(texts(reserved@), first as int, num_workers as nat),
            orchestrator@.wf(),
    {
        let mut worker_symbols: Vec<FxHashMap<String, usize>> = Vec::new();
        let mut w: usize = 0;
        while w < num_workers
            invariant
                w <= num_workers,
                worker_symbols@.len() == w,
                forall|j: int|
                    0 <= j < w ==> entries(#[trigger] worker_symbols@[j]) == (Map::<
                        Seq<char>,
                        usize,
                    >::empty()),
            decreases num_workers - w,
        {
            worker_symbols.push(fx_new());
            w = w + 1;
        }
        let orchestrator = Orchestrator {
            reserved,
            first,
            symbol_to_index: fx_new(),
            worker_symbols,
            free_indices: Vec::new(),
            next_index: first,
        };
        proof {
            assert(orchestrator@ =~= Slots::fresh(texts(reserved@), first as int, num_workers as nat));
            law_fresh_is_wf(texts(reserved@), first as int, num_workers as nat);
        }
        orchestrator
    }

    /// The record that comes next where none was given back.
    pub fn next_index(&self) -> (next: usize)
        ensures
            next == self@.next,
    {
        self.next_index
    }

    /// The symbols of `latest` that have no record yet, in the order of `latest`.
    fn newcomers_of(&self, latest: &Vec<String>) -> (added: Vec<String>)
        ensures
            texts(added@) == newcomers(self@, texts(latest@)),
            added@.len() <= latest@.len(),
    {
        let ghost s = self@;
        let ghost all = texts(latest@);
        let ghost is_new = |symbol: Seq<char>| !s.index.contains_key(symbol);
        let mut added: Vec<String> = Vec::new();
        let mut i: usize = 0;
        proof {
            reveal(Seq::filter);
            assert(all.take(0) =~= Seq::empty());
            assert(texts(added@) =~= all.take(0).filter(is_new));
        }
        while i < latest.len()
            invariant
                i <= latest.len(),
                s == self@,
                all == texts(latest@),
                is_new == (|symbol: Seq<char>| !s.index.contains_key(symbol)),
                added@.len() <= i,
                texts(added@) == all.take(i as int).filter(is_new),
            decreases latest.len() - i,
        {
            let ghost before = added@;
            let known = fx_get(&self.symbol_to_index, latest[i].as_str()).is_some();
            if !known {
                added.push(latest[i].clone());
            }
            proof {
                reveal(Seq::filter);
                assert(all.take(i + 1).drop_last() =~= all.take(i as int));
                assert(all.take(i + 1).last() == latest@[i as int]@);
                if !known {
                    assert(texts(added@) =~= texts(before).push(latest@[i as int]@));
                }
            }
            i = i + 1;
        }
        assert(all.take(i as int) =~= all);
        added
    }

    /// The symbols that have a record and are not in `latest`, in some order.
    fn gone_of(&self, latest: &Vec<String>) -> (gone: Vec<String>)
        ensures
            are_gone(self@, texts(latest@), texts(gone@)),
    {
        let ghost all = texts(latest@);
        let mut latest_set: StringHashSet = StringHashSet::new();
        let mut i: usize = 0;
        while i < latest.len()
            invariant
                i <= latest.len(),
                all == texts(latest@),
                forall|symbol: Seq<char>| #[trigger]
                    latest_set@.contains(symbol) <==> all.take(i as int).contains(symbol),
            decreases latest.len() - i,
        {
            latest_set.insert(latest[i].clone());
            proof {
                assert(all.take(i + 1) =~= all.take(i as int).push(latest@[i as int]@));
                lemma_push_contains(all.take(i as int), latest@[i as int]@);
            }
            i = i + 1;
        }
        assert(all.take(i as int) =~= all);
        let known: Vec<String> = fx_keys(&self.symbol_to_index);
        let ghost keys = texts(known@);
        let mut gone: Vec<String> = Vec::new();
        let mut k: usize = 0;
        while k < known.len()
            invariant
                k <= known.len(),
                keys == texts(known@),
                keys.no_duplicates(),
                forall|symbol: Seq<char>| #[trigger]
                    latest_set@.contains(symbol) <==> all.contains(symbol),
                texts(gone@).no_duplicates(),
                forall|symbol: Seq<char>| #[trigger]
                    texts(gone@).contains(symbol) <==> keys.take(k as int).contains(symbol)
                        && !all.contains(symbol),
            decreases known.len() - k,
        {
            let ghost before = gone@;
            let ghost symbol = known@[k as int]@;
            let stays = latest_set.contains(known[k].as_str());
            if !stays {
                gone.push(known[k].clone());
            }
            proof {
                assert(keys.take(k + 1) =~= keys.take(k as int).push(symbol));
                assert(!keys.take(k as int).contains(symbol)) by {
                    assert(forall|j: int| 0 <= j < k ==> keys.take(k as int)[j] == keys[j]);
                    assert(keys[k as int] == symbol);
                }
                lemma_push_contains(keys.take(k as int), symbol);
                if !stays {
                    assert(texts(gone@) =~= texts(before).push(symbol));
                    lemma_push_contains(texts(before), symbol);
                    assert(!texts(before).contains(symbol));
                }
            }
            k = k + 1;
        }
        proof {
            assert(keys.take(k as int) =~= keys);
            assert forall|symbol: Seq<char>| #[trigger]
                texts(gone@).contains(symbol) <==> self@.index.contains_key(symbol)
                    && !all.contains(symbol) by {
                assert(keys.to_set().contains(symbol) <==> keys.contains(symbol));
            }
        }
        gone
    }

    /// Takes one symbol off the list.
    fn delist_one(&mut self, symbol: &String, actions: &mut Vec<OrchAction>)
        requires
            old(self)@.wf(),
        ensures
            final(self)@ == old(self)@.without(symbol@),
            actions_view(final(actions)@) == actions_view(old(actions)@)
                + old(self)@.without_actions(symbol@),
    {
        let ghost s = old(self)@;
        let ghost done = actions_view(actions@);
        if let Some(idx) = fx_remove(&mut self.symbol_to_index, symbol.as_str()) {
            assert(s.index.contains_key(symbol@));
            self.free_indices.push(idx);
            actions.push(OrchAction::Store(clear_store(idx)));
        }
        let ghost cleared = actions_view(actions@);
        let mut w: usize = 0;
        while w < self.worker_symbols.len()
            invariant
                w <= self.worker_symbols.len(),
                self.worker_symbols@.len() == s.workers.len(),
                forall|j: int|
                    w <= j < s.workers.len() ==> entries(#[trigger] self.worker_symbols@[j])
                        == s.workers[j],
                forall|j: int|
                    0 <= j < w ==> entries(#[trigger] self.worker_symbols@[j])
                        == s.workers[j].remove(symbol@),
                self.reserved == old(self).reserved,
                self.first == old(self).first,
                self.next_index == old(self).next_index,
                entries(self.symbol_to_index) == s.without(symbol@).index,
                self.free_indices@ == s.without(symbol@).free,
                actions_view(actions@) == cleared + unsubscribes(s.workers, symbol@, w as nat),
            decreases self.worker_symbols.len() - w,
        {
            let ghost before = actions@;
            if fx_remove(&mut self.worker_symbols[w], symbol.as_str()).is_some() {
                let mut one: Vec<String> = Vec::new();
                one.push(symbol.clone());
                actions.push(OrchAction::Send { worker: w, cmd: WorkerCmd::Unsubscribe(one) });
                proof {
                    assert(texts(one@) =~= seq![symbol@]);
                    let sent = OrchActionView::Send {
                        worker: w as int,
                        cmd: WorkerCmdView::Unsubscribe(seq![symbol@]),
                    };
                    assert(actions_view(actions@) =~= actions_view(before).push(sent));
                    assert(unsubscribes(s.workers, symbol@, (w + 1) as nat) == unsubscribes(
                        s.workers,
                        symbol@,
                        w as nat,
                    ).push(sent));
                }
            }
            w = w + 1;
        }
        proof {
            assert(self@.workers =~= s.without(symbol@).workers);
            assert(actions_view(actions@) =~= done + s.without_actions(symbol@));
        }
    }

    /// Takes symbols off the list, in the order given: each one's record is blanked and free,
    /// and whoever follows it is told to drop it.
    pub fn delist(&mut self, symbols: &Vec<String>) -> (actions: Vec<OrchAction>)
        requires
            old(self)@.wf(),
        ensures
            final(self)@ == old(self)@.without_all(texts(symbols@)),
            final(self)@.wf(),
            actions_view(actions@) == old(self)@.without_all_actions(texts(symbols@)),
    {
        let ghost s = self@;
        let ghost all = texts(symbols@);
        let mut actions: Vec<OrchAction> = Vec::new();
        let mut i: usize = 0;
        proof {
            assert(all.take(0) =~= Seq::empty());
            assert(actions_view(actions@) =~= s.without_all_actions(all.take(0)));
        }
        while i < symbols.len()
            invariant
                i <= symbols.len(),
                all == texts(symbols@),
                s.wf(),
                self@ == s.without_all(all.take(i as int)),
                actions_view(actions@) == s.without_all_actions(all.take(i as int)),
            decreases symbols.len() - i,
        {
            proof {
                law_without_all_keeps_wf(s, all.take(i as int));
                assert(all.take(i + 1).drop_last() =~= all.take(i as int));
                assert(all.take(i + 1).last() == symbols@[i as int]@);
            }
            self.delist_one(&symbols[i], &mut actions);
            i = i + 1;
        }
        proof {
            assert(all.take(i as int) =~= all);
            law_without_all_keeps_wf(s, all);
        }
        actions
    }

    /// The first worker that follows the fewest symbols.
    fn least_loaded_worker(&self) -> (best: usize)
        requires
            self@.workers.len() > 0,
        ensures
            best == least_loaded(self@.workers, self@.workers.len()),
            best < self@.workers.len(),
    {
        let ghost workers = self@.workers;
        let mut best: usize = 0;
        let mut w: usize = 1;
        while w < self.worker_symbols.len()
            invariant
                workers == all_entries(self.worker_symbols@),
                1 <= w <= self.worker_symbols.len(),
                best < w,
                best == least_loaded(workers, w as nat),
            decreases self.worker_symbols.len() - w,
        {
            if fx_len(&self.worker_symbols[w]) < fx_len(&self.worker_symbols[best]) {
                best = w;
            }
            w = w + 1;
        }
        best
    }

    /// Puts one symbol on the list, if there is room for it; says where.
    fn place(&mut self, symbol: &String) -> (placed: Option<(usize, usize)>)
        requires
            old(self)@.wf(),
            old(self)@.next < usize::MAX,
        ensures
            final(self)@ == old(self)@.with(symbol@),
            match old(self)@.placement(symbol@) {
                None => placed is None,
                Some(p) => placed == Some((p.worker as usize, p.slot)) && 0 <= p.worker
                    < old(self)@.workers.len() && p.slot < MAX_COINS,
            },
    {
        let ghost s = self@;
        proof {
            law_least_loaded(s.workers, s.workers.len());
        }
        let idx: usize = match self.free_indices.pop() {
            Some(f_idx) => f_idx,
            None => {
                let i: usize = self.next_index;
                self.next_index = self.next_index + 1;
                i
            },
        };
        assert(self@.free =~= s.slot_taken().free);
        assert(idx == s.next_slot());
        if idx >= MAX_COINS {
            assert(self@ =~= s.with(symbol@));
            return None;
        }
        let w: usize = self.least_loaded_worker();
        fx_insert(&mut self.symbol_to_index, symbol.clone(), idx);
        fx_insert(&mut self.worker_symbols[w], symbol.clone(), idx);
        assert(self@.workers =~= s.with(symbol@).workers);
        assert(self@ =~= s.with(symbol@));
        Some((w, idx))
    }

    /// Puts symbols on the list, in the order given: each gets a record and a worker, its
    /// record is named, and in the end every worker is told what it has to follow.
    pub fn enlist(&mut self, symbols: &Vec<String>) -> (actions: Vec<OrchAction>)
        requires
            old(self)@.wf(),
            old(self)@.next + symbols@.len() <= usize::MAX,
        ensures
            final(self)@ == old(self)@.with_all(texts(symbols@)),
            final(self)@.wf(),
            actions_view(actions@) == old(self)@.with_all_actions(texts(symbols@)),
    {
        let ghost s = self@;
        let ghost all = texts(symbols@);
        let n: usize = self.worker_symbols.len();
        let mut actions: Vec<OrchAction> = Vec::new();
        let mut distribute: Vec<Vec<(String, usize)>> = Vec::new();
        let mut w: usize = 0;
        while w < n
            invariant
                w <= n,
                distribute@.len() == w,
                forall|j: int| 0 <= j < w ==> (#[trigger] distribute@[j])@.len() == 0,
            decreases n - w,
        {
            distribute.push(Vec::new());
            w = w + 1;
        }
        let mut i: usize = 0;
        proof {
            assert(all.take(0) =~= Seq::empty());
            assert(actions_view(actions@) =~= naming(s.placements(all.take(0))));
            assert forall|j: int| 0 <= j < n implies placed_texts(
                (#[trigger] distribute@[j])@,
            ) == payload(s.placements(all.take(0)), j) by {
                assert(placed_texts(distribute@[j]@) =~= payload(s.placements(all.take(0)), j));
            }
        }
        while i < symbols.len()
            invariant
                i <= symbols.len(),
                all == texts(symbols@),
                s.wf(),
                s.next + symbols@.len() <= usize::MAX,
                n == s.workers.len(),
                distribute@.len() == n,
                self@ == s.with_all(all.take(i as int)),
                actions_view(actions@) == naming(s.placements(all.take(i as int))),
                forall|j: int|
                    0 <= j < n ==> placed_texts((#[trigger] distribute@[j])@) == payload(
                        s.placements(all.take(i as int)),
                        j,
                    ),
            decreases symbols.len() - i,
        {
            let ghost t = self@;
            let ghost actions_before = actions@;
            let ghost lists_before = distribute@;
            let ghost before = s.placements(all.take(i as int));
            proof {
                law_with_all_keeps_wf(s, all.take(i as int));
                assert(all.take(i + 1).drop_last() =~= all.take(i as int));
                assert(all.take(i + 1).last() == symbols@[i as int]@);
            }
            let symbol = &symbols[i];
            if let Some((w, idx)) = self.place(symbol) {
                distribute[w].push((symbol.clone(), idx * RECORD_SIZE));
                actions.push(OrchAction::Store(symbol_store(idx, symbol.as_str())));
                proof {
                    let p = t.placement(symbol@).unwrap();
                    let after = s.placements(all.take(i + 1));
                    assert(after == before.push(p));
                    assert(after.drop_last() =~= before);
                    let named = OrchActionView::Store(
                        symbol_store_of(idx as int, encode_utf8(symbol@)),
                    );
                    assert(actions_view(actions@) =~= actions_view(actions_before).push(named));
                    assert(naming(after) =~= naming(before).push(named));
                    assert forall|j: int| 0 <= j < n implies placed_texts(
                        (#[trigger] distribute@[j])@,
                    ) == payload(after, j) by {
                        if j == w {
                            assert(placed_texts(distribute@[j]@) =~= placed_texts(
                                lists_before[j]@,
                            ).push((symbol@, (idx * RECORD_SIZE) as usize)));
                        } else {
                            assert(distribute@[j] == lists_before[j]);
                        }
                    }
                }
            }
            i = i + 1;
        }
        assert(all.take(i as int) =~= all);
        let ghost placements = s.placements(all);
        proof {
            law_with_all_keeps_wf(s, all);
            assert(actions_view(actions@) =~= naming(placements) + subscribes(placements, 0));
        }
        let mut w: usize = 0;
        while w < n
            invariant
                w <= n,
                n == distribute@.len(),
                actions_view(actions@) == naming(placements) + subscribes(placements, w as nat),
                forall|j: int|
                    w <= j < n ==> placed_texts((#[trigger] distribute@[j])@) == payload(placements, j),
            decreases n - w,
        {
            let ghost before = actions@;
            let mut list: Vec<(String, usize)> = Vec::new();
            std::mem::swap(&mut list, &mut distribute[w]);
            assert(placed_texts(list@) == payload(placements, w as int));
            if !list.is_empty() {
                actions.push(OrchAction::Send { worker: w, cmd: WorkerCmd::Subscribe(list) });
                proof {
                    let sent = OrchActionView::Send {
                        worker: w as int,
                        cmd: WorkerCmdView::Subscribe(payload(placements, w as int)),
                    };
                    assert(actions_view(actions@) =~= actions_view(before).push(sent));
                    assert(subscribes(placements, (w + 1) as nat) == subscribes(
                        placements,
                        w as nat,
                    ).push(sent));
                }
            }
            w = w + 1;
        }
        actions
    }

    /// Takes in a new list of the exchange: symbols that are followed and no longer wanted are
    /// taken off, then wanted symbols that are not followed are put on. In which order the
    /// first are taken off is left open: a hash map is walked.
    pub fn refresh(&mut self, infos: &Vec<SymbolInfo>) -> (actions: Vec<OrchAction>)
        requires
            old(self)@.wf(),
            old(self)@.next + infos@.len() <= usize::MAX,
        ensures
            final(self)@.wf(),
            ({
                let latest = wanted(old(self)@.reserved, infos_view(infos@));
                exists|gone: Seq<Seq<char>>|
                    {
                        &&& #[trigger] are_gone(old(self)@, latest, gone)
                        &&& final(self)@ == refreshed(old(self)@, latest, gone)
                        &&& actions_view(actions@) == refresh_actions(old(self)@, latest, gone)
                    }
            }),
    {
        let ghost s = self@;
        let latest: Vec<String> = wanted_symbols(&self.reserved, infos);
        let ghost wanted_now = texts(latest@);
        let added: Vec<String> = self.newcomers_of(&latest);
        let gone: Vec<String> = self.gone_of(&latest);
        proof {
            law_without_all_keeps_wf(s, texts(gone@));
        }
        let mut actions: Vec<OrchAction> = self.delist(&gone);
        let mut more: Vec<OrchAction> = self.enlist(&added);
        let ghost first = actions@;
        let ghost second = more@;
        actions.append(&mut more);
        proof {
            assert(actions_view(actions@) =~= actions_view(first) + actions_view(second));
            assert(are_gone(s, wanted_now, texts(gone@)));
        }
        actions
    }
}

/// What an action says is what it holds.
pub proof fn law_orch_action_says_what_it_holds(action: OrchAction, actions: Seq<OrchAction>)
    ensures
        match action {
            OrchAction::Store(store) => action@ == OrchActionView::Store(store@),
            OrchAction::Send { worker, cmd } => action@ == (OrchActionView::Send {
                worker: worker as int,
                cmd: cmd@,
            }),
        },
        actions_view(actions).len() == actions.len(),
        forall|i: int| 0 <= i < actions.len() ==> #[trigger] actions_view(actions)[i]
            == actions[i]@,
{
}

/// A new list first takes off what has gone, and then puts on what is new.
pub proof fn law_first_off_then_on(s: Slots, latest: Seq<Seq<char>>, gone: Seq<Seq<char>>)
    ensures
        refreshed(s, latest, gone) == s.without_all(gone).with_all(newcomers(s, latest)),
        refresh_actions(s, latest, gone).len() == s.without_all_actions(gone).len() + s.without_all(
            gone,
        ).with_all_actions(newcomers(s, latest)).len(),
        refresh_actions(s, latest, gone).take(s.without_all_actions(gone).len() as int)
            == s.without_all_actions(gone),
        refresh_actions(s, latest, gone).skip(s.without_all_actions(gone).len() as int)
            == s.without_all(gone).with_all_actions(newcomers(s, latest)),
{
    let off = s.without_all_actions(gone);
    let on = s.without_all(gone).with_all_actions(newcomers(s, latest));
    assert((off + on).take(off.len() as int) =~= off);
    assert((off + on).skip(off.len() as int) =~= on);
}

} // verus!
