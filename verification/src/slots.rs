//! Which symbol has which record, and which worker follows it: the bookkeeping of one market
//! as plain mathematics, and what holds of it.
use vstd::prelude::*;
use vstd::utf8::encode_utf8;

use crate::command::WorkerCmdView;
use crate::config::{MAX_COINS, RECORD_SIZE};
use crate::record::{clear_store_of, symbol_store_of, StoreView};

verus! {

/// The bookkeeping of one market.
#[verifier::ext_equal]
pub struct Slots {
    /// Symbols that have records of their own and are never placed here.
    pub reserved: Seq<Seq<char>>,
    /// The first record that is handed out here.
    pub first: int,
    /// The record of each symbol.
    pub index: Map<Seq<char>, usize>,
    /// For each worker, the symbols that it follows and their records.
    pub workers: Seq<Map<Seq<char>, usize>>,
    /// Records that were given back, the last one on top.
    pub free: Seq<usize>,
    /// The record that comes next where none was given back.
    pub next: int,
}

/// One thing that the orchestrator has done.
pub enum OrchActionView {
    /// A store to the shared memory.
    Store(StoreView),
    /// A command to a worker.
    Send { worker: int, cmd: WorkerCmdView },
}

/// A symbol that got a record and a worker.
pub struct Placement {
    pub worker: int,
    pub symbol: Seq<char>,
    pub slot: usize,
}

/// The first of the first `n` workers that follows the fewest symbols.
pub open spec fn least_loaded(workers: Seq<Map<Seq<char>, usize>>, n: nat) -> int
    decreases n,
{
    if n <= 1 {
        0
    } else {
        let before = least_loaded(workers, (n - 1) as nat);
        if workers[n - 1].dom().len() < workers[before].dom().len() {
            n - 1
        } else {
            before
        }
    }
}

/// The commands that tell the first `n` workers to drop `symbol`: one to each that follows it.
pub open spec fn unsubscribes(
    workers: Seq<Map<Seq<char>, usize>>,
    symbol: Seq<char>,
    n: nat,
) -> Seq<OrchActionView>
    decreases n,
{
    if n == 0 {
        Seq::empty()
    } else {
        let before = unsubscribes(workers, symbol, (n - 1) as nat);
        if workers[n - 1].contains_key(symbol) {
            before.push(
                OrchActionView::Send {
                    worker: n - 1,
                    cmd: WorkerCmdView::Unsubscribe(seq![symbol]),
                },
            )
        } else {
            before
        }
    }
}

/// What worker `w` is given to follow: symbols, and the bytes at which their records start.
pub open spec fn payload(placements: Seq<Placement>, w: int) -> Seq<(Seq<char>, usize)>
    decreases placements.len(),
{
    if placements.len() == 0 {
        Seq::empty()
    } else {
        let before = payload(placements.drop_last(), w);
        let p = placements.last();
        if p.worker == w {
            before.push((p.symbol, (p.slot * RECORD_SIZE) as usize))
        } else {
            before
        }
    }
}

/// The stores that name the symbols of the records that were handed out.
pub open spec fn naming(placements: Seq<Placement>) -> Seq<OrchActionView> {
    Seq::new(
        placements.len(),
        |i: int|
            OrchActionView::Store(
                symbol_store_of(placements[i].slot as int, encode_utf8(placements[i].symbol)),
            ),
    )
}

/// The commands that give the first `n` workers their symbols: one to each that has any.
pub open spec fn subscribes(placements: Seq<Placement>, n: nat) -> Seq<OrchActionView>
    decreases n,
{
    if n == 0 {
        Seq::empty()
    } else {
        let before = subscribes(placements, (n - 1) as nat);
        if payload(placements, n - 1).len() > 0 {
            before.push(
                OrchActionView::Send {
                    worker: n - 1,
                    cmd: WorkerCmdView::Subscribe(payload(placements, n - 1)),
                },
            )
        } else {
            before
        }
    }
}

impl Slots {
    /// Whether worker `w` follows `symbol`.
    pub open spec fn follows(self, w: int, symbol: Seq<char>) -> bool {
        0 <= w < self.workers.len() && self.workers[w].contains_key(symbol)
    }

    /// Whether record `slot` is one that can have been handed out here.
    pub open spec fn handed_out(self, slot: usize) -> bool {
        self.first <= slot < self.next && slot < MAX_COINS
    }

    /// What every operation keeps: each record in use belongs to one symbol, and no record
    /// is both in use and free.
    pub open spec fn wf(self) -> bool {
        &&& 0 <= self.first
        &&& self.first <= self.next
        &&& self.workers.len() > 0
        &&& self.index.dom().finite()
        &&& forall|w: int| 0 <= w < self.workers.len() ==> (#[trigger] self.workers[w]).dom().finite()
        &&& forall|s: Seq<char>| #[trigger]
            self.index.contains_key(s) ==> self.handed_out(self.index[s])
        &&& forall|s: Seq<char>, t: Seq<char>| #[trigger]
            self.index.contains_key(s) && #[trigger] self.index.contains_key(t) && self.index[s]
                == self.index[t] ==> s == t
        &&& forall|i: int| 0 <= i < self.free.len() ==> self.handed_out(#[trigger] self.free[i])
        &&& forall|i: int, j: int|
            0 <= i < j < self.free.len() ==> #[trigger] self.free[i] != #[trigger] self.free[j]
        &&& forall|i: int, s: Seq<char>|
            0 <= i < self.free.len() && #[trigger] self.index.contains_key(s) ==> #[trigger] self.free[i]
                != self.index[s]
        &&& forall|w: int, s: Seq<char>| #[trigger]
            self.follows(w, s) ==> self.index.contains_key(s) && self.handed_out(self.workers[w][s])
        &&& forall|w: int, s: Seq<char>, i: int| #[trigger]
            self.follows(w, s) && 0 <= i < self.free.len() ==> #[trigger] self.free[i]
                != self.workers[w][s]
        &&& forall|w: int, s: Seq<char>, x: int, t: Seq<char>| #[trigger]
            self.follows(w, s) && #[trigger] self.follows(x, t) && self.workers[w][s]
                == self.workers[x][t] ==> w == x && s == t
        &&& forall|s: Seq<char>| #[trigger]
            self.index.contains_key(s) ==> exists|w: int|
                #![trigger self.follows(w, s)]
                self.follows(w, s) && self.workers[w][s] == self.index[s]
    }

    /// The bookkeeping at the start: nothing is placed.
    pub open spec fn fresh(reserved: Seq<Seq<char>>, first: int, workers: nat) -> Slots {
        Slots {
            reserved,
            first,
            index: Map::empty(),
            workers: Seq::new(workers, |w: int| Map::empty()),
            free: Seq::empty(),
            next: first,
        }
    }

    /// After `symbol` was taken off the list: its record is free, and nobody follows it.
    pub open spec fn without(self, symbol: Seq<char>) -> Slots {
        Slots {
            index: self.index.remove(symbol),
            free: if self.index.contains_key(symbol) {
                self.free.push(self.index[symbol])
            } else {
                self.free
            },
            workers: Seq::new(self.workers.len(), |w: int| self.workers[w].remove(symbol)),
            ..self
        }
    }

    /// What is done when `symbol` is taken off the list: its record is blanked, and whoever
    /// follows it is told to drop it.
    pub open spec fn without_actions(self, symbol: Seq<char>) -> Seq<OrchActionView> {
        let cleared = if self.index.contains_key(symbol) {
            seq![OrchActionView::Store(clear_store_of(self.index[symbol] as int))]
        } else {
            Seq::empty()
        };
        cleared + unsubscribes(self.workers, symbol, self.workers.len())
    }

    /// After all of `symbols` were taken off the list, one after the other.
    pub open spec fn without_all(self, symbols: Seq<Seq<char>>) -> Slots
        decreases symbols.len(),
    {
        if symbols.len() == 0 {
            self
        } else {
            self.without_all(symbols.drop_last()).without(symbols.last())
        }
    }

    /// What is done when all of `symbols` are taken off the list.
    pub open spec fn without_all_actions(self, symbols: Seq<Seq<char>>) -> Seq<OrchActionView>
        decreases symbols.len(),
    {
        if symbols.len() == 0 {
            Seq::empty()
        } else {
            self.without_all_actions(symbols.drop_last()) + self.without_all(
                symbols.drop_last(),
            ).without_actions(symbols.last())
        }
    }

    /// The record that the next symbol gets: the one given back last, or else a new one.
    pub open spec fn next_slot(self) -> int {
        if self.free.len() > 0 {
            self.free.last() as int
        } else {
            self.next
        }
    }

    /// After that record was taken.
    pub open spec fn slot_taken(self) -> Slots {
        if self.free.len() > 0 {
            Slots { free: self.free.drop_last(), ..self }
        } else {
            Slots { next: self.next + 1, ..self }
        }
    }

    /// Where a new symbol goes: the next record, and the worker with the fewest symbols.
    /// A record past the end of the memory is nowhere.
    pub open spec fn placement(self, symbol: Seq<char>) -> Option<Placement> {
        if self.next_slot() >= MAX_COINS {
            None
        } else {
            Some(
                Placement {
                    worker: least_loaded(self.workers, self.workers.len()),
                    symbol,
                    slot: self.next_slot() as usize,
                },
            )
        }
    }

    /// After `symbol` was put on the list.
    pub open spec fn with(self, symbol: Seq<char>) -> Slots {
        match self.placement(symbol) {
            None => self.slot_taken(),
            Some(p) => Slots {
                index: self.index.insert(symbol, p.slot),
                workers: self.workers.update(
                    p.worker,
                    self.workers[p.worker].insert(symbol, p.slot),
                ),
                ..self.slot_taken()
            },
        }
    }

    /// After all of `symbols` were put on the list, one after the other.
    pub open spec fn with_all(self, symbols: Seq<Seq<char>>) -> Slots
        decreases symbols.len(),
    {
        if symbols.len() == 0 {
            self
        } else {
            self.with_all(symbols.drop_last()).with(symbols.last())
        }
    }

    /// Where all of `symbols` go, but for those that go nowhere.
    pub open spec fn placements(self, symbols: Seq<Seq<char>>) -> Seq<Placement>
        decreases symbols.len(),
    {
        if symbols.len() == 0 {
            Seq::empty()
        } else {
            let before = self.placements(symbols.drop_last());
            match self.with_all(symbols.drop_last()).placement(symbols.last()) {
                None => before,
                Some(p) => before.push(p),
            }
        }
    }

    /// What is done when all of `symbols` are put on the list: every record that was handed
    /// out is named, and then every worker is given its symbols.
    pub open spec fn with_all_actions(self, symbols: Seq<Seq<char>>) -> Seq<OrchActionView> {
        let placements = self.placements(symbols);
        naming(placements) + subscribes(placements, self.workers.len())
    }
}

/// The chosen worker has the fewest symbols, and every worker before it has more.
pub proof fn law_least_loaded(workers: Seq<Map<Seq<char>, usize>>, n: nat)
    requires
        0 < n <= workers.len(),
    ensures
        0 <= least_loaded(workers, n) < n,
        forall|w: int|
            0 <= w < n ==> workers[least_loaded(workers, n)].dom().len()
                <= (#[trigger] workers[w]).dom().len(),
        forall|w: int|
            0 <= w < least_loaded(workers, n) ==> workers[least_loaded(workers, n)].dom().len()
                < (#[trigger] workers[w]).dom().len(),
    decreases n,
{
    if n > 1 {
        law_least_loaded(workers, (n - 1) as nat);
    }
}

/// The start is well formed.
pub proof fn law_fresh_is_wf(reserved: Seq<Seq<char>>, first: int, workers: nat)
    requires
        0 <= first,
        0 < workers,
    ensures
        Slots::fresh(reserved, first, workers).wf(),
{
}

/// Taking a symbol off the list keeps the bookkeeping well formed.
pub proof fn law_without_keeps_wf(s: Slots, symbol: Seq<char>)
    requires
        s.wf(),
    ensures
        s.without(symbol).wf(),
{
    let r = s.without(symbol);
    assert forall|w: int, t: Seq<char>| #[trigger] r.follows(w, t) implies s.follows(w, t) && t
        != symbol && r.workers[w][t] == s.workers[w][t] by {
        assert(r.workers[w] == s.workers[w].remove(symbol));
    }
    assert forall|w: int| 0 <= w < r.workers.len() implies (#[trigger] r.workers[w]).dom().finite() by {
        assert(s.workers[w].dom().finite());
    }
    if s.index.contains_key(symbol) {
        let home = choose|w: int|
            #![trigger s.follows(w, symbol)]
            s.follows(w, symbol) && s.workers[w][symbol] == s.index[symbol];
        assert(s.follows(home, symbol));
    }
    assert forall|t: Seq<char>| #[trigger] r.index.contains_key(t) implies exists|w: int|
        #![trigger r.follows(w, t)]
        r.follows(w, t) && r.workers[w][t] == r.index[t] by {
        assert(s.index.contains_key(t));
        let w = choose|w: int|
            #![trigger s.follows(w, t)]
            s.follows(w, t) && s.workers[w][t] == s.index[t];
        assert(r.follows(w, t));
    }
}

/// Putting a symbol on the list keeps the bookkeeping well formed.
pub proof fn law_with_keeps_wf(s: Slots, symbol: Seq<char>)
    requires
        s.wf(),
    ensures
        s.with(symbol).wf(),
        s.with(symbol).workers.len() == s.workers.len(),
{
    let r = s.with(symbol);
    let n = s.workers.len();
    law_least_loaded(s.workers, n);
    let home = least_loaded(s.workers, n);
    match s.placement(symbol) {
        None => {
            assert forall|w: int, t: Seq<char>| #[trigger] r.follows(w, t) implies s.follows(
                w,
                t,
            ) by {}
            assert forall|t: Seq<char>| #[trigger] r.index.contains_key(t) implies exists|w: int|
                #![trigger r.follows(w, t)]
                r.follows(w, t) && r.workers[w][t] == r.index[t] by {
                assert(s.index.contains_key(t));
                let w = choose|w: int|
                    #![trigger s.follows(w, t)]
                    s.follows(w, t) && s.workers[w][t] == s.index[t];
                assert(r.follows(w, t));
            }
        },
        Some(p) => {
            assert forall|w: int, t: Seq<char>| #[trigger] r.follows(w, t) implies (w == home && t
                == symbol && r.workers[w][t] == p.slot) || (s.follows(w, t) && r.workers[w][t]
                == s.workers[w][t]) by {
                if w == home {
                    assert(r.workers[w] == s.workers[w].insert(symbol, p.slot));
                } else {
                    assert(r.workers[w] == s.workers[w]);
                }
            }
            assert forall|w: int| 0 <= w < r.workers.len() implies (
            #[trigger] r.workers[w]).dom().finite() by {
                assert(s.workers[w].dom().finite());
            }
            assert forall|t: Seq<char>| #[trigger] r.index.contains_key(t) implies exists|w: int|
                #![trigger r.follows(w, t)]
                r.follows(w, t) && r.workers[w][t] == r.index[t] by {
                if t == symbol {
                    assert(r.follows(home, t));
                } else {
                    assert(s.index.contains_key(t));
                    let w = choose|w: int|
                        #![trigger s.follows(w, t)]
                        s.follows(w, t) && s.workers[w][t] == s.index[t];
                    assert(r.follows(w, t));
                }
            }
        },
    }
}

/// Taking symbols off the list keeps the bookkeeping well formed.
pub proof fn law_without_all_keeps_wf(s: Slots, symbols: Seq<Seq<char>>)
    requires
        s.wf(),
    ensures
        s.without_all(symbols).wf(),
        s.without_all(symbols).workers.len() == s.workers.len(),
        s.without_all(symbols).next == s.next,
        s.without_all(symbols).first == s.first,
        s.without_all(symbols).reserved == s.reserved,
    decreases symbols.len(),
{
    if symbols.len() > 0 {
        law_without_all_keeps_wf(s, symbols.drop_last());
        law_without_keeps_wf(s.without_all(symbols.drop_last()), symbols.last());
    }
}

/// Putting symbols on the list keeps the bookkeeping well formed.
pub proof fn law_with_all_keeps_wf(s: Slots, symbols: Seq<Seq<char>>)
    requires
        s.wf(),
    ensures
        s.with_all(symbols).wf(),
        s.with_all(symbols).workers.len() == s.workers.len(),
        s.next <= s.with_all(symbols).next <= s.next + symbols.len(),
        s.with_all(symbols).first == s.first,
        s.with_all(symbols).reserved == s.reserved,
    decreases symbols.len(),
{
    if symbols.len() > 0 {
        law_with_all_keeps_wf(s, symbols.drop_last());
        law_with_keeps_wf(s.with_all(symbols.drop_last()), symbols.last());
    }
}

/// At the start there are as many workers as were asked for, nobody follows anything, no symbol
/// has a record, none was given back, and the first record to be handed out is `first`.
pub proof fn law_fresh_is_empty(reserved: Seq<Seq<char>>, first: int, workers: nat)
    ensures
        ({
            let s = Slots::fresh(reserved, first, workers);
            &&& s.reserved == reserved
            &&& s.first == first
            &&& s.next == first
            &&& s.free.len() == 0
            &&& s.workers.len() == workers
            &&& forall|x: Seq<char>| !(#[trigger] s.index.contains_key(x))
            &&& forall|w: int, x: Seq<char>| !(#[trigger] s.follows(w, x))
        }),
{
}

/// Taking a symbol off the list takes its record from it and gives it back, behind all that were
/// given back before, and takes the symbol from every worker; nothing else changes.
pub proof fn law_taking_off(s: Slots, symbol: Seq<char>, x: Seq<char>, w: int)
    requires
        0 <= w < s.workers.len(),
    ensures
        ({
            let r = s.without(symbol);
            &&& !r.index.contains_key(symbol)
            &&& !r.follows(w, symbol)
            &&& x != symbol ==> {
                &&& r.index.contains_key(x) <==> s.index.contains_key(x)
                &&& s.index.contains_key(x) ==> r.index[x] == s.index[x]
                &&& r.follows(w, x) <==> s.follows(w, x)
                &&& s.follows(w, x) ==> r.workers[w][x] == s.workers[w][x]
            }
            &&& s.index.contains_key(symbol) ==> r.free.drop_last() == s.free && r.free.last()
                == s.index[symbol] && r.free.len() == s.free.len() + 1
            &&& !s.index.contains_key(symbol) ==> r.free == s.free
            &&& r.next == s.next
            &&& r.first == s.first
            &&& r.reserved == s.reserved
            &&& r.workers.len() == s.workers.len()
        }),
{
    let r = s.without(symbol);
    assert(r.workers[w] == s.workers[w].remove(symbol));
    if s.index.contains_key(symbol) {
        assert(r.free.drop_last() =~= s.free);
    }
}

/// Putting a symbol on the list gives it the record that was given back last, or a new one where
/// there is none; a record from number 2000 on is nowhere, and then nobody is told anything. The
/// symbol goes to one worker, at that record, and nothing else changes.
pub proof fn law_putting_on(s: Slots, symbol: Seq<char>, x: Seq<char>, w: int)
    requires
        s.wf(),
        0 <= w < s.workers.len(),
    ensures
        ({
            let r = s.with(symbol);
            let slot = if s.free.len() > 0 {
                s.free[s.free.len() - 1] as int
            } else {
                s.next
            };
            &&& s.placement(symbol) is Some <==> slot < 2000
            &&& s.placement(symbol) matches Some(p) ==> {
                &&& p.symbol == symbol
                &&& p.slot == slot
                &&& 0 <= p.worker < s.workers.len()
                &&& r.index.contains_key(symbol)
                &&& r.index[symbol] == slot
                &&& r.follows(p.worker, symbol)
                &&& r.workers[p.worker][symbol] == slot
                &&& w != p.worker ==> r.workers[w] == s.workers[w]
                &&& x != symbol ==> (r.follows(w, x) <==> s.follows(w, x))
                &&& x != symbol && s.follows(w, x) ==> r.workers[w][x] == s.workers[w][x]
                &&& x != symbol ==> (r.index.contains_key(x) <==> s.index.contains_key(x))
                &&& x != symbol && s.index.contains_key(x) ==> r.index[x] == s.index[x]
            }
            &&& s.placement(symbol) is None ==> r.index == s.index && r.workers == s.workers
            &&& s.free.len() > 0 ==> r.next == s.next && r.free == s.free.take(s.free.len() - 1)
            &&& s.free.len() == 0 ==> r.next == s.next + 1 && r.free == s.free
            &&& r.first == s.first
            &&& r.reserved == s.reserved
            &&& r.workers.len() == s.workers.len()
        }),
{
    law_least_loaded(s.workers, s.workers.len());
    if s.free.len() > 0 {
        assert(s.handed_out(s.free[s.free.len() - 1]));
        assert(s.free.drop_last() =~= s.free.take(s.free.len() - 1));
    }
}

/// Where no record was given back, symbols get new records one after the other.
pub proof fn law_new_records_are_in_order(s: Slots, symbols: Seq<Seq<char>>, i: int)
    requires
        s.free.len() == 0,
        0 <= s.next,
        s.next + symbols.len() <= 2000,
        0 <= i < symbols.len(),
    ensures
        s.placements(symbols).len() == symbols.len(),
        s.with_all(symbols).next == s.next + symbols.len(),
        s.with_all(symbols).free.len() == 0,
        s.placements(symbols)[i].slot == s.next + i,
        s.placements(symbols)[i].symbol == symbols[i],
    decreases symbols.len(),
{
    let before = symbols.drop_last();
    if before.len() > 0 {
        law_new_records_are_in_order(s, before, if i < before.len() {
            i
        } else {
            0
        });
        if i < before.len() {
            assert(s.placements(symbols)[i] == s.placements(before)[i]);
        }
    } else {
        assert(s.with_all(before) == s);
        assert(s.placements(before).len() == 0);
    }
}

/// What is done when a symbol is taken off the list: its record is blanked, if it has one, and
/// then every worker that follows it is told to drop it, in order, and no other.
pub proof fn law_farewell(s: Slots, symbol: Seq<char>, n: nat)
    ensures
        unsubscribes(s.workers, symbol, 0).len() == 0,
        unsubscribes(s.workers, symbol, n + 1) == (if s.workers[n as int].contains_key(symbol) {
            unsubscribes(s.workers, symbol, n).push(
                OrchActionView::Send {
                    worker: n as int,
                    cmd: WorkerCmdView::Unsubscribe(seq![symbol]),
                },
            )
        } else {
            unsubscribes(s.workers, symbol, n)
        }),
        s.index.contains_key(symbol) ==> s.without_actions(symbol) == seq![
            OrchActionView::Store(clear_store_of(s.index[symbol] as int)),
        ] + unsubscribes(s.workers, symbol, s.workers.len()),
        !s.index.contains_key(symbol) ==> s.without_actions(symbol) == unsubscribes(
            s.workers,
            symbol,
            s.workers.len(),
        ),
{
    if !s.index.contains_key(symbol) {
        assert(s.without_actions(symbol) =~= unsubscribes(s.workers, symbol, s.workers.len()));
    }
}

/// What a worker is given is what was placed with it, in order, each symbol with the byte at
/// which its record starts; every record that was handed out is named after its symbol; and
/// every worker with something new is told so once, the first before the second and so on.
pub proof fn law_welcome(placements: Seq<Placement>, p: Placement, w: int, n: nat, i: int)
    requires
        p.slot < 2000,
    ensures
        payload(Seq::empty(), w).len() == 0,
        payload(placements.push(p), w) == (if p.worker == w {
            payload(placements, w).push((p.symbol, (128 * p.slot) as usize))
        } else {
            payload(placements, w)
        }),
        naming(placements).len() == placements.len(),
        0 <= i < placements.len() ==> naming(placements)[i] == OrchActionView::Store(
            symbol_store_of(placements[i].slot as int, encode_utf8(placements[i].symbol)),
        ),
        subscribes(placements, 0).len() == 0,
        subscribes(placements, n + 1) == (if payload(placements, n as int).len() > 0 {
            subscribes(placements, n).push(
                OrchActionView::Send {
                    worker: n as int,
                    cmd: WorkerCmdView::Subscribe(payload(placements, n as int)),
                },
            )
        } else {
            subscribes(placements, n)
        }),
{
    assert(placements.push(p).drop_last() =~= placements);
}

/// Symbols are taken off and put on one after the other, and what is done about each comes in
/// that order; symbols that are put on are told of in the end.
pub proof fn law_one_after_the_other(s: Slots, symbols: Seq<Seq<char>>, symbol: Seq<char>)
    ensures
        s.without_all(Seq::empty()) == s,
        s.without_all(symbols.push(symbol)) == s.without_all(symbols).without(symbol),
        s.without_all_actions(Seq::empty()).len() == 0,
        s.without_all_actions(symbols.push(symbol)) == s.without_all_actions(symbols)
            + s.without_all(symbols).without_actions(symbol),
        s.with_all(Seq::empty()) == s,
        s.with_all(symbols.push(symbol)) == s.with_all(symbols).with(symbol),
        s.placements(Seq::empty()).len() == 0,
        s.placements(symbols.push(symbol)) == (match s.with_all(symbols).placement(symbol) {
            Some(p) => s.placements(symbols).push(p),
            None => s.placements(symbols),
        }),
        s.with_all_actions(symbols) == naming(s.placements(symbols)) + subscribes(
            s.placements(symbols),
            s.workers.len(),
        ),
{
    assert(symbols.push(symbol).drop_last() =~= symbols);
}

} // verus!
