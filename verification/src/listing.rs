//! What a new list of the exchange changes, and what it leaves as it is.
use vstd::prelude::*;

use crate::config::{MAX_COINS, RECORD_SIZE, SHM_SIZE};
use crate::orchestrator::{
    are_gone, is_wanted, newcomers, refresh_actions, refreshed, wanted, SymbolInfoView,
};
use crate::slots::{
    law_least_loaded, law_with_all_keeps_wf, law_without_all_keeps_wf, least_loaded, subscribes,
    OrchActionView, Placement, Slots,
};
use crate::text::{lemma_filter_contains, lemma_push_contains};

verus! {

/// How many more symbols there is room for.
pub open spec fn room(s: Slots) -> int {
    s.free.len() + (if s.next < MAX_COINS {
        MAX_COINS - s.next
    } else {
        0
    })
}

/// What taking symbols off the list leaves: everything about the other symbols.
pub proof fn lemma_without_all(s: Slots, gone: Seq<Seq<char>>)
    requires
        s.wf(),
    ensures
        forall|x: Seq<char>| #[trigger]
            s.without_all(gone).index.contains_key(x) <==> s.index.contains_key(x) && !gone.contains(x),
        forall|x: Seq<char>| #[trigger]
            s.without_all(gone).index.contains_key(x) ==> s.without_all(gone).index[x] == s.index[x],
        forall|w: int, x: Seq<char>| #[trigger]
            s.without_all(gone).follows(w, x) <==> s.follows(w, x) && !gone.contains(x),
        forall|w: int, x: Seq<char>| #[trigger]
            s.without_all(gone).follows(w, x) ==> s.without_all(gone).workers[w][x] == s.workers[w][x],
    decreases gone.len(),
{
    if gone.len() > 0 {
        let before = gone.drop_last();
        lemma_without_all(s, before);
        law_without_all_keeps_wf(s, before);
        lemma_push_contains(before, gone.last());
        assert(gone =~= before.push(gone.last()));
        let t = s.without_all(before);
        let r = s.without_all(gone);
        assert(r == t.without(gone.last()));
        assert forall|w: int, x: Seq<char>| #[trigger] r.follows(w, x) <==> t.follows(w, x) && x
            != gone.last() by {
            if 0 <= w < t.workers.len() {
                assert(r.workers[w] == t.workers[w].remove(gone.last()));
            }
        }
        assert forall|w: int, x: Seq<char>| #[trigger] r.follows(w, x) implies r.workers[w][x]
            == s.workers[w][x] by {
            assert(t.follows(w, x));
            assert(r.workers[w] == t.workers[w].remove(gone.last()));
        }
    }
}

/// What putting symbols on the list leaves: everything about the other symbols.
pub proof fn lemma_with_all_leaves(s: Slots, added: Seq<Seq<char>>, x: Seq<char>)
    requires
        s.wf(),
        !added.contains(x),
    ensures
        s.with_all(added).index.contains_key(x) <==> s.index.contains_key(x),
        s.index.contains_key(x) ==> s.with_all(added).index[x] == s.index[x],
        forall|w: int| #[trigger] s.with_all(added).follows(w, x) <==> s.follows(w, x),
        forall|w: int| #[trigger]
            s.follows(w, x) ==> s.with_all(added).workers[w][x] == s.workers[w][x],
    decreases added.len(),
{
    if added.len() > 0 {
        let before = added.drop_last();
        lemma_push_contains(before, added.last());
        assert(added =~= before.push(added.last()));
        lemma_with_all_leaves(s, before, x);
        law_with_all_keeps_wf(s, before);
        let t = s.with_all(before);
        let r = s.with_all(added);
        law_least_loaded(t.workers, t.workers.len());
        assert(x != added.last());
        assert forall|w: int| #[trigger] r.follows(w, x) <==> t.follows(w, x) by {}
        assert forall|w: int| #[trigger] s.follows(w, x) implies r.workers[w][x] == s.workers[w][x] by {
            assert(t.follows(w, x));
        }
    }
}

/// Which symbols have a record after symbols were put on the list: those that had one, and, as
/// long as there is room, those that were put on.
pub proof fn lemma_with_all_places(s: Slots, added: Seq<Seq<char>>)
    requires
        s.wf(),
    ensures
        forall|x: Seq<char>| #[trigger]
            s.with_all(added).index.contains_key(x) ==> s.index.contains_key(x) || added.contains(x),
        added.len() <= room(s) ==> {
            &&& room(s.with_all(added)) == room(s) - added.len()
            &&& forall|x: Seq<char>| #[trigger]
                s.with_all(added).index.contains_key(x) <==> s.index.contains_key(x)
                    || added.contains(x)
        },
    decreases added.len(),
{
    if added.len() > 0 {
        let before = added.drop_last();
        lemma_push_contains(before, added.last());
        assert(added =~= before.push(added.last()));
        lemma_with_all_places(s, before);
        law_with_all_keeps_wf(s, before);
        let t = s.with_all(before);
        if t.free.len() > 0 {
            assert(t.handed_out(t.free[t.free.len() - 1]));
        }
    }
}

/// The newcomers are the symbols of the list that have no record.
pub proof fn lemma_newcomers(s: Slots, latest: Seq<Seq<char>>, x: Seq<char>)
    ensures
        newcomers(s, latest).contains(x) <==> latest.contains(x) && !s.index.contains_key(x),
{
    lemma_filter_contains(latest, |symbol: Seq<char>| !s.index.contains_key(symbol), x);
}

/// A symbol that stays on the list keeps its record, and is followed by the workers that
/// followed it, at the same record, and by no other.
pub proof fn law_staying_symbol_is_left_alone(
    s: Slots,
    latest: Seq<Seq<char>>,
    gone: Seq<Seq<char>>,
    symbol: Seq<char>,
    w: int,
)
    requires
        s.wf(),
        are_gone(s, latest, gone),
        s.index.contains_key(symbol),
        latest.contains(symbol),
    ensures
        refreshed(s, latest, gone).index.contains_key(symbol),
        refreshed(s, latest, gone).index[symbol] == s.index[symbol],
        refreshed(s, latest, gone).follows(w, symbol) <==> s.follows(w, symbol),
        s.follows(w, symbol) ==> refreshed(s, latest, gone).workers[w][symbol]
            == s.workers[w][symbol],
{
    assert(!gone.contains(symbol));
    lemma_newcomers(s, latest, symbol);
    lemma_without_all(s, gone);
    law_without_all_keeps_wf(s, gone);
    let t = s.without_all(gone);
    lemma_with_all_leaves(t, newcomers(s, latest), symbol);
    assert(t.index.contains_key(symbol));
    assert(t.follows(w, symbol) <==> s.follows(w, symbol));
    let r = refreshed(s, latest, gone);
    assert(r == t.with_all(newcomers(s, latest)));
    assert(r.follows(w, symbol) <==> t.follows(w, symbol));
}

/// After a list was taken in, only symbols of the list have records.
pub proof fn law_followed_is_wanted(
    s: Slots,
    latest: Seq<Seq<char>>,
    gone: Seq<Seq<char>>,
    symbol: Seq<char>,
)
    requires
        s.wf(),
        are_gone(s, latest, gone),
        refreshed(s, latest, gone).index.contains_key(symbol),
    ensures
        latest.contains(symbol),
{
    lemma_newcomers(s, latest, symbol);
    lemma_without_all(s, gone);
    law_without_all_keeps_wf(s, gone);
    let t = s.without_all(gone);
    lemma_with_all_places(t, newcomers(s, latest));
    if t.index.contains_key(symbol) {
        assert(s.index.contains_key(symbol) && !gone.contains(symbol));
    }
}

/// After a list was taken in that there was room for, every symbol of the list has a record.
pub proof fn law_wanted_is_followed(
    s: Slots,
    latest: Seq<Seq<char>>,
    gone: Seq<Seq<char>>,
    symbol: Seq<char>,
)
    requires
        s.wf(),
        are_gone(s, latest, gone),
        newcomers(s, latest).len() <= room(s.without_all(gone)),
        latest.contains(symbol),
    ensures
        refreshed(s, latest, gone).index.contains_key(symbol),
{
    lemma_newcomers(s, latest, symbol);
    lemma_without_all(s, gone);
    law_without_all_keeps_wf(s, gone);
    let t = s.without_all(gone);
    lemma_with_all_places(t, newcomers(s, latest));
    if s.index.contains_key(symbol) {
        assert(!gone.contains(symbol));
        assert(t.index.contains_key(symbol));
    }
}

/// A reserved symbol never gets a record.
pub proof fn law_reserved_stay_out(
    s: Slots,
    infos: Seq<SymbolInfoView>,
    gone: Seq<Seq<char>>,
    symbol: Seq<char>,
)
    requires
        s.wf(),
        are_gone(s, wanted(s.reserved, infos), gone),
        s.reserved.contains(symbol),
    ensures
        !refreshed(s, wanted(s.reserved, infos), gone).index.contains_key(symbol),
{
    let latest = wanted(s.reserved, infos);
    if refreshed(s, latest, gone).index.contains_key(symbol) {
        law_followed_is_wanted(s, latest, gone, symbol);
        let pick = |info: SymbolInfoView| is_wanted(s.reserved, info);
        let kept = infos.filter(pick);
        let i = choose|i: int| 0 <= i < latest.len() && latest[i] == symbol;
        assert(latest[i] == kept[i].symbol);
        assert(kept.contains(kept[i]));
        lemma_filter_contains(infos, pick, kept[i]);
    }
}

/// Once every symbol of a list has a record, taking in the same list again does nothing.
pub proof fn law_same_list_changes_nothing(s: Slots, latest: Seq<Seq<char>>, gone: Seq<Seq<char>>)
    requires
        s.wf(),
        forall|x: Seq<char>| #[trigger] latest.contains(x) <==> s.index.contains_key(x),
        are_gone(s, latest, gone),
    ensures
        refreshed(s, latest, gone) == s,
        refresh_actions(s, latest, gone) == Seq::<OrchActionView>::empty(),
{
    if gone.len() > 0 {
        assert(gone.contains(gone[0]));
    }
    let added = newcomers(s, latest);
    if added.len() > 0 {
        assert(added.contains(added[0]));
        lemma_newcomers(s, latest, added[0]);
    }
    assert(s.placements(added) =~= Seq::<Placement>::empty());
    lemma_nothing_to_subscribe(s.workers.len());
    assert(refresh_actions(s, latest, gone) =~= Seq::<OrchActionView>::empty());
}

/// Where nothing was placed nobody is given anything.
proof fn lemma_nothing_to_subscribe(n: nat)
    ensures
        subscribes(Seq::<Placement>::empty(), n) == Seq::<OrchActionView>::empty(),
    decreases n,
{
    if n > 0 {
        lemma_nothing_to_subscribe((n - 1) as nat);
    }
}

/// A record that was given back is the next one to be handed out.
pub proof fn law_record_is_used_again(s: Slots, symbol: Seq<char>)
    requires
        s.index.contains_key(symbol),
    ensures
        s.without(symbol).next_slot() == s.index[symbol],
{
}

/// Records of two followed symbols, or of one symbol that two workers follow, do not overlap,
/// and lie in the memory, behind the records that are not handed out here.
pub proof fn law_followed_records_are_apart(
    s: Slots,
    w: int,
    symbol: Seq<char>,
    x: int,
    other: Seq<char>,
)
    requires
        s.wf(),
        s.follows(w, symbol),
        s.follows(x, other),
        w != x || symbol != other,
    ensures
        ({
            let a = s.workers[w][symbol] * RECORD_SIZE;
            let b = s.workers[x][other] * RECORD_SIZE;
            &&& a + RECORD_SIZE <= b || b + RECORD_SIZE <= a
            &&& s.first * RECORD_SIZE <= a
            &&& a + RECORD_SIZE <= SHM_SIZE
        }),
{
    assert(s.workers[w][symbol] != s.workers[x][other]);
}

/// Whether no worker follows two symbols more than another.
pub open spec fn balanced(s: Slots) -> bool {
    forall|w: int, x: int|
        0 <= w < s.workers.len() && 0 <= x < s.workers.len() ==> (#[trigger] s.workers[w]).dom().len()
            <= (#[trigger] s.workers[x]).dom().len() + 1
}

/// Putting symbols on the list keeps the workers balanced.
pub proof fn law_balance_is_kept(s: Slots, added: Seq<Seq<char>>)
    requires
        s.wf(),
        balanced(s),
    ensures
        balanced(s.with_all(added)),
    decreases added.len(),
{
    if added.len() > 0 {
        let before = added.drop_last();
        law_balance_is_kept(s, before);
        law_with_all_keeps_wf(s, before);
        let t = s.with_all(before);
        let r = s.with_all(added);
        let home = least_loaded(t.workers, t.workers.len());
        law_least_loaded(t.workers, t.workers.len());
        assert forall|w: int, x: int|
            0 <= w < r.workers.len() && 0 <= x < r.workers.len() implies (
        #[trigger] r.workers[w]).dom().len() <= (#[trigger] r.workers[x]).dom().len() + 1 by {
            assert(t.workers[w].dom().len() <= t.workers[x].dom().len() + 1);
            assert(t.workers[home].dom().len() <= t.workers[x].dom().len());
            assert(t.workers[home].dom().finite());
        }
    }
}

/// Whether no symbol is followed by two workers.
pub open spec fn one_worker_each(s: Slots) -> bool {
    forall|w: int, x: int, symbol: Seq<char>| #[trigger]
        s.follows(w, symbol) && #[trigger] s.follows(x, symbol) ==> w == x
}

/// Keeping some items of a list without duplicates makes no duplicates.
pub proof fn lemma_filter_no_duplicates(list: Seq<Seq<char>>, keep: spec_fn(Seq<char>) -> bool)
    requires
        list.no_duplicates(),
    ensures
        list.filter(keep).no_duplicates(),
    decreases list.len(),
{
    reveal(Seq::filter);
    if list.len() > 0 {
        let before = list.drop_last();
        assert(list =~= before.push(list.last()));
        lemma_filter_no_duplicates(before, keep);
        lemma_filter_contains(before, keep, list.last());
        assert(!before.contains(list.last())) by {
            if before.contains(list.last()) {
                let i = choose|i: int| 0 <= i < before.len() && before[i] == list.last();
                assert(list[i] == list[list.len() - 1]);
            }
        }
    }
}

/// Putting new symbols on the list, each named once, gives each of them one worker.
proof fn lemma_with_all_one_worker(s: Slots, added: Seq<Seq<char>>)
    requires
        s.wf(),
        one_worker_each(s),
        added.no_duplicates(),
        forall|i: int| 0 <= i < added.len() ==> !s.index.contains_key(#[trigger] added[i]),
    ensures
        one_worker_each(s.with_all(added)),
    decreases added.len(),
{
    if added.len() > 0 {
        let before = added.drop_last();
        let symbol = added.last();
        assert(forall|i: int| 0 <= i < before.len() ==> before[i] == added[i]);
        lemma_with_all_one_worker(s, before);
        lemma_with_all_places(s, before);
        law_with_all_keeps_wf(s, before);
        let t = s.with_all(before);
        let r = s.with_all(added);
        law_least_loaded(t.workers, t.workers.len());
        assert(!before.contains(symbol)) by {
            if before.contains(symbol) {
                let i = choose|i: int| 0 <= i < before.len() && before[i] == symbol;
                assert(added[i] == added[added.len() - 1]);
            }
        }
        assert(!s.index.contains_key(added[added.len() - 1]));
        assert(!t.index.contains_key(symbol));
        assert forall|w: int, x: int, y: Seq<char>|
            #[trigger] r.follows(w, y) && #[trigger] r.follows(x, y) implies w == x by {
            if y == symbol {
                assert(!t.follows(w, y) && !t.follows(x, y));
            } else {
                assert(t.follows(w, y) && t.follows(x, y));
            }
        }
    }
}

/// Where the exchange's list names no symbol twice, no symbol is ever followed by two workers.
pub proof fn law_one_worker_per_symbol(s: Slots, latest: Seq<Seq<char>>, gone: Seq<Seq<char>>)
    requires
        s.wf(),
        one_worker_each(s),
        are_gone(s, latest, gone),
        latest.no_duplicates(),
    ensures
        one_worker_each(refreshed(s, latest, gone)),
{
    let t = s.without_all(gone);
    let added = newcomers(s, latest);
    lemma_without_all(s, gone);
    law_without_all_keeps_wf(s, gone);
    lemma_filter_no_duplicates(latest, |symbol: Seq<char>| !s.index.contains_key(symbol));
    assert forall|i: int| 0 <= i < added.len() implies !t.index.contains_key(#[trigger] added[i]) by {
        assert(added.contains(added[i]));
        lemma_newcomers(s, latest, added[i]);
    }
    assert(one_worker_each(t));
    lemma_with_all_one_worker(t, added);
}

} // verus!
