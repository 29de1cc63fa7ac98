//! What holds after any number of lists of the exchange, one after the other.
use vstd::prelude::*;

use crate::capacity::{
    accounted, law_fresh_adds_up, law_records_add_up, law_whatever_fits_is_followed,
};
use crate::config::{MAX_COINS, RECORD_SIZE};
use crate::delivery::{agrees, law_workers_follow_the_books, lemma_told_concat, told};
use crate::listing::{
    balanced, law_balance_is_kept, law_one_worker_per_symbol, 
    one_worker_each,
};
use crate::orchestrator::{
    are_gone, is_wanted, newcomers, refresh_actions, refreshed, wanted, SymbolInfoView,
};
use crate::pool::Registry;
use crate::slots::{
    law_fresh_is_wf, law_least_loaded, law_with_all_keeps_wf, law_without_all_keeps_wf,
    OrchActionView, Slots,
};
use crate::text::lemma_filter_contains;

verus! {

/// A list of the exchange, and the symbols that it takes off, in the order in which that is
/// done.
pub struct Reply {
    pub infos: Seq<SymbolInfoView>,
    pub gone: Seq<Seq<char>>,
}

/// Whether a list names each symbol once.
pub open spec fn names_each_once(infos: Seq<SymbolInfoView>) -> bool {
    forall|i: int, j: int|
        0 <= i < j < infos.len() ==> (#[trigger] infos[i]).symbol != (#[trigger] infos[j]).symbol
}

/// The bookkeeping after a number of lists.
pub open spec fn books_after(s: Slots, replies: Seq<Reply>) -> Slots
    decreases replies.len(),
{
    if replies.len() == 0 {
        s
    } else {
        let before = books_after(s, replies.drop_last());
        refreshed(before, wanted(s.reserved, replies.last().infos), replies.last().gone)
    }
}

/// Everything that a number of lists brings about.
pub open spec fn actions_after(s: Slots, replies: Seq<Reply>) -> Seq<OrchActionView>
    decreases replies.len(),
{
    if replies.len() == 0 {
        Seq::empty()
    } else {
        actions_after(s, replies.drop_last()) + refresh_actions(
            books_after(s, replies.drop_last()),
            wanted(s.reserved, replies.last().infos),
            replies.last().gone,
        )
    }
}

/// Whether the lists can come one after the other: none names a symbol twice, and each takes off
/// what it no longer holds.
pub open spec fn can_come(s: Slots, replies: Seq<Reply>) -> bool
    decreases replies.len(),
{
    replies.len() > 0 ==> {
        &&& can_come(s, replies.drop_last())
        &&& names_each_once(replies.last().infos)
        &&& are_gone(
            books_after(s, replies.drop_last()),
            wanted(s.reserved, replies.last().infos),
            replies.last().gone,
        )
    }
}

/// A list without duplicates stays so when some items are kept.
proof fn lemma_kept_each_once(infos: Seq<SymbolInfoView>, keep: spec_fn(SymbolInfoView) -> bool)
    requires
        names_each_once(infos),
    ensures
        names_each_once(infos.filter(keep)),
    decreases infos.len(),
{
    reveal(Seq::filter);
    if infos.len() > 0 {
        let before = infos.drop_last();
        assert(forall|i: int| 0 <= i < before.len() ==> before[i] == infos[i]);
        lemma_kept_each_once(before, keep);
        let kept = before.filter(keep);
        let last = infos[infos.len() - 1];
        if keep(last) {
            let all = infos.filter(keep);
            assert(all == kept.push(last));
            assert forall|i: int, j: int| 0 <= i < j < all.len() implies (#[trigger] all[i]).symbol
                != (#[trigger] all[j]).symbol by {
                if j < kept.len() {
                    assert(all[i] == kept[i] && all[j] == kept[j]);
                } else {
                    assert(all[i] == kept[i]);
                    assert(kept.contains(kept[i]));
                    lemma_filter_contains(before, keep, kept[i]);
                    let k = choose|k: int| 0 <= k < before.len() && before[k] == kept[i];
                    assert(infos[k].symbol != infos[infos.len() - 1].symbol);
                }
            }
        }
    }
}

/// What is wanted of a list that names each symbol once has no duplicates.
pub proof fn lemma_wanted_each_once(reserved: Seq<Seq<char>>, infos: Seq<SymbolInfoView>)
    requires
        names_each_once(infos),
    ensures
        wanted(reserved, infos).no_duplicates(),
{
    let pick = |info: SymbolInfoView| is_wanted(reserved, info);
    lemma_kept_each_once(infos, pick);
    let kept = infos.filter(pick);
    let latest = wanted(reserved, infos);
    assert forall|i: int, j: int|
        0 <= i < latest.len() && 0 <= j < latest.len() && i != j implies latest[i] != latest[j] by {
        assert(latest[i] == kept[i].symbol && latest[j] == kept[j].symbol);
        if i < j {
            assert(kept[i].symbol != kept[j].symbol);
        } else {
            assert(kept[j].symbol != kept[i].symbol);
        }
    }
}

/// Whatever lists come, the books stay sound: they are well formed, no symbol is followed by two
/// workers, and the records add up.
pub proof fn law_books_stay_sound(s: Slots, replies: Seq<Reply>)
    requires
        s.wf(),
        one_worker_each(s),
        accounted(s),
        can_come(s, replies),
    ensures
        books_after(s, replies).wf(),
        one_worker_each(books_after(s, replies)),
        accounted(books_after(s, replies)),
        books_after(s, replies).first == s.first,
        books_after(s, replies).reserved == s.reserved,
        books_after(s, replies).workers.len() == s.workers.len(),
    decreases replies.len(),
{
    if replies.len() > 0 {
        law_books_stay_sound(s, replies.drop_last());
        let b = books_after(s, replies.drop_last());
        let latest = wanted(s.reserved, replies.last().infos);
        let gone = replies.last().gone;
        lemma_wanted_each_once(s.reserved, replies.last().infos);
        law_one_worker_per_symbol(b, latest, gone);
        law_records_add_up(b, latest, gone);
        law_without_all_keeps_wf(b, gone);
        law_with_all_keeps_wf(b.without_all(gone), newcomers(b, latest));
    }
}

/// The start is sound.
proof fn lemma_fresh_is_sound(reserved: Seq<Seq<char>>, first: int, workers: nat)
    requires
        0 <= first <= MAX_COINS,
        0 < workers,
    ensures
        Slots::fresh(reserved, first, workers).wf(),
        one_worker_each(Slots::fresh(reserved, first, workers)),
        accounted(Slots::fresh(reserved, first, workers)),
{
    let s = Slots::fresh(reserved, first, workers);
    law_fresh_is_wf(reserved, first, workers);
    law_fresh_adds_up(reserved, first, workers);
    assert(forall|w: int, x: Seq<char>| !(#[trigger] s.follows(w, x)));
}

/// What a worker follows that was told all this, and followed nothing before.
pub open spec fn followed_by(s: Slots, replies: Seq<Reply>, w: int) -> Registry {
    told(Map::empty(), actions_after(s, replies), w)
}

/// Workers that followed nothing follow what the books say.
proof fn lemma_followed_by_agrees(
    reserved: Seq<Seq<char>>,
    first: int,
    workers: nat,
    replies: Seq<Reply>,
    w: int,
)
    requires
        0 <= first <= MAX_COINS,
        0 <= w < workers,
        can_come(Slots::fresh(reserved, first, workers), replies),
    ensures
        ({
            let s = Slots::fresh(reserved, first, workers);
            agrees(followed_by(s, replies, w), books_after(s, replies).workers[w])
        }),
    decreases replies.len(),
{
    let s = Slots::fresh(reserved, first, workers);
    lemma_fresh_is_sound(reserved, first, workers);
    if replies.len() == 0 {
        assert(followed_by(s, replies, w).dom() =~= s.workers[w].dom());
    } else {
        let before = replies.drop_last();
        lemma_followed_by_agrees(reserved, first, workers, before, w);
        law_books_stay_sound(s, before);
        let b = books_after(s, before);
        let latest = wanted(s.reserved, replies.last().infos);
        let gone = replies.last().gone;
        lemma_told_concat(
            Map::empty(),
            actions_after(s, before),
            refresh_actions(b, latest, gone),
            w,
        );
        law_workers_follow_the_books(b, latest, gone, followed_by(s, before, w), w);
    }
}

/// Whatever lists came before, the symbols that the workers follow after a list are exactly
/// those of the list that are wanted, if these are no more than there are records: none is left
/// out, none else is kept, and each is followed by one worker.
pub proof fn law_followed_after_is_wanted(
    reserved: Seq<Seq<char>>,
    first: int,
    workers: nat,
    replies: Seq<Reply>,
    symbol: Seq<char>,
)
    requires
        0 <= first <= MAX_COINS,
        0 < workers,
        can_come(Slots::fresh(reserved, first, workers), replies),
        replies.len() > 0,
        wanted(reserved, replies.last().infos).len() <= MAX_COINS - first,
    ensures
        ({
            let s = Slots::fresh(reserved, first, workers);
            &&& wanted(reserved, replies.last().infos).contains(symbol) <==> exists|w: int|
                0 <= w < workers && #[trigger] followed_by(s, replies, w).contains_key(symbol)
            &&& forall|w: int, x: int|
                0 <= w < workers && 0 <= x < workers && #[trigger] followed_by(
                    s,
                    replies,
                    w,
                ).contains_key(symbol) && #[trigger] followed_by(s, replies, x).contains_key(symbol)
                    ==> w == x
        }),
{
    let s = Slots::fresh(reserved, first, workers);
    let before = replies.drop_last();
    let latest = wanted(reserved, replies.last().infos);
    lemma_fresh_is_sound(reserved, first, workers);
    law_books_stay_sound(s, before);
    law_books_stay_sound(s, replies);
    lemma_wanted_each_once(reserved, replies.last().infos);
    law_whatever_fits_is_followed(books_after(s, before), latest, replies.last().gone);
    let r = books_after(s, replies);
    assert(r.index.contains_key(symbol) <==> latest.to_set().contains(symbol));
    assert(latest.to_set().contains(symbol) <==> latest.contains(symbol));
    assert forall|w: int| 0 <= w < workers implies (#[trigger] followed_by(s, replies, w).contains_key(
        symbol,
    ) <==> r.follows(w, symbol)) by {
        lemma_followed_by_agrees(reserved, first, workers, replies, w);
        assert(followed_by(s, replies, w).dom().contains(symbol) <==> r.workers[w].dom().contains(
            symbol,
        ));
    }
    if latest.contains(symbol) {
        let w = choose|w: int|
            #![trigger r.follows(w, symbol)]
            r.follows(w, symbol) && r.workers[w][symbol] == r.index[symbol];
        assert(followed_by(s, replies, w).contains_key(symbol));
    }
}

/// Whatever lists came, the records of the symbols that the workers follow start at different
/// multiples of `RECORD_SIZE`, behind the records that are not handed out here and before the
/// end of the memory.
pub proof fn law_followed_after_are_apart(
    reserved: Seq<Seq<char>>,
    first: int,
    workers: nat,
    replies: Seq<Reply>,
    w: int,
    symbol: Seq<char>,
    x: int,
    other: Seq<char>,
)
    requires
        0 <= first <= MAX_COINS,
        can_come(Slots::fresh(reserved, first, workers), replies),
        0 <= w < workers,
        0 <= x < workers,
        followed_by(Slots::fresh(reserved, first, workers), replies, w).contains_key(symbol),
        followed_by(Slots::fresh(reserved, first, workers), replies, x).contains_key(other),
    ensures
        ({
            let s = Slots::fresh(reserved, first, workers);
            let a = followed_by(s, replies, w)[symbol].0;
            let b = followed_by(s, replies, x)[other].0;
            &&& a as int % RECORD_SIZE as int == 0
            &&& first * RECORD_SIZE <= a < MAX_COINS * RECORD_SIZE
            &&& a == b ==> w == x && symbol == other
        }),
{
    let s = Slots::fresh(reserved, first, workers);
    lemma_fresh_is_sound(reserved, first, workers);
    law_books_stay_sound(s, replies);
    lemma_followed_by_agrees(reserved, first, workers, replies, w);
    lemma_followed_by_agrees(reserved, first, workers, replies, x);
    let r = books_after(s, replies);
    assert(r.workers[w].dom().contains(symbol));
    assert(r.workers[x].dom().contains(other));
    assert(r.follows(w, symbol) && r.follows(x, other));
    assert(r.handed_out(r.workers[w][symbol]));
    assert(r.handed_out(r.workers[x][other]));
}

/// Whatever lists came, no more symbols have a record than there are records.
pub proof fn law_no_more_than_records(
    reserved: Seq<Seq<char>>,
    first: int,
    workers: nat,
    replies: Seq<Reply>,
)
    requires
        0 <= first <= MAX_COINS,
        0 < workers,
        can_come(Slots::fresh(reserved, first, workers), replies),
    ensures
        books_after(Slots::fresh(reserved, first, workers), replies).index.dom().len() <= MAX_COINS
            - first,
{
    lemma_fresh_is_sound(reserved, first, workers);
    law_books_stay_sound(Slots::fresh(reserved, first, workers), replies);
}

/// As long as no symbol was taken off the list, the workers are level: none follows two symbols
/// more than another.
pub proof fn law_level_without_delistings(
    reserved: Seq<Seq<char>>,
    first: int,
    workers: nat,
    replies: Seq<Reply>,
)
    requires
        0 <= first <= MAX_COINS,
        0 < workers,
        can_come(Slots::fresh(reserved, first, workers), replies),
        forall|i: int| 0 <= i < replies.len() ==> (#[trigger] replies[i]).gone.len() == 0,
    ensures
        balanced(books_after(Slots::fresh(reserved, first, workers), replies)),
    decreases replies.len(),
{
    let s = Slots::fresh(reserved, first, workers);
    if replies.len() > 0 {
        let before = replies.drop_last();
        assert(forall|i: int| 0 <= i < before.len() ==> before[i] == replies[i]);
        law_level_without_delistings(reserved, first, workers, before);
        lemma_fresh_is_sound(reserved, first, workers);
        law_books_stay_sound(s, before);
        let b = books_after(s, before);
        assert(replies[replies.len() - 1].gone.len() == 0);
        law_balance_is_kept(b, newcomers(b, wanted(s.reserved, replies.last().infos)));
    }
}

/// Every new symbol that gets a record goes, in the order of the list, to a worker that follows
/// the fewest symbols at that moment, and among several to the first.
pub proof fn law_new_symbol_goes_to_the_least_loaded(s: Slots, added: Seq<Seq<char>>, i: int, w: int)
    requires
        s.wf(),
        0 <= i < added.len(),
        0 <= w < s.workers.len(),
    ensures
        ({
            let then = s.with_all(added.take(i));
            then.placement(added[i]) matches Some(p) ==> {
                &&& 0 <= p.worker < s.workers.len()
                &&& then.workers[p.worker].dom().len() <= then.workers[w].dom().len()
                &&& w < p.worker ==> then.workers[p.worker].dom().len()
                    < then.workers[w].dom().len()
                &&& s.with_all(added.take(i + 1)).follows(p.worker, added[i])
            }
        }),
{
    let then = s.with_all(added.take(i));
    law_with_all_keeps_wf(s, added.take(i));
    law_least_loaded(then.workers, then.workers.len());
    assert(added.take(i + 1).drop_last() =~= added.take(i));
}

} // verus!
