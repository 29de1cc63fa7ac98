//! How far the records go: none is ever lost, so whatever fits is followed.
use vstd::prelude::*;
use vstd::seq_lib::seq_to_set_is_finite;
use vstd::set_lib::{lemma_len_subset, lemma_set_disjoint_lens};

use crate::config::MAX_COINS;
use crate::listing::{
    law_followed_is_wanted, law_same_list_changes_nothing, law_wanted_is_followed,
    lemma_filter_no_duplicates, lemma_newcomers, lemma_with_all_places, lemma_without_all, room,
};
use crate::orchestrator::{are_gone, newcomers, refresh_actions, refreshed};
use crate::slots::{law_with_all_keeps_wf, law_without_all_keeps_wf, OrchActionView, Slots};

verus! {

/// Whether the records add up: each one that was handed out and lies in the memory is in use or
/// free.
pub open spec fn accounted(s: Slots) -> bool {
    &&& s.first <= MAX_COINS
    &&& s.free.len() + s.index.dom().len() == (if s.next < MAX_COINS {
        s.next
    } else {
        MAX_COINS as int
    }) - s.first
}

/// At the start the records add up.
pub proof fn law_fresh_adds_up(reserved: Seq<Seq<char>>, first: int, workers: nat)
    requires
        0 <= first <= MAX_COINS,
    ensures
        accounted(Slots::fresh(reserved, first, workers)),
{
}

/// Taking symbols off the list loses no record.
proof fn lemma_without_all_adds_up(s: Slots, gone: Seq<Seq<char>>)
    requires
        s.wf(),
        accounted(s),
    ensures
        accounted(s.without_all(gone)),
    decreases gone.len(),
{
    if gone.len() > 0 {
        let before = gone.drop_last();
        lemma_without_all_adds_up(s, before);
        law_without_all_keeps_wf(s, before);
        let t = s.without_all(before);
        let symbol = gone.last();
        if !t.index.contains_key(symbol) {
            assert(t.index.remove(symbol).dom() =~= t.index.dom());
        }
    }
}

/// Putting new symbols on the list, each once, loses no record.
proof fn lemma_with_all_adds_up(s: Slots, added: Seq<Seq<char>>)
    requires
        s.wf(),
        accounted(s),
        added.no_duplicates(),
        forall|i: int| 0 <= i < added.len() ==> !s.index.contains_key(#[trigger] added[i]),
    ensures
        accounted(s.with_all(added)),
    decreases added.len(),
{
    if added.len() > 0 {
        let before = added.drop_last();
        let symbol = added.last();
        assert(forall|i: int| 0 <= i < before.len() ==> before[i] == added[i]);
        lemma_with_all_adds_up(s, before);
        lemma_with_all_places(s, before);
        law_with_all_keeps_wf(s, before);
        let t = s.with_all(before);
        assert(!before.contains(symbol)) by {
            if before.contains(symbol) {
                let i = choose|i: int| 0 <= i < before.len() && before[i] == symbol;
                assert(added[i] == added[added.len() - 1]);
            }
        }
        assert(!s.index.contains_key(added[added.len() - 1]));
        assert(!t.index.contains_key(symbol));
        if t.free.len() > 0 {
            assert(t.handed_out(t.free[t.free.len() - 1]));
        }
    }
}

/// What a list adds has no duplicates and no record yet.
proof fn lemma_newcomers_are_new(s: Slots, latest: Seq<Seq<char>>, gone: Seq<Seq<char>>)
    requires
        s.wf(),
        latest.no_duplicates(),
    ensures
        newcomers(s, latest).no_duplicates(),
        forall|i: int|
            0 <= i < newcomers(s, latest).len() ==> !s.without_all(gone).index.contains_key(
                #[trigger] newcomers(s, latest)[i],
            ),
{
    let added = newcomers(s, latest);
    lemma_without_all(s, gone);
    lemma_filter_no_duplicates(latest, |symbol: Seq<char>| !s.index.contains_key(symbol));
    assert forall|i: int| 0 <= i < added.len() implies !s.without_all(gone).index.contains_key(
        #[trigger] added[i],
    ) by {
        assert(added.contains(added[i]));
        lemma_newcomers(s, latest, added[i]);
    }
}

/// However often symbols come and go, the records add up, as long as no list names a symbol
/// twice.
pub proof fn law_records_add_up(s: Slots, latest: Seq<Seq<char>>, gone: Seq<Seq<char>>)
    requires
        s.wf(),
        accounted(s),
        are_gone(s, latest, gone),
        latest.no_duplicates(),
    ensures
        accounted(refreshed(s, latest, gone)),
{
    lemma_without_all_adds_up(s, gone);
    law_without_all_keeps_wf(s, gone);
    lemma_newcomers_are_new(s, latest, gone);
    lemma_with_all_adds_up(s.without_all(gone), newcomers(s, latest));
}

/// The symbols that stay and the symbols that are new are the symbols of the list.
proof fn lemma_list_is_split(s: Slots, latest: Seq<Seq<char>>, gone: Seq<Seq<char>>)
    requires
        s.wf(),
        are_gone(s, latest, gone),
        latest.no_duplicates(),
    ensures
        newcomers(s, latest).len() + s.without_all(gone).index.dom().len() <= latest.len(),
{
    let t = s.without_all(gone);
    let added = newcomers(s, latest);
    law_without_all_keeps_wf(s, gone);
    lemma_without_all(s, gone);
    lemma_newcomers_are_new(s, latest, gone);
    added.unique_seq_to_set();
    latest.unique_seq_to_set();
    seq_to_set_is_finite(added);
    seq_to_set_is_finite(latest);
    lemma_set_disjoint_lens(added.to_set(), t.index.dom());
    assert(added.to_set().disjoint(t.index.dom())) by {
        assert forall|x: Seq<char>| added.to_set().contains(x) implies !t.index.dom().contains(x) by {
            let i = choose|i: int| 0 <= i < added.len() && added[i] == x;
            assert(!t.index.contains_key(added[i]));
        }
    }
    assert((added.to_set() + t.index.dom()).subset_of(latest.to_set())) by {
        assert forall|x: Seq<char>| (added.to_set() + t.index.dom()).contains(
            x,
        ) implies latest.to_set().contains(x) by {
            lemma_newcomers(s, latest, x);
            if added.to_set().contains(x) {
                assert(added.contains(x));
            } else {
                assert(t.index.contains_key(x));
                assert(!gone.contains(x));
            }
            assert(latest.contains(x));
        }
    }
    lemma_len_subset(added.to_set() + t.index.dom(), latest.to_set());
}

/// Whatever fits is followed: a list that names no symbol twice, and no more symbols than there
/// are records, leaves exactly its symbols with a record, however often symbols came and went
/// before.
pub proof fn law_whatever_fits_is_followed(
    s: Slots,
    latest: Seq<Seq<char>>,
    gone: Seq<Seq<char>>,
)
    requires
        s.wf(),
        accounted(s),
        are_gone(s, latest, gone),
        latest.no_duplicates(),
        latest.len() <= MAX_COINS - s.first,
    ensures
        newcomers(s, latest).len() <= room(s.without_all(gone)),
        refreshed(s, latest, gone).index.dom() == latest.to_set(),
{
    lemma_without_all_adds_up(s, gone);
    law_without_all_keeps_wf(s, gone);
    lemma_list_is_split(s, latest, gone);
    let r = refreshed(s, latest, gone);
    assert forall|x: Seq<char>| r.index.dom().contains(x) <==> latest.to_set().contains(x) by {
        if latest.contains(x) {
            law_wanted_is_followed(s, latest, gone, x);
        }
        if r.index.contains_key(x) {
            law_followed_is_wanted(s, latest, gone, x);
        }
    }
    assert(r.index.dom() =~= latest.to_set());
}

/// A list with the same symbols again, in whatever order, does nothing: no command is sent and
/// no byte is stored. All that is asked of the symbols is that they fit.
pub proof fn law_same_symbols_do_nothing(
    s: Slots,
    latest: Seq<Seq<char>>,
    gone: Seq<Seq<char>>,
    again: Seq<Seq<char>>,
    gone_again: Seq<Seq<char>>,
)
    requires
        s.wf(),
        accounted(s),
        are_gone(s, latest, gone),
        latest.no_duplicates(),
        latest.len() <= MAX_COINS - s.first,
        again.to_set() == latest.to_set(),
        are_gone(refreshed(s, latest, gone), again, gone_again),
    ensures
        refreshed(refreshed(s, latest, gone), again, gone_again) == refreshed(s, latest, gone),
        refresh_actions(refreshed(s, latest, gone), again, gone_again) == Seq::<
            OrchActionView,
        >::empty(),
{
    let r = refreshed(s, latest, gone);
    law_whatever_fits_is_followed(s, latest, gone);
    law_without_all_keeps_wf(s, gone);
    law_with_all_keeps_wf(s.without_all(gone), newcomers(s, latest));
    assert forall|x: Seq<char>| #[trigger] again.contains(x) <==> r.index.contains_key(x) by {
        assert(again.to_set().contains(x) <==> again.contains(x));
        assert(r.index.dom().contains(x) <==> latest.to_set().contains(x));
    }
    law_same_list_changes_nothing(r, again, gone_again);
}

} // verus!
