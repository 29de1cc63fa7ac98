//! Which symbols of the exchange's list are followed, told by the characters of its entries.
use vstd::prelude::*;

use crate::capacity::{accounted, law_whatever_fits_is_followed};
use crate::listing::law_followed_is_wanted;
use crate::orchestrator::{
    are_gone, infos_view, is_wanted, newcomers, refreshed, wanted, SymbolInfo, SymbolInfoView,
};
use crate::replies::{lemma_wanted_each_once, names_each_once};
use crate::slots::{law_with_all_keeps_wf, law_without_all_keeps_wf, Slots};
use crate::text::{law_suffix_is_the_end, lemma_push_contains};

verus! {

/// Whether an entry is one of a symbol that is traded, or about to be.
pub open spec fn is_traded(info: SymbolInfoView) -> bool {
    ||| info.status == seq!['T', 'R', 'A', 'D', 'I', 'N', 'G']
    ||| info.status == seq!['P', 'R', 'E', '_', 'T', 'R', 'A', 'D', 'I', 'N', 'G']
}

/// Whether the last four characters of a symbol are those of one of the two dollar coins.
pub open spec fn is_in_dollars(symbol: Seq<char>) -> bool {
    let n = symbol.len();
    &&& n >= 4
    &&& symbol[n - 4] == 'U'
    &&& symbol[n - 3] == 'S'
    &&& symbol[n - 2] == 'D'
    &&& symbol[n - 1] == 'T' || symbol[n - 1] == 'C'
}

/// Whether an entry is one to follow: traded, in dollars and not reserved.
pub open spec fn is_eligible(reserved: Seq<Seq<char>>, info: SymbolInfoView) -> bool {
    &&& is_traded(info)
    &&& is_in_dollars(info.symbol)
    &&& forall|i: int| 0 <= i < reserved.len() ==> #[trigger] reserved[i] != info.symbol
}

/// The characters of an entry decide.
proof fn lemma_characters_decide(reserved: Seq<Seq<char>>, info: SymbolInfoView)
    ensures
        is_wanted(reserved, info) <==> is_eligible(reserved, info),
{
    reveal_strlit("TRADING");
    reveal_strlit("PRE_TRADING");
    reveal_strlit("USDT");
    reveal_strlit("USDC");
    assert("TRADING"@ =~= seq!['T', 'R', 'A', 'D', 'I', 'N', 'G']);
    assert("PRE_TRADING"@ =~= seq!['P', 'R', 'E', '_', 'T', 'R', 'A', 'D', 'I', 'N', 'G']);
    let t = "USDT"@;
    let c = "USDC"@;
    assert(t[0] == 'U' && t[1] == 'S' && t[2] == 'D' && t[3] == 'T' && t.len() == 4);
    assert(c[0] == 'U' && c[1] == 'S' && c[2] == 'D' && c[3] == 'C' && c.len() == 4);
    law_suffix_is_the_end(info.symbol, t);
    law_suffix_is_the_end(info.symbol, c);
}

/// What is wanted of a list, one entry at a time: of an empty list nothing, and an entry more at
/// its end adds its symbol at the end if it is traded, in dollars and not reserved, and nothing
/// if not.
pub proof fn law_wanted_entry_by_entry(
    reserved: Seq<Seq<char>>,
    infos: Seq<SymbolInfoView>,
    info: SymbolInfoView,
)
    ensures
        wanted(reserved, Seq::empty()).len() == 0,
        wanted(reserved, infos.push(info)) == (if is_eligible(reserved, info) {
            wanted(reserved, infos).push(info.symbol)
        } else {
            wanted(reserved, infos)
        }),
{
    reveal(Seq::filter);
    lemma_characters_decide(reserved, info);
    let pick = |info: SymbolInfoView| is_wanted(reserved, info);
    let name = |info: SymbolInfoView| info.symbol;
    let all = infos.push(info);
    assert(all.drop_last() =~= infos);
    assert(all.last() == info);
    let kept = infos.filter(pick);
    if is_eligible(reserved, info) {
        assert(all.filter(pick) == kept.push(info));
        assert(kept.push(info).map_values(name) =~= kept.map_values(name).push(info.symbol));
    } else {
        assert(all.filter(pick) == kept);
    }
}

/// A symbol is wanted exactly if some entry of the list names it that is traded, in dollars and
/// not reserved.
pub proof fn law_wanted_is_eligible(
    reserved: Seq<Seq<char>>,
    infos: Seq<SymbolInfoView>,
    symbol: Seq<char>,
)
    ensures
        wanted(reserved, infos).contains(symbol) <==> exists|i: int|
            0 <= i < infos.len() && (#[trigger] infos[i]).symbol == symbol && is_eligible(
                reserved,
                infos[i],
            ),
    decreases infos.len(),
{
    if infos.len() == 0 {
        assert(infos =~= Seq::empty());
        law_wanted_entry_by_entry(reserved, infos, SymbolInfoView { symbol, status: symbol });
    } else {
        let before = infos.drop_last();
        let last = infos[infos.len() - 1];
        assert(infos =~= before.push(last));
        law_wanted_entry_by_entry(reserved, before, last);
        law_wanted_is_eligible(reserved, before, symbol);
        lemma_push_contains(wanted(reserved, before), last.symbol);
        if wanted(reserved, before).contains(symbol) {
            let i = choose|i: int|
                0 <= i < before.len() && (#[trigger] before[i]).symbol == symbol && is_eligible(
                    reserved,
                    before[i],
                );
            assert(infos[i] == before[i]);
        }
        if exists|i: int|
            0 <= i < infos.len() && (#[trigger] infos[i]).symbol == symbol && is_eligible(
                reserved,
                infos[i],
            ) {
            let i = choose|i: int|
                0 <= i < infos.len() && (#[trigger] infos[i]).symbol == symbol && is_eligible(
                    reserved,
                    infos[i],
                );
            if i < before.len() {
                assert(before[i] == infos[i]);
            }
        }
    }
}

/// A symbol that is halted, not in dollars, reserved or not on the list has no record after the
/// list was taken in, and nobody follows it, whatever was so before.
pub proof fn law_ineligible_symbol_has_no_record(
    s: Slots,
    infos: Seq<SymbolInfoView>,
    gone: Seq<Seq<char>>,
    symbol: Seq<char>,
    w: int,
)
    requires
        s.wf(),
        are_gone(s, wanted(s.reserved, infos), gone),
        forall|i: int|
            0 <= i < infos.len() && (#[trigger] infos[i]).symbol == symbol ==> !is_eligible(
                s.reserved,
                infos[i],
            ),
    ensures
        !refreshed(s, wanted(s.reserved, infos), gone).index.contains_key(symbol),
        !refreshed(s, wanted(s.reserved, infos), gone).follows(w, symbol),
{
    let latest = wanted(s.reserved, infos);
    law_wanted_is_eligible(s.reserved, infos, symbol);
    law_without_all_keeps_wf(s, gone);
    law_with_all_keeps_wf(s.without_all(gone), newcomers(s, latest));
    let r = refreshed(s, latest, gone);
    if r.index.contains_key(symbol) {
        law_followed_is_wanted(s, latest, gone, symbol);
    }
    if r.follows(w, symbol) {
        assert(r.index.contains_key(symbol));
    }
}

/// A symbol that is traded, in dollars and not reserved has a record after the list was taken
/// in, as long as the list names no symbol twice and there are no more such symbols than records.
pub proof fn law_eligible_symbol_has_a_record(
    s: Slots,
    infos: Seq<SymbolInfoView>,
    gone: Seq<Seq<char>>,
    i: int,
)
    requires
        s.wf(),
        accounted(s),
        are_gone(s, wanted(s.reserved, infos), gone),
        names_each_once(infos),
        wanted(s.reserved, infos).len() <= 2000 - s.first,
        0 <= i < infos.len(),
        is_eligible(s.reserved, infos[i]),
    ensures
        refreshed(s, wanted(s.reserved, infos), gone).index.contains_key(infos[i].symbol),
{
    let latest = wanted(s.reserved, infos);
    let symbol = infos[i].symbol;
    lemma_wanted_each_once(s.reserved, infos);
    law_wanted_is_eligible(s.reserved, infos, symbol);
    law_whatever_fits_is_followed(s, latest, gone);
    assert(latest.contains(symbol));
    assert(latest.to_set().contains(symbol));
    assert(refreshed(s, latest, gone).index.dom().contains(symbol));
}

/// What is new, one symbol of the list at a time: a symbol more at the end of the list is new, at
/// the end, exactly if it has no record.
pub proof fn law_newcomers_one_by_one(s: Slots, latest: Seq<Seq<char>>, symbol: Seq<char>)
    ensures
        newcomers(s, Seq::empty()).len() == 0,
        newcomers(s, latest.push(symbol)) == (if s.index.contains_key(symbol) {
            newcomers(s, latest)
        } else {
            newcomers(s, latest).push(symbol)
        }),
{
    reveal(Seq::filter);
    assert(latest.push(symbol).drop_last() =~= latest);
}

/// What is taken off are the symbols that have a record and are not on the list, once each.
pub proof fn law_gone_are_off_the_list(
    s: Slots,
    latest: Seq<Seq<char>>,
    gone: Seq<Seq<char>>,
    symbol: Seq<char>,
)
    requires
        are_gone(s, latest, gone),
    ensures
        gone.contains(symbol) <==> s.index.contains_key(symbol) && !latest.contains(symbol),
        forall|i: int, j: int| 0 <= i < j < gone.len() ==> #[trigger] gone[i] != #[trigger] gone[j],
{
}

/// What an entry says is what it holds.
pub proof fn law_entry_says_what_it_holds(info: SymbolInfo, infos: Seq<SymbolInfo>)
    ensures
        info@.symbol == info.symbol@,
        info@.status == info.status@,
        infos_view(infos).len() == infos.len(),
        forall|i: int| 0 <= i < infos.len() ==> #[trigger] infos_view(infos)[i] == infos[i]@,
{
}

} // verus!
