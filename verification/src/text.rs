//! Text: the names of symbols and streams.
use vstd::prelude::*;
use vstd::string::StrSliceExecFns;
use vstd::string::StringExecFns;

verus! {

/// The characters of each string of a list.
pub open spec fn texts(list: Seq<String>) -> Seq<Seq<char>> {
    Seq::new(list.len(), |i: int| list[i]@)
}

/// Whether `suffix` stands at the end of `text`.
pub open spec fn has_suffix(text: Seq<char>, suffix: Seq<char>) -> bool {
    &&& suffix.len() <= text.len()
    &&& text.skip(text.len() - suffix.len()) == suffix
}

/// What `str::to_lowercase` makes of a text.
pub uninterp spec fn lowercase(text: Seq<char>) -> Seq<char>;

/// `str::to_lowercase` maps a text to its Unicode lowercase. The mapping itself is left
/// unsaid: all that is claimed is that it depends on the characters of the text alone.
pub assume_specification[ str::to_lowercase ](text: &str) -> (lower: String)
    ensures
        lower@ == lowercase(text@),
;

/// The stream that carries the best bid and offer of `symbol`.
pub open spec fn stream_of(symbol: Seq<char>) -> Seq<char> {
    lowercase(symbol) + "@bookTicker"@
}

/// The streams of a list of symbols, in the list's order.
pub open spec fn streams_of(symbols: Seq<Seq<char>>) -> Seq<Seq<char>> {
    Seq::new(symbols.len(), |i: int| stream_of(symbols[i]))
}

/// What a list holds after one more item.
pub proof fn lemma_push_contains<A>(list: Seq<A>, item: A)
    ensures
        forall|a: A| #[trigger] list.push(item).contains(a) <==> list.contains(a) || a == item,
{
    assert forall|a: A| #[trigger] list.push(item).contains(a) <==> list.contains(a) || a == item by {
        if list.contains(a) {
            let i = choose|i: int| 0 <= i < list.len() && list[i] == a;
            assert(list.push(item)[i] == a);
        }
        if a == item {
            assert(list.push(item)[list.len() as int] == a);
        }
    }
}

/// What is left of a list when only some items are kept.
pub proof fn lemma_filter_contains<A>(list: Seq<A>, keep: spec_fn(A) -> bool, a: A)
    ensures
        list.filter(keep).contains(a) <==> list.contains(a) && keep(a),
    decreases list.len(),
{
    reveal(Seq::filter);
    if list.len() > 0 {
        let before = list.drop_last();
        lemma_filter_contains(before, keep, a);
        assert(list =~= before.push(list.last()));
        lemma_push_contains(before, list.last());
        lemma_push_contains(before.filter(keep), list.last());
    }
}

/// Whether the two texts are the same.
pub fn same_text(a: &String, b: &str) -> (same: bool)
    ensures
        same == (a@ == b@),
{
    *a == b.to_owned()
}

/// Whether `text` ends in `suffix`.
pub fn ends_in(text: &str, suffix: &str) -> (found: bool)
    ensures
        found == has_suffix(text@, suffix@),
{
    let n: usize = text.unicode_len();
    let k: usize = suffix.unicode_len();
    if n < k {
        return false;
    }
    let from: usize = n - k;
    let mut i: usize = 0;
    while i < k
        invariant
            i <= k,
            n == text@.len(),
            k == suffix@.len(),
            from + k == n,
            forall|j: int| 0 <= j < i ==> text@[from + j] == suffix@[j],
        decreases k - i,
    {
        if text.get_char(from + i) != suffix.get_char(i) {
            assert(text@.skip(from as int)[i as int] != suffix@[i as int]);
            return false;
        }
        i = i + 1;
    }
    assert(text@.skip(from as int) =~= suffix@);
    true
}

/// Whether `text` is one of the strings of `list`.
pub fn list_holds(list: &Vec<String>, text: &String) -> (found: bool)
    ensures
        found == texts(list@).contains(text@),
{
    let mut i: usize = 0;
    while i < list.len()
        invariant
            i <= list.len(),
            forall|j: int| 0 <= j < i ==> list@[j]@ != text@,
        decreases list.len() - i,
    {
        if list[i] == *text {
            assert(texts(list@)[i as int] == text@);
            return true;
        }
        i = i + 1;
    }
    false
}

/// The stream whose lowercase symbol is `lower`.
pub fn book_ticker_stream(lower: String) -> (stream: String)
    ensures
        stream@ == lower@ + "@bookTicker"@,
{
    lower.concat("@bookTicker")
}

/// The stream that carries the best bid and offer of `symbol`.
pub fn stream_name(symbol: &str) -> (stream: String)
    ensures
        stream@ == stream_of(symbol@),
{
    book_ticker_stream(symbol.to_lowercase())
}

/// The streams of a list of symbols, in the list's order.
pub fn stream_names(symbols: &Vec<String>) -> (streams: Vec<String>)
    ensures
        texts(streams@) == streams_of(texts(symbols@)),
{
    let mut streams: Vec<String> = Vec::new();
    let mut i: usize = 0;
    while i < symbols.len()
        invariant
            i <= symbols.len(),
            streams@.len() == i,
            forall|j: int| 0 <= j < i ==> (#[trigger] streams@[j])@ == stream_of(symbols@[j]@),
        decreases symbols.len() - i,
    {
        streams.push(stream_name(symbols[i].as_str()));
        i = i + 1;
    }
    assert(texts(streams@) =~= streams_of(texts(symbols@)));
    streams
}

/// A list of texts has one text for each string, and it is the string's own.
pub proof fn law_texts_are_the_strings(list: Seq<String>)
    ensures
        texts(list).len() == list.len(),
        forall|i: int| 0 <= i < list.len() ==> #[trigger] texts(list)[i] == list[i]@,
{
}

/// A text ends in another if its last characters are the characters of the other, one by one.
pub proof fn law_suffix_is_the_end(text: Seq<char>, suffix: Seq<char>)
    ensures
        has_suffix(text, suffix) <==> suffix.len() <= text.len() && forall|k: int|
            0 <= k < suffix.len() ==> text[text.len() - suffix.len() + k] == #[trigger] suffix[k],
{
    if suffix.len() <= text.len() {
        let end = text.skip(text.len() - suffix.len());
        assert(forall|k: int|
            0 <= k < suffix.len() ==> end[k] == text[text.len() - suffix.len() + k]);
        if forall|k: int|
            0 <= k < suffix.len() ==> text[text.len() - suffix.len() + k] == #[trigger] suffix[k] {
            assert(end =~= suffix);
        }
    }
}

/// The stream of a symbol is the symbol in lowercase, an at sign, and `bookTicker`.
pub proof fn law_name_of_a_stream(symbol: Seq<char>)
    ensures
        stream_of(symbol) == lowercase(symbol) + seq!['@', 'b', 'o', 'o', 'k', 'T', 'i', 'c', 'k', 'e', 'r'],
{
    reveal_strlit("@bookTicker");
    assert("@bookTicker"@ =~= seq!['@', 'b', 'o', 'o', 'k', 'T', 'i', 'c', 'k', 'e', 'r']);
}

/// A list of symbols has as many streams as symbols, and each stream is that of the symbol in
/// its place.
pub proof fn law_one_stream_for_each_symbol(symbols: Seq<Seq<char>>)
    ensures
        streams_of(symbols).len() == symbols.len(),
        forall|i: int|
            0 <= i < symbols.len() ==> #[trigger] streams_of(symbols)[i] == lowercase(symbols[i])
                + seq!['@', 'b', 'o', 'o', 'k', 'T', 'i', 'c', 'k', 'e', 'r'],
{
    assert forall|i: int| 0 <= i < symbols.len() implies #[trigger] streams_of(symbols)[i]
        == lowercase(symbols[i]) + seq!['@', 'b', 'o', 'o', 'k', 'T', 'i', 'c', 'k', 'e', 'r'] by {
        law_name_of_a_stream(symbols[i]);
    }
}

} // verus!
