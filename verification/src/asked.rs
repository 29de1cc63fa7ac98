//! Which streams are asked for, and which are given up.
use vstd::prelude::*;

use crate::command::{commands_for, law_every_stream_has_its_place};
use crate::pool::{law_all_are_named_once, names_all, symbols_of, Registry};
use crate::text::{law_one_stream_for_each_symbol, lowercase, streams_of};

verus! {

/// Whether command number `k` of those for a list of symbols has, in place number `j`, the
/// stream of `symbol`, and is one of that method with the number `id`.
pub open spec fn names_stream(
    method: Seq<char>,
    symbols: Seq<Seq<char>>,
    id: u64,
    symbol: Seq<char>,
    k: int,
    j: int,
) -> bool {
    let commands = commands_for(method, streams_of(symbols), id);
    &&& 0 <= k < commands.len()
    &&& 0 <= j < commands[k].params.len()
    &&& commands[k].method == method
    &&& commands[k].id == id
    &&& commands[k].params[j] == lowercase(symbol) + seq!['@', 'b', 'o', 'o', 'k', 'T', 'i', 'c', 'k', 'e', 'r']
}

/// The commands for a list of symbols name the stream of each symbol of the list, the first
/// before the second and so on, and nothing else: as many streams as there are symbols.
pub proof fn law_commands_are_for_the_symbols(
    method: Seq<char>,
    symbols: Seq<Seq<char>>,
    id: u64,
    i: int,
)
    requires
        0 <= i < symbols.len(),
    ensures
        names_stream(method, symbols, id, symbols[i], i / 50, i % 50),
        ({
            let commands = commands_for(method, streams_of(symbols), id);
            50 * (commands.len() - 1) + commands.last().params.len() == symbols.len()
        }),
{
    let streams = streams_of(symbols);
    law_one_stream_for_each_symbol(symbols);
    law_every_stream_has_its_place(method, streams, id);
    let commands = commands_for(method, streams, id);
    assert(streams[i] == lowercase(symbols[i]) + seq!['@', 'b', 'o', 'o', 'k', 'T', 'i', 'c', 'k', 'e', 'r']);
    assert(commands[i / 50].params[i % 50] == streams[i]);
    assert(commands[commands.len() - 1].params.len() == streams.len() - 50 * (commands.len() - 1));
    assert(commands[i / 50].method == method);
}

/// After a reconnect every symbol that a worker follows is asked for: some subscribe command
/// names its stream. A replacement connection is asked for it too.
pub proof fn law_every_followed_symbol_is_asked_for(
    registry: Registry,
    symbols: Seq<Seq<char>>,
    symbol: Seq<char>,
)
    requires
        names_all(registry, symbols),
        registry.contains_key(symbol),
    ensures
        exists|k: int, j: int| #[trigger]
            names_stream("SUBSCRIBE"@, symbols, 1, symbol, k, j),
        "SUBSCRIBE"@ == seq!['S', 'U', 'B', 'S', 'C', 'R', 'I', 'B', 'E'],
        streams_of(symbols).contains(lowercase(symbol) + seq!['@', 'b', 'o', 'o', 'k', 'T', 'i', 'c', 'k', 'e', 'r']),
{
    law_all_are_named_once(registry, symbols, symbol);
    let i = choose|i: int| 0 <= i < symbols.len() && #[trigger] symbols[i] == symbol;
    reveal_strlit("SUBSCRIBE");
    assert("SUBSCRIBE"@ =~= seq!['S', 'U', 'B', 'S', 'C', 'R', 'I', 'B', 'E']);
    law_commands_are_for_the_symbols("SUBSCRIBE"@, symbols, 1, i);
    law_one_stream_for_each_symbol(symbols);
    assert(streams_of(symbols)[i] == lowercase(symbol) + seq!['@', 'b', 'o', 'o', 'k', 'T', 'i', 'c', 'k', 'e', 'r']);
}

/// After a reconnect nothing else is asked for: every stream that a command names is that of a
/// symbol which the worker follows.
pub proof fn law_only_followed_symbols_are_asked_for(
    registry: Registry,
    symbols: Seq<Seq<char>>,
    k: int,
    j: int,
)
    requires
        names_all(registry, symbols),
        0 <= k < commands_for("SUBSCRIBE"@, streams_of(symbols), 1).len(),
        0 <= j < commands_for("SUBSCRIBE"@, streams_of(symbols), 1)[k].params.len(),
    ensures
        exists|symbol: Seq<char>| #[trigger]
            registry.contains_key(symbol) && commands_for(
                "SUBSCRIBE"@,
                streams_of(symbols),
                1,
            )[k].params[j] == lowercase(symbol) + seq!['@', 'b', 'o', 'o', 'k', 'T', 'i', 'c', 'k', 'e', 'r'],
{
    let streams = streams_of(symbols);
    let commands = commands_for("SUBSCRIBE"@, streams, 1);
    law_every_stream_has_its_place("SUBSCRIBE"@, streams, 1);
    law_one_stream_for_each_symbol(symbols);
    let i = 50 * k + j;
    assert(commands[k].params.len() <= 50);
    assert(0 <= i < streams.len());
    assert(i / 50 == k && i % 50 == j);
    assert(commands[i / 50].params[i % 50] == streams[i]);
    law_all_are_named_once(registry, symbols, symbols[i]);
    assert(registry.contains_key(symbols[i]));
}

/// A worker that is told to follow symbols asks for the stream of each, and one that is told to
/// drop symbols gives up the stream of each, whatever it follows.
pub proof fn law_told_symbols_are_asked_for_or_given_up(
    placed: Seq<(Seq<char>, usize)>,
    dropped: Seq<Seq<char>>,
    i: int,
)
    ensures
        0 <= i < placed.len() ==> names_stream(
            "SUBSCRIBE"@,
            symbols_of(placed),
            1,
            placed[i].0,
            i / 50,
            i % 50,
        ),
        0 <= i < dropped.len() ==> names_stream(
            "UNSUBSCRIBE"@,
            dropped,
            1,
            dropped[i],
            i / 50,
            i % 50,
        ),
        "SUBSCRIBE"@ == seq!['S', 'U', 'B', 'S', 'C', 'R', 'I', 'B', 'E'],
        "UNSUBSCRIBE"@ == seq!['U', 'N', 'S', 'U', 'B', 'S', 'C', 'R', 'I', 'B', 'E'],
{
    reveal_strlit("SUBSCRIBE");
    reveal_strlit("UNSUBSCRIBE");
    assert("SUBSCRIBE"@ =~= seq!['S', 'U', 'B', 'S', 'C', 'R', 'I', 'B', 'E']);
    assert("UNSUBSCRIBE"@ =~= seq!['U', 'N', 'S', 'U', 'B', 'S', 'C', 'R', 'I', 'B', 'E']);
    if 0 <= i < placed.len() {
        law_commands_are_for_the_symbols("SUBSCRIBE"@, symbols_of(placed), 1, i);
    }
    if 0 <= i < dropped.len() {
        law_commands_are_for_the_symbols("UNSUBSCRIBE"@, dropped, 1, i);
    }
}

} // verus!
