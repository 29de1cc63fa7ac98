//! Commands: to the exchange, and from the orchestrator to the workers.
use vstd::prelude::*;

use crate::config::STREAMS_PER_COMMAND;
use crate::text::texts;

verus! {

/// A command to the exchange.
#[derive(Debug)]
pub struct WsCommand {
    /// `SUBSCRIBE` or `UNSUBSCRIBE`.
    pub method: String,
    /// The streams that the command is about.
    pub params: Vec<String>,
    /// The number that the exchange's answer carries.
    pub id: u64,
}

/// What a `WsCommand` says.
pub struct WsCommandView {
    pub method: Seq<char>,
    pub params: Seq<Seq<char>>,
    pub id: u64,
}

impl View for WsCommand {
    type V = WsCommandView;

    open spec fn view(&self) -> WsCommandView {
        WsCommandView { method: self.method@, params: texts(self.params@), id: self.id }
    }
}

/// What a list of commands to the exchange says.
pub open spec fn ws_commands_view(commands: Seq<WsCommand>) -> Seq<WsCommandView> {
    Seq::new(commands.len(), |i: int| commands[i]@)
}

/// A command to a worker.
#[derive(Debug)]
pub enum WorkerCmd {
    /// Follow these symbols, each in the record at the byte that stands with it.
    Subscribe(Vec<(String, usize)>),
    /// Follow these symbols no more.
    Unsubscribe(Vec<String>),
    /// Move to a new connection without a gap.
    PlannedReconnect,
}

/// What a `WorkerCmd` says.
pub enum WorkerCmdView {
    /// Symbols and the bytes at which their records start.
    Subscribe(Seq<(Seq<char>, usize)>),
    /// Symbols.
    Unsubscribe(Seq<Seq<char>>),
    /// Move to a new connection.
    PlannedReconnect,
}

/// The symbols of a list and the bytes at which their records start.
pub open spec fn placed_texts(list: Seq<(String, usize)>) -> Seq<(Seq<char>, usize)> {
    Seq::new(list.len(), |i: int| (list[i].0@, list[i].1))
}

impl View for WorkerCmd {
    type V = WorkerCmdView;

    open spec fn view(&self) -> WorkerCmdView {
        match *self {
            WorkerCmd::Subscribe(list) => WorkerCmdView::Subscribe(placed_texts(list@)),
            WorkerCmd::Unsubscribe(list) => WorkerCmdView::Unsubscribe(texts(list@)),
            WorkerCmd::PlannedReconnect => WorkerCmdView::PlannedReconnect,
        }
    }
}

/// How many commands it takes to name `n` streams.
pub open spec fn chunk_count(n: nat) -> nat {
    ((n + STREAMS_PER_COMMAND - 1) / STREAMS_PER_COMMAND as int) as nat
}

/// The streams that command number `k` names.
pub open spec fn chunk<T>(streams: Seq<T>, k: int) -> Seq<T> {
    let end = (k + 1) * STREAMS_PER_COMMAND;
    streams.subrange(
        k * STREAMS_PER_COMMAND,
        if end <= streams.len() {
            end
        } else {
            streams.len() as int
        },
    )
}

/// The commands that name all of `streams`.
pub open spec fn commands_for(
    method: Seq<char>,
    streams: Seq<Seq<char>>,
    id: u64,
) -> Seq<WsCommandView> {
    Seq::new(
        chunk_count(streams.len()),
        |k: int| WsCommandView { method, params: chunk(streams, k), id },
    )
}

/// How many commands it takes to name `n` streams.
pub fn count_chunks(n: usize) -> (count: usize)
    ensures
        count == chunk_count(n as nat),
{
    if n % STREAMS_PER_COMMAND == 0 {
        n / STREAMS_PER_COMMAND
    } else {
        n / STREAMS_PER_COMMAND + 1
    }
}

/// Command number `k` of those that name all of `streams`.
pub fn chunk_command(method: &str, streams: &Vec<String>, k: usize, id: u64) -> (command: WsCommand)
    requires
        k < chunk_count(streams@.len()),
    ensures
        command@ == (WsCommandView { method: method@, params: chunk(texts(streams@), k as int), id }),
{
    let n: usize = streams.len();
    let start: usize = k * STREAMS_PER_COMMAND;
    let end: usize = if n - start < STREAMS_PER_COMMAND {
        n
    } else {
        start + STREAMS_PER_COMMAND
    };
    let mut params: Vec<String> = Vec::new();
    let mut i: usize = start;
    while i < end
        invariant
            start <= i <= end <= streams.len(),
            params@.len() == i - start,
            forall|j: int| 0 <= j < i - start ==> #[trigger] params@[j] == streams@[start + j],
        decreases end - i,
    {
        params.push(streams[i].clone());
        i = i + 1;
    }
    assert(texts(params@) =~= chunk(texts(streams@), k as int));
    WsCommand { method: method.to_owned(), params, id }
}

/// The commands that name all of `streams`, in order, none more than `STREAMS_PER_COMMAND`.
pub fn chunked_commands(method: &str, streams: &Vec<String>, id: u64) -> (commands: Vec<WsCommand>)
    ensures
        ws_commands_view(commands@) == commands_for(method@, texts(streams@), id),
{
    let count: usize = count_chunks(streams.len());
    let mut commands: Vec<WsCommand> = Vec::new();
    let mut k: usize = 0;
    while k < count
        invariant
            k <= count,
            count == chunk_count(streams@.len()),
            commands@.len() == k,
            forall|j: int|
                0 <= j < k ==> (#[trigger] commands@[j])@ == (WsCommandView {
                    method: method@,
                    params: chunk(texts(streams@), j),
                    id,
                }),
        decreases count - k,
    {
        commands.push(chunk_command(method, streams, k, id));
        k = k + 1;
    }
    assert(ws_commands_view(commands@) =~= commands_for(method@, texts(streams@), id));
    commands
}

/// The first `k` chunks, one after the other, are the beginning of the list.
proof fn lemma_chunks_so_far<T>(streams: Seq<T>, k: nat)
    requires
        k <= chunk_count(streams.len()),
    ensures
        Seq::new(k, |i: int| chunk(streams, i)).flatten() == streams.take(
            if k * STREAMS_PER_COMMAND <= streams.len() {
                k * STREAMS_PER_COMMAND
            } else {
                streams.len() as int
            },
        ),
    decreases k,
{
    let chunks = Seq::new(k, |i: int| chunk(streams, i));
    if k == 0 {
        assert(chunks.flatten() =~= streams.take(0));
    } else {
        let before = Seq::new((k - 1) as nat, |i: int| chunk(streams, i));
        lemma_chunks_so_far(streams, (k - 1) as nat);
        assert(chunks =~= before.push(chunk(streams, k - 1)));
        before.lemma_flatten_push(chunk(streams, k - 1));
        assert(chunks.flatten() =~= streams.take(
            if k * STREAMS_PER_COMMAND <= streams.len() {
                k * STREAMS_PER_COMMAND
            } else {
                streams.len() as int
            },
        ));
    }
}

/// The commands name every stream once and in order: their lists, one after the other, are
/// the list of streams.
pub proof fn law_commands_name_every_stream(method: Seq<char>, streams: Seq<Seq<char>>, id: u64)
    ensures
        Seq::new(
            commands_for(method, streams, id).len(),
            |k: int| commands_for(method, streams, id)[k].params,
        ).flatten() == streams,
{
    let count = chunk_count(streams.len());
    lemma_chunks_so_far(streams, count);
    assert(Seq::new(
        commands_for(method, streams, id).len(),
        |k: int| commands_for(method, streams, id)[k].params,
    ) =~= Seq::new(count, |i: int| chunk(streams, i)));
    assert(streams.take(streams.len() as int) =~= streams);
}

/// No command is empty, and none names more than `STREAMS_PER_COMMAND` streams.
pub proof fn law_commands_are_bounded(method: Seq<char>, streams: Seq<Seq<char>>, id: u64, k: int)
    requires
        0 <= k < commands_for(method, streams, id).len(),
    ensures
        0 < commands_for(method, streams, id)[k].params.len() <= STREAMS_PER_COMMAND,
{
}

/// What a command to the exchange says is what it holds.
pub proof fn law_command_says_what_it_holds(command: WsCommand, commands: Seq<WsCommand>)
    ensures
        command@.method == command.method@,
        command@.id == command.id,
        command@.params.len() == command.params@.len(),
        forall|i: int|
            0 <= i < command.params@.len() ==> #[trigger] command@.params[i]
                == command.params@[i]@,
        ws_commands_view(commands).len() == commands.len(),
        forall|i: int| 0 <= i < commands.len() ==> #[trigger] ws_commands_view(commands)[i]
            == commands[i]@,
{
}

/// What a command to a worker says is what it holds.
pub proof fn law_worker_command_says_what_it_holds(cmd: WorkerCmd)
    ensures
        match cmd {
            WorkerCmd::Subscribe(list) => cmd@ matches WorkerCmdView::Subscribe(said) && said.len()
                == list@.len() && forall|i: int|
                0 <= i < list@.len() ==> #[trigger] said[i] == (list@[i].0@, list@[i].1),
            WorkerCmd::Unsubscribe(list) => cmd@ matches WorkerCmdView::Unsubscribe(said)
                && said.len() == list@.len() && forall|i: int|
                0 <= i < list@.len() ==> #[trigger] said[i] == list@[i]@,
            WorkerCmd::PlannedReconnect => cmd@ is PlannedReconnect,
        },
{
}

/// Every command of a list that is made for a method carries that method and the number of the
/// list; all but the last are full with 50 streams, the last has the rest, and stream number
/// `i` stands in its own place: in command number `i / 50`, behind `i % 50` others.
pub proof fn law_every_stream_has_its_place(
    method: Seq<char>,
    streams: Seq<Seq<char>>,
    id: u64,
)
    ensures
        ({
            let commands = commands_for(method, streams, id);
            &&& commands.len() == 0 <==> streams.len() == 0
            &&& commands.len() > 0 ==> 50 * (commands.len() - 1) < streams.len() <= 50
                * commands.len()
            &&& forall|k: int|
                0 <= k < commands.len() ==> {
                    &&& (#[trigger] commands[k]).method == method
                    &&& commands[k].id == id
                    &&& commands[k].params.len() == (if k < commands.len() - 1 {
                        50
                    } else {
                        streams.len() - 50 * k
                    })
                }
            &&& forall|i: int|
                0 <= i < streams.len() ==> 0 <= i / 50 < commands.len() && commands[i / 50].params[i
                    % 50] == #[trigger] streams[i]
        }),
{
    let commands = commands_for(method, streams, id);
    assert forall|i: int| 0 <= i < streams.len() implies 0 <= i / 50 < commands.len()
        && commands[i / 50].params[i % 50] == #[trigger] streams[i] by {
        let k = i / 50;
        assert(commands[k].params == chunk(streams, k));
        assert(i == 50 * k + i % 50);
    }
}

/// As many commands are counted as it takes to name `n` streams, 50 to a command.
pub proof fn law_chunk_count(n: nat)
    ensures
        n == 0 ==> chunk_count(n) == 0,
        n > 0 ==> 50 * (chunk_count(n) - 1) < n <= 50 * chunk_count(n),
{
}

} // verus!
