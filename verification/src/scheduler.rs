//! The planned reconnects: every worker in turn is told to move to a new connection.
use vstd::prelude::*;

use crate::config::{SCHEDULED_RECONNECT_INTERVAL_SEC, STREAMS_RESUBSCRIBE_DELAY_SEC};

verus! {

/// One step of the planned reconnects.
#[derive(Clone, Copy, Debug, PartialEq, Eq, Structural)]
pub enum ReconnectStep {
    /// Tell this worker to reconnect.
    Tell(usize),
    /// Wait so many seconds.
    Wait(u64),
}

/// A round over `n` workers: each is told once, in order, and between two of them there is a
/// wait.
pub open spec fn round_of(n: nat) -> Seq<ReconnectStep> {
    Seq::new(
        if n == 0 {
            0
        } else {
            (2 * n - 1) as nat
        },
        |i: int|
            if i % 2 == 0 {
                ReconnectStep::Tell((i / 2) as usize)
            } else {
                ReconnectStep::Wait(STREAMS_RESUBSCRIBE_DELAY_SEC)
            },
    )
}

/// The steps of a round over `n` workers.
pub fn reconnect_round(n: usize) -> (steps: Vec<ReconnectStep>)
    ensures
        steps@ == round_of(n as nat),
{
    let mut steps: Vec<ReconnectStep> = Vec::new();
    let mut i: usize = 0;
    while i < n
        invariant
            i <= n,
            steps@.len() == (if i == n && n > 0 {
                2 * i - 1
            } else {
                2 * i
            }),
            forall|j: int|
                0 <= j < steps@.len() ==> #[trigger] steps@[j] == (if j % 2 == 0 {
                    ReconnectStep::Tell((j / 2) as usize)
                } else {
                    ReconnectStep::Wait(STREAMS_RESUBSCRIBE_DELAY_SEC)
                }),
        decreases n - i,
    {
        steps.push(ReconnectStep::Tell(i));
        if i < n - 1 {
            steps.push(ReconnectStep::Wait(STREAMS_RESUBSCRIBE_DELAY_SEC));
        }
        i = i + 1;
    }
    assert(steps@ =~= round_of(n as nat));
    steps
}

/// A cycle over `n` workers: a wait of `SCHEDULED_RECONNECT_INTERVAL_SEC` seconds, and then the
/// round.
pub open spec fn cycle_of(n: nat) -> Seq<ReconnectStep> {
    seq![ReconnectStep::Wait(SCHEDULED_RECONNECT_INTERVAL_SEC)] + round_of(n)
}

/// The steps of a cycle over `n` workers. Cycles follow one another without end.
pub fn reconnect_cycle(n: usize) -> (steps: Vec<ReconnectStep>)
    ensures
        steps@ == cycle_of(n as nat),
{
    let mut steps: Vec<ReconnectStep> = Vec::new();
    steps.push(ReconnectStep::Wait(SCHEDULED_RECONNECT_INTERVAL_SEC));
    let mut round: Vec<ReconnectStep> = reconnect_round(n);
    steps.append(&mut round);
    assert(steps@ =~= cycle_of(n as nat));
    steps
}

/// The first `c` cycles over `n` workers, one after the other.
pub open spec fn cycles_of(n: nat, c: nat) -> Seq<ReconnectStep>
    decreases c,
{
    if c == 0 {
        Seq::empty()
    } else {
        cycles_of(n, (c - 1) as nat) + cycle_of(n)
    }
}

/// The seconds of waiting in a list of steps.
pub open spec fn waited(steps: Seq<ReconnectStep>) -> nat
    decreases steps.len(),
{
    if steps.len() == 0 {
        0
    } else {
        match steps.last() {
            ReconnectStep::Tell(_) => waited(steps.drop_last()),
            ReconnectStep::Wait(secs) => waited(steps.drop_last()) + secs as nat,
        }
    }
}

/// The seconds that a whole cycle over `n` workers takes.
pub open spec fn cycle_secs(n: nat) -> int {
    SCHEDULED_RECONNECT_INTERVAL_SEC + (if n == 0 {
        0
    } else {
        (n - 1) * STREAMS_RESUBSCRIBE_DELAY_SEC
    })
}

/// The waits of one list of steps after another.
proof fn lemma_waited_concat(a: Seq<ReconnectStep>, b: Seq<ReconnectStep>)
    ensures
        waited(a + b) == waited(a) + waited(b),
    decreases b.len(),
{
    if b.len() == 0 {
        assert(a + b =~= a);
    } else {
        lemma_waited_concat(a, b.drop_last());
        assert((a + b).drop_last() =~= a + b.drop_last());
    }
}

/// The waits in the first `k` steps of a round.
proof fn lemma_waited_in_round(n: nat, k: int)
    requires
        0 <= k <= round_of(n).len(),
    ensures
        waited(round_of(n).take(k)) == (k / 2) * STREAMS_RESUBSCRIBE_DELAY_SEC,
    decreases k,
{
    let steps = round_of(n).take(k);
    if k > 0 {
        lemma_waited_in_round(n, k - 1);
        assert(steps.drop_last() =~= round_of(n).take(k - 1));
        assert(steps.last() == round_of(n)[k - 1]);
        if (k - 1) % 2 == 0 {
            assert(k / 2 == (k - 1) / 2);
        } else {
            assert(k / 2 == (k - 1) / 2 + 1);
            assert((k / 2) * STREAMS_RESUBSCRIBE_DELAY_SEC == ((k - 1) / 2)
                * STREAMS_RESUBSCRIBE_DELAY_SEC + STREAMS_RESUBSCRIBE_DELAY_SEC);
        }
    }
}

/// The waits before the step of a cycle that tells a worker, and the waits of a whole cycle.
proof fn lemma_waited_in_cycle(n: nat, worker: int)
    requires
        0 <= worker < n,
    ensures
        2 * worker + 1 < cycle_of(n).len(),
        cycle_of(n)[2 * worker + 1] == ReconnectStep::Tell(worker as usize),
        waited(cycle_of(n).take(2 * worker + 1)) == SCHEDULED_RECONNECT_INTERVAL_SEC + worker
            * STREAMS_RESUBSCRIBE_DELAY_SEC,
{
    let first = seq![ReconnectStep::Wait(SCHEDULED_RECONNECT_INTERVAL_SEC)];
    assert(cycle_of(n).take(2 * worker + 1) =~= first + round_of(n).take(2 * worker));
    lemma_waited_concat(first, round_of(n).take(2 * worker));
    lemma_waited_first();
    lemma_waited_in_round(n, 2 * worker);
}

/// The wait before a round.
proof fn lemma_waited_first()
    ensures
        waited(seq![ReconnectStep::Wait(SCHEDULED_RECONNECT_INTERVAL_SEC)])
            == SCHEDULED_RECONNECT_INTERVAL_SEC,
{
    let first = seq![ReconnectStep::Wait(SCHEDULED_RECONNECT_INTERVAL_SEC)];
    assert(first.drop_last() =~= Seq::empty());
    assert(waited(first.drop_last()) == 0);
}

/// How many steps and seconds `c` cycles take.
proof fn lemma_cycles(n: nat, c: nat)
    ensures
        cycles_of(n, c).len() == c * cycle_of(n).len(),
        waited(cycles_of(n, c)) == c * cycle_secs(n),
    decreases c,
{
    if c > 0 {
        lemma_cycles(n, (c - 1) as nat);
        lemma_waited_concat(cycles_of(n, (c - 1) as nat), cycle_of(n));
        let first = seq![ReconnectStep::Wait(SCHEDULED_RECONNECT_INTERVAL_SEC)];
        lemma_waited_concat(first, round_of(n));
        lemma_waited_first();
        lemma_waited_in_round(n, round_of(n).len() as int);
        assert(round_of(n).take(round_of(n).len() as int) =~= round_of(n));
        assert(waited(cycle_of(n)) == cycle_secs(n));
        assert(c * cycle_of(n).len() == (c - 1) * cycle_of(n).len() + cycle_of(n).len())
            by (nonlinear_arith);
        let secs = cycle_secs(n);
        assert(c * secs == (c - 1) * secs + secs) by (nonlinear_arith);
    }
}

/// When the workers are told, counted in seconds of waiting from the start: in cycle number
/// `c`, counted from zero, worker number `worker` is told `SCHEDULED_RECONNECT_INTERVAL_SEC`
/// seconds after the cycle began, and `STREAMS_RESUBSCRIBE_DELAY_SEC` more for every worker
/// before it. The next cycle begins as soon as the last worker was told.
pub proof fn law_when_workers_are_told(n: nat, c: nat, worker: usize)
    requires
        worker < n,
    ensures
        ({
            let i = c * cycle_of(n).len() + 2 * worker + 1;
            let steps = cycles_of(n, c + 1);
            &&& 0 <= i < steps.len()
            &&& steps[i] == ReconnectStep::Tell(worker)
            &&& waited(steps.take(i)) == c * cycle_secs(n) + SCHEDULED_RECONNECT_INTERVAL_SEC
                + worker * STREAMS_RESUBSCRIBE_DELAY_SEC
        }),
{
    let before = cycles_of(n, c);
    let steps = cycles_of(n, c + 1);
    let i = c * cycle_of(n).len() + 2 * worker + 1;
    lemma_cycles(n, c);
    lemma_waited_in_cycle(n, worker as int);
    assert(steps == before + cycle_of(n));
    assert(0 <= c * cycle_of(n).len()) by (nonlinear_arith);
    assert(steps.take(i) =~= before + cycle_of(n).take(2 * worker + 1));
    lemma_waited_concat(before, cycle_of(n).take(2 * worker + 1));
}

/// A round tells every worker, each one once.
pub proof fn law_round_tells_each_worker_once(n: nat, worker: usize)
    requires
        n <= usize::MAX,
        worker < n,
    ensures
        0 <= 2 * worker < round_of(n).len(),
        forall|i: int|
            0 <= i < round_of(n).len() ==> (#[trigger] round_of(n)[i] == ReconnectStep::Tell(worker)
                <==> i == 2 * worker),
{
}

/// No two workers are told without a wait between them, and a round does not end in a wait.
pub proof fn law_round_waits_between_workers(n: nat, i: int)
    requires
        0 <= i < round_of(n).len(),
        round_of(n)[i] is Tell,
    ensures
        i + 1 < round_of(n).len() ==> round_of(n)[i + 1] == ReconnectStep::Wait(
            STREAMS_RESUBSCRIBE_DELAY_SEC,
        ),
        round_of(n).last() is Tell,
{
}

/// A cycle is an hour of waiting, and then each of the workers in turn, from the first to the
/// last, with five seconds between two of them and nothing behind the last.
pub proof fn law_steps_of_a_cycle(n: nat)
    requires
        n <= usize::MAX,
    ensures
        cycle_of(n).len() == (if n == 0 {
            1
        } else {
            2 * n
        }),
        cycle_of(n)[0] == ReconnectStep::Wait(3600),
        forall|k: int|
            #![trigger cycle_of(n)[2 * k + 1]]
            0 <= k < n ==> cycle_of(n)[2 * k + 1] == ReconnectStep::Tell(k as usize),
        forall|k: int|
            #![trigger cycle_of(n)[2 * k]]
            0 < k < n ==> cycle_of(n)[2 * k] == ReconnectStep::Wait(5),
        round_of(n) == cycle_of(n).skip(1),
{
    assert(cycle_of(n).skip(1) =~= round_of(n));
}

} // verus!
