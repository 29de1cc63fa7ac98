//! Which replacement connection may take over: the one that was started last, on the connection
//! that is still in use.
use vstd::prelude::*;

use crate::worker::{on_warmup, WarmupOutcome, WorkerAction, WorkerActionView};

verus! {

/// What a `Handover` holds.
#[verifier::ext_equal]
pub struct HandoverView {
    /// How many replacements were started so far, on any connection.
    pub started: nat,
    /// The one that is waited for, if one is. Replacements are numbered as they are started.
    pub awaited: Option<nat>,
}

/// Something that happens to a worker's replacement connections.
pub enum HandoverEvent {
    /// A connection was made.
    Connected,
    /// The making of a replacement was started.
    Started,
    /// The making of a replacement has ended.
    Ended(nat, WarmupOutcome),
}

impl HandoverView {
    /// Nothing was started.
    pub open spec fn fresh() -> HandoverView {
        HandoverView { started: 0, awaited: None }
    }

    /// What every event keeps.
    pub open spec fn wf(self) -> bool {
        self.awaited matches Some(id) ==> id < self.started
    }

    /// What follows from an event.
    pub open spec fn after(self, event: HandoverEvent) -> HandoverView {
        match event {
            HandoverEvent::Connected => HandoverView { awaited: None, ..self },
            HandoverEvent::Started => HandoverView {
                started: self.started + 1,
                awaited: Some(self.started),
            },
            HandoverEvent::Ended(id, _) => if self.awaited == Some(id) {
                HandoverView { awaited: None, ..self }
            } else {
                self
            },
        }
    }

    /// Whether an event switches the connection.
    pub open spec fn switches(self, event: HandoverEvent) -> bool {
        event matches HandoverEvent::Ended(id, outcome) && self.awaited == Some(id) && outcome
            == WarmupOutcome::Ready
    }
}

/// The replacement that a worker waits for.
pub struct Handover {
    started: u64,
    awaited: Option<u64>,
}

impl View for Handover {
    type V = HandoverView;

    closed spec fn view(&self) -> HandoverView {
        HandoverView {
            started: self.started as nat,
            awaited: match self.awaited {
                Some(id) => Some(id as nat),
                None => None,
            },
        }
    }
}

impl Handover {
    /// Nothing was started.
    pub fn new() -> (handover: Self)
        ensures
            handover@ == HandoverView::fresh(),
            handover@.wf(),
    {
        Handover { started: 0, awaited: None }
    }

    /// How many replacements were started so far.
    pub fn started(&self) -> (n: u64)
        ensures
            n == self@.started,
    {
        self.started
    }

    /// The replacement that is waited for, if one is.
    pub fn awaited(&self) -> (id: Option<u64>)
        ensures
            match id {
                Some(id) => self@.awaited == Some(id as nat),
                None => self@.awaited is None,
            },
    {
        self.awaited
    }

    /// A connection was made: a replacement for the one before it is waited for no more.
    pub fn on_connected(&mut self)
        requires
            old(self)@.wf(),
        ensures
            final(self)@ == old(self)@.after(HandoverEvent::Connected),
            final(self)@.wf(),
    {
        self.awaited = None;
    }

    /// The making of a replacement is started: it is the one that is waited for, and one that
    /// was started before is waited for no more. Says its number.
    pub fn on_started(&mut self) -> (id: u64)
        requires
            old(self)@.wf(),
            old(self)@.started < u64::MAX,
        ensures
            id == old(self)@.started,
            final(self)@ == old(self)@.after(HandoverEvent::Started),
            final(self)@.wf(),
    {
        let id: u64 = self.started;
        self.started = id + 1;
        self.awaited = Some(id);
        id
    }

    /// The making of replacement number `id` has ended. If it is the one that is waited for and
    /// it is ready, the connection is switched; in every other case nothing is done.
    pub fn on_ended(&mut self, id: u64, outcome: WarmupOutcome) -> (action: WorkerAction)
        requires
            old(self)@.wf(),
        ensures
            action@ == (if old(self)@.switches(HandoverEvent::Ended(id as nat, outcome)) {
                WorkerActionView::SwitchStream
            } else {
                WorkerActionView::Nothing
            }),
            final(self)@ == old(self)@.after(HandoverEvent::Ended(id as nat, outcome)),
            final(self)@.wf(),
    {
        match self.awaited {
            Some(latest) => {
                if latest == id {
                    self.awaited = None;
                    on_warmup(outcome)
                } else {
                    WorkerAction::Nothing
                }
            },
            None => WorkerAction::Nothing,
        }
    }
}

/// Where a list of events leads to.
pub open spec fn handover_state(events: Seq<HandoverEvent>) -> HandoverView
    decreases events.len(),
{
    if events.len() == 0 {
        HandoverView::fresh()
    } else {
        handover_state(events.drop_last()).after(events.last())
    }
}

/// How many replacements a list of events starts.
pub open spec fn starts(events: Seq<HandoverEvent>) -> nat
    decreases events.len(),
{
    if events.len() == 0 {
        0
    } else if events.last() is Started {
        starts(events.drop_last()) + 1
    } else {
        starts(events.drop_last())
    }
}

/// Whether event number `p` of a list starts replacement number `id`, and after it no other one
/// is started, no connection is made, and the end of this one has not come.
pub open spec fn is_latest(events: Seq<HandoverEvent>, p: int, id: nat) -> bool {
    &&& 0 <= p < events.len()
    &&& events[p] is Started
    &&& starts(events.take(p)) == id
    &&& forall|i: int|
        p < i < events.len() ==> {
            &&& !((#[trigger] events[i]) is Started)
            &&& !(events[i] is Connected)
            &&& !(events[i] matches HandoverEvent::Ended(other, _) && other == id)
        }
}

/// The one that is waited for is the latest.
proof fn lemma_awaited_is_latest(events: Seq<HandoverEvent>, id: nat)
    ensures
        handover_state(events).started == starts(events),
        handover_state(events).awaited == Some(id) <==> exists|p: int|
            #[trigger] is_latest(events, p, id),
    decreases events.len(),
{
    let n = events.len() - 1;
    if events.len() > 0 {
        let before = events.drop_last();
        lemma_awaited_is_latest(before, id);
        let last = events.last();
        assert forall|p: int| 0 <= p < n implies #[trigger] events.take(p) == before.take(p) by {
            assert(events.take(p) =~= before.take(p));
        }
        if handover_state(events).awaited == Some(id) {
            if last is Started {
                assert(events.take(n) =~= before);
                assert(is_latest(events, n, id));
            } else {
                let p = choose|p: int| #[trigger] is_latest(before, p, id);
                assert(events[p] == before[p]);
                assert forall|i: int| p < i < events.len() implies {
                    &&& !((#[trigger] events[i]) is Started)
                    &&& !(events[i] is Connected)
                    &&& !(events[i] matches HandoverEvent::Ended(other, _) && other == id)
                } by {
                    if i < n {
                        assert(before[i] == events[i]);
                    }
                }
                assert(is_latest(events, p, id));
            }
        }
        if exists|p: int| #[trigger] is_latest(events, p, id) {
            let p = choose|p: int| #[trigger] is_latest(events, p, id);
            if p == n {
                assert(events.take(n) =~= before);
            } else {
                assert(events[n] == last);
                assert(before[p] == events[p]);
                assert(forall|i: int| 0 <= i < before.len() ==> before[i] == events[i]);
                assert(is_latest(before, p, id));
            }
        }
    }
}

/// Whatever happened, a connection is switched exactly when a replacement has become ready that
/// was the latest to be started on this connection, and for the first time: one that was started
/// before it, or on an earlier connection, is dropped, and a failure or the lack of a
/// replacement does nothing.
pub proof fn law_only_the_latest_takes_over(
    events: Seq<HandoverEvent>,
    id: nat,
    outcome: WarmupOutcome,
)
    ensures
        handover_state(events).switches(HandoverEvent::Ended(id, outcome)) <==> outcome
            == WarmupOutcome::Ready && exists|p: int| #[trigger] is_latest(events, p, id),
{
    lemma_awaited_is_latest(events, id);
}

/// Replacements are numbered as they are started, so that no two have the same number.
pub proof fn law_replacements_are_numbered(events: Seq<HandoverEvent>)
    ensures
        handover_state(events).started == starts(events),
        handover_state(events).wf(),
    decreases events.len(),
{
    if events.len() > 0 {
        law_replacements_are_numbered(events.drop_last());
    }
}

} // verus!
