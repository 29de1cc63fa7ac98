//! The making of a replacement connection: it is subscribed to every stream and has to carry
//! data before the old connection is given up.
use vstd::prelude::*;
use vstd::string::StringExecFns;

use crate::command::{chunk, chunk_command, chunk_count, count_chunks, WsCommand, WsCommandView};
use crate::config::SUBSCRIBE_PAUSE_MS;
use crate::text::texts;

verus! {

/// Milliseconds that a subscribed connection has to send something.
pub const PROBE_TIMEOUT_MS: u64 = 3000;

/// What the making of the connection waits for.
#[derive(Clone, Copy, Debug, PartialEq, Eq, Structural)]
pub enum WarmupPhase {
    /// The connection.
    Connecting,
    /// A command to be sent.
    Sending,
    /// The end of the pause after a command. What comes meanwhile is read and dropped.
    Draining,
    /// The first message after the last pause.
    Probing,
    /// Nothing more.
    Finished,
}

/// Something that happened to the connection.
#[derive(Debug)]
pub enum WarmupEvent {
    /// It was made.
    Connected,
    /// It could not be made.
    ConnectFailed(String),
    /// The command was sent.
    Sent,
    /// The command could not be sent.
    SendFailed(String),
    /// The pause is over.
    PauseOver,
    /// A message came.
    Received,
    /// Reading failed.
    ReadFailed(String),
    /// The exchange closed it.
    Closed,
    /// Nothing came for too long.
    TimedOut,
}

/// Why the connection could not be made.
#[derive(Debug)]
pub enum WarmupError {
    /// It could not be connected.
    Connect(String),
    /// A command could not be sent.
    Send(String),
    /// Reading failed during a pause.
    Read(String),
    /// It was closed during a pause.
    Closed,
    /// Reading failed where the first message was due.
    ReadBeforeHandover(String),
    /// It was closed where the first message was due.
    ClosedBeforeHandover,
    /// The first message did not come.
    NoData,
}

/// What to do next.
#[derive(Debug)]
pub enum WarmupAction {
    /// Send a command.
    Send(WsCommand),
    /// Read and drop messages until the pause is over, `SUBSCRIBE_PAUSE_MS` milliseconds after
    /// the command was sent.
    Drain,
    /// Wait for one message, `PROBE_TIMEOUT_MS` milliseconds at most.
    Probe,
    /// Hand the connection over.
    Ready,
    /// Give up.
    Fail(WarmupError),
}

/// What a `WarmupEvent` says.
pub enum WarmupEventView {
    Connected,
    ConnectFailed(Seq<char>),
    Sent,
    SendFailed(Seq<char>),
    PauseOver,
    Received,
    ReadFailed(Seq<char>),
    Closed,
    TimedOut,
}

/// What a `WarmupError` says.
pub enum WarmupErrorView {
    Connect(Seq<char>),
    Send(Seq<char>),
    Read(Seq<char>),
    Closed,
    ReadBeforeHandover(Seq<char>),
    ClosedBeforeHandover,
    NoData,
}

/// What a `WarmupAction` says.
pub enum WarmupActionView {
    Send(WsCommandView),
    Drain,
    Probe,
    Ready,
    Fail(WarmupErrorView),
}

impl View for WarmupEvent {
    type V = WarmupEventView;

    open spec fn view(&self) -> WarmupEventView {
        match *self {
            WarmupEvent::Connected => WarmupEventView::Connected,
            WarmupEvent::ConnectFailed(e) => WarmupEventView::ConnectFailed(e@),
            WarmupEvent::Sent => WarmupEventView::Sent,
            WarmupEvent::SendFailed(e) => WarmupEventView::SendFailed(e@),
            WarmupEvent::PauseOver => WarmupEventView::PauseOver,
            WarmupEvent::Received => WarmupEventView::Received,
            WarmupEvent::ReadFailed(e) => WarmupEventView::ReadFailed(e@),
            WarmupEvent::Closed => WarmupEventView::Closed,
            WarmupEvent::TimedOut => WarmupEventView::TimedOut,
        }
    }
}

impl View for WarmupError {
    type V = WarmupErrorView;

    open spec fn view(&self) -> WarmupErrorView {
        match *self {
            WarmupError::Connect(e) => WarmupErrorView::Connect(e@),
            WarmupError::Send(e) => WarmupErrorView::Send(e@),
            WarmupError::Read(e) => WarmupErrorView::Read(e@),
            WarmupError::Closed => WarmupErrorView::Closed,
            WarmupError::ReadBeforeHandover(e) => WarmupErrorView::ReadBeforeHandover(e@),
            WarmupError::ClosedBeforeHandover => WarmupErrorView::ClosedBeforeHandover,
            WarmupError::NoData => WarmupErrorView::NoData,
        }
    }
}

impl View for WarmupAction {
    type V = WarmupActionView;

    open spec fn view(&self) -> WarmupActionView {
        match *self {
            WarmupAction::Send(command) => WarmupActionView::Send(command@),
            WarmupAction::Drain => WarmupActionView::Drain,
            WarmupAction::Probe => WarmupActionView::Probe,
            WarmupAction::Ready => WarmupActionView::Ready,
            WarmupAction::Fail(e) => WarmupActionView::Fail(e@),
        }
    }
}

impl WarmupActionView {
    /// The milliseconds that an action waits: a pause is counted from the sending of its
    /// command, and the wait for the first message from the action itself.
    pub open spec fn wait_ms(self) -> Option<u64> {
        match self {
            WarmupActionView::Drain => Some(SUBSCRIBE_PAUSE_MS),
            WarmupActionView::Probe => Some(PROBE_TIMEOUT_MS),
            _ => None,
        }
    }
}

impl WarmupAction {
    /// The milliseconds that an action waits, if it waits: a pause is counted from the sending
    /// of its command, and the wait for the first message from the action itself.
    pub fn wait_ms(&self) -> (ms: Option<u64>)
        ensures
            ms == self@.wait_ms(),
            self is Drain ==> ms == Some(300u64),
            self is Probe ==> ms == Some(3000u64),
    {
        match self {
            WarmupAction::Send(_) => None,
            WarmupAction::Drain => Some(SUBSCRIBE_PAUSE_MS),
            WarmupAction::Probe => Some(PROBE_TIMEOUT_MS),
            WarmupAction::Ready => None,
            WarmupAction::Fail(_) => None,
        }
    }
}

impl WarmupErrorView {
    /// The error in words.
    pub open spec fn text(self) -> Seq<char> {
        match self {
            WarmupErrorView::Connect(e) => e,
            WarmupErrorView::Send(e) => "Ошибка отправки SUBSCRIBE: "@ + e,
            WarmupErrorView::Read(e) => "Ошибка при чтении во время прогрева: "@ + e,
            WarmupErrorView::Closed => "Стрим закрыт сервером во время прогрева"@,
            WarmupErrorView::ReadBeforeHandover(e) => "Ошибка WS перед передачей: "@ + e,
            WarmupErrorView::ClosedBeforeHandover => "Стрим закрылся перед передачей"@,
            WarmupErrorView::NoData => "Таймаут: биржа не прислала данные"@,
        }
    }
}

impl WarmupError {
    /// The error in words.
    pub fn text(&self) -> (text: String)
        ensures
            text@ == self@.text(),
    {
        match self {
            WarmupError::Connect(e) => e.clone(),
            WarmupError::Send(e) => "Ошибка отправки SUBSCRIBE: ".to_owned().concat(e.as_str()),
            WarmupError::Read(e) => "Ошибка при чтении во время прогрева: ".to_owned().concat(
                e.as_str(),
            ),
            WarmupError::Closed => "Стрим закрыт сервером во время прогрева".to_owned(),
            WarmupError::ReadBeforeHandover(e) => "Ошибка WS перед передачей: ".to_owned().concat(
                e.as_str(),
            ),
            WarmupError::ClosedBeforeHandover => "Стрим закрылся перед передачей".to_owned(),
            WarmupError::NoData => "Таймаут: биржа не прислала данные".to_owned(),
        }
    }
}

/// How far the making of a connection has come.
#[verifier::ext_equal]
pub struct WarmupView {
    /// The streams to subscribe to.
    pub streams: Seq<Seq<char>>,
    /// How many commands were sent.
    pub sent: nat,
    /// What is waited for.
    pub phase: WarmupPhase,
}

impl WarmupView {
    /// What every step keeps.
    pub open spec fn wf(self) -> bool {
        &&& self.sent <= chunk_count(self.streams.len())
        &&& self.phase == WarmupPhase::Connecting ==> self.sent == 0
        &&& self.phase == WarmupPhase::Sending ==> self.sent < chunk_count(self.streams.len())
        &&& self.phase == WarmupPhase::Probing ==> self.sent == chunk_count(self.streams.len())
    }

    /// Whether the event can happen now.
    pub open spec fn expects(self, event: WarmupEventView) -> bool {
        match self.phase {
            WarmupPhase::Connecting => event is Connected || event is ConnectFailed,
            WarmupPhase::Sending => event is Sent || event is SendFailed,
            WarmupPhase::Draining => event is PauseOver || event is Received || event is ReadFailed
                || event is Closed,
            WarmupPhase::Probing => event is Received || event is ReadFailed || event is Closed
                || event is TimedOut,
            WarmupPhase::Finished => false,
        }
    }

    /// On to the next command, or, where all are sent, to the wait for a message.
    pub open spec fn onward(self, now: u64) -> (WarmupView, WarmupActionView) {
        if self.sent < chunk_count(self.streams.len()) {
            (
                WarmupView { phase: WarmupPhase::Sending, ..self },
                WarmupActionView::Send(
                    WsCommandView {
                        method: "SUBSCRIBE"@,
                        params: chunk(self.streams, self.sent as int),
                        id: now,
                    },
                ),
            )
        } else {
            (WarmupView { phase: WarmupPhase::Probing, ..self }, WarmupActionView::Probe)
        }
    }

    /// The end, with an error.
    pub open spec fn failed(self, error: WarmupErrorView) -> (WarmupView, WarmupActionView) {
        (WarmupView { phase: WarmupPhase::Finished, ..self }, WarmupActionView::Fail(error))
    }

    /// What follows from an event that happens at `now`.
    pub open spec fn after(self, event: WarmupEventView, now: u64) -> (
        WarmupView,
        WarmupActionView,
    ) {
        match event {
            WarmupEventView::Connected => self.onward(now),
            WarmupEventView::ConnectFailed(e) => self.failed(WarmupErrorView::Connect(e)),
            WarmupEventView::Sent => (
                WarmupView { sent: self.sent + 1, phase: WarmupPhase::Draining, ..self },
                WarmupActionView::Drain,
            ),
            WarmupEventView::SendFailed(e) => self.failed(WarmupErrorView::Send(e)),
            WarmupEventView::PauseOver => self.onward(now),
            WarmupEventView::Received => if self.phase == WarmupPhase::Draining {
                (self, WarmupActionView::Drain)
            } else {
                (WarmupView { phase: WarmupPhase::Finished, ..self }, WarmupActionView::Ready)
            },
            WarmupEventView::ReadFailed(e) => if self.phase == WarmupPhase::Draining {
                self.failed(WarmupErrorView::Read(e))
            } else {
                self.failed(WarmupErrorView::ReadBeforeHandover(e))
            },
            WarmupEventView::Closed => if self.phase == WarmupPhase::Draining {
                self.failed(WarmupErrorView::Closed)
            } else {
                self.failed(WarmupErrorView::ClosedBeforeHandover)
            },
            WarmupEventView::TimedOut => self.failed(WarmupErrorView::NoData),
        }
    }
}

/// The making of a replacement connection.
pub struct Warmup {
    streams: Vec<String>,
    sent: usize,
    phase: WarmupPhase,
}

impl View for Warmup {
    type V = WarmupView;

    closed spec fn view(&self) -> WarmupView {
        WarmupView { streams: texts(self.streams@), sent: self.sent as nat, phase: self.phase }
    }
}

impl Warmup {
    /// The beginning: the connection has to be made.
    pub fn new(streams: Vec<String>) -> (warmup: Self)
        ensures
            warmup@ == (WarmupView {
                streams: texts(streams@),
                sent: 0,
                phase: WarmupPhase::Connecting,
            }),
            warmup@.wf(),
    {
        Warmup { streams, sent: 0, phase: WarmupPhase::Connecting }
    }

    /// Whether the event can happen now.
    pub fn expects(&self, event: &WarmupEvent) -> (yes: bool)
        ensures
            yes == self@.expects(event@),
    {
        match self.phase {
            WarmupPhase::Connecting => matches!(event, WarmupEvent::Connected
                | WarmupEvent::ConnectFailed(_)),
            WarmupPhase::Sending => matches!(event, WarmupEvent::Sent | WarmupEvent::SendFailed(_)),
            WarmupPhase::Draining => matches!(event, WarmupEvent::PauseOver | WarmupEvent::Received
                | WarmupEvent::ReadFailed(_) | WarmupEvent::Closed),
            WarmupPhase::Probing => matches!(event, WarmupEvent::Received | WarmupEvent::ReadFailed(_)
                | WarmupEvent::Closed | WarmupEvent::TimedOut),
            WarmupPhase::Finished => false,
        }
    }

    /// On to the next command, or to the wait for a message.
    fn onward(&mut self, now: u64) -> (action: WarmupAction)
        requires
            old(self)@.wf(),
        ensures
            (final(self)@, action@) == old(self)@.onward(now),
    {
        if self.sent < count_chunks(self.streams.len()) {
            self.phase = WarmupPhase::Sending;
            WarmupAction::Send(chunk_command("SUBSCRIBE", &self.streams, self.sent, now))
        } else {
            self.phase = WarmupPhase::Probing;
            WarmupAction::Probe
        }
    }

    /// The end, with an error.
    fn fail(&mut self, error: WarmupError) -> (action: WarmupAction)
        ensures
            (final(self)@, action@) == old(self)@.failed(error@),
    {
        self.phase = WarmupPhase::Finished;
        WarmupAction::Fail(error)
    }

    /// What follows from an event that happens at `now`.
    pub fn step(&mut self, event: WarmupEvent, now: u64) -> (action: WarmupAction)
        requires
            old(self)@.wf(),
            old(self)@.expects(event@),
        ensures
            (final(self)@, action@) == old(self)@.after(event@, now),
            final(self)@.wf(),
    {
        let draining: bool = self.phase == WarmupPhase::Draining;
        match event {
            WarmupEvent::Connected => self.onward(now),
            WarmupEvent::ConnectFailed(e) => self.fail(WarmupError::Connect(e)),
            WarmupEvent::Sent => {
                proof {
                    assert(self.streams.len() == self@.streams.len());
                }
                self.sent = self.sent + 1;
                self.phase = WarmupPhase::Draining;
                WarmupAction::Drain
            },
            WarmupEvent::SendFailed(e) => self.fail(WarmupError::Send(e)),
            WarmupEvent::PauseOver => self.onward(now),
            WarmupEvent::Received => if draining {
                WarmupAction::Drain
            } else {
                self.phase = WarmupPhase::Finished;
                WarmupAction::Ready
            },
            WarmupEvent::ReadFailed(e) => if draining {
                self.fail(WarmupError::Read(e))
            } else {
                self.fail(WarmupError::ReadBeforeHandover(e))
            },
            WarmupEvent::Closed => if draining {
                self.fail(WarmupError::Closed)
            } else {
                self.fail(WarmupError::ClosedBeforeHandover)
            },
            WarmupEvent::TimedOut => self.fail(WarmupError::NoData),
        }
    }
}

/// The beginning of the making of a connection.
pub open spec fn warmup_start(streams: Seq<Seq<char>>) -> WarmupView {
    WarmupView { streams, sent: 0, phase: WarmupPhase::Connecting }
}

/// Where a list of events leads to.
pub open spec fn warmup_state(
    streams: Seq<Seq<char>>,
    events: Seq<(WarmupEventView, u64)>,
) -> WarmupView
    decreases events.len(),
{
    if events.len() == 0 {
        warmup_start(streams)
    } else {
        warmup_state(streams, events.drop_last()).after(events.last().0, events.last().1).0
    }
}

/// Whether each event of a list can happen after those before it.
pub open spec fn warmup_possible(
    streams: Seq<Seq<char>>,
    events: Seq<(WarmupEventView, u64)>,
) -> bool
    decreases events.len(),
{
    events.len() > 0 ==> {
        &&& warmup_possible(streams, events.drop_last())
        &&& warmup_state(streams, events.drop_last()).expects(events.last().0)
    }
}

/// What is done about the last event of a list.
pub open spec fn warmup_reply(
    streams: Seq<Seq<char>>,
    events: Seq<(WarmupEventView, u64)>,
) -> WarmupActionView {
    warmup_state(streams, events.drop_last()).after(events.last().0, events.last().1).1
}

/// The lists of streams of the commands that were given out to be sent, in order.
pub open spec fn warmup_sent(
    streams: Seq<Seq<char>>,
    events: Seq<(WarmupEventView, u64)>,
) -> Seq<Seq<Seq<char>>>
    decreases events.len(),
{
    if events.len() == 0 {
        Seq::empty()
    } else {
        let before = warmup_sent(streams, events.drop_last());
        match warmup_reply(streams, events) {
            WarmupActionView::Send(command) => before.push(command.params),
            _ => before,
        }
    }
}

/// The commands that were given out are the first ones of the list, one for each that was sent
/// and one for the one being sent.
proof fn lemma_warmup_sent(streams: Seq<Seq<char>>, events: Seq<(WarmupEventView, u64)>)
    requires
        warmup_possible(streams, events),
    ensures
        ({
            let state = warmup_state(streams, events);
            &&& state.wf()
            &&& state.streams == streams
            &&& state.phase != WarmupPhase::Finished ==> warmup_sent(streams, events) == Seq::new(
                if state.phase == WarmupPhase::Sending {
                    state.sent + 1
                } else {
                    state.sent
                },
                |k: int| chunk(streams, k),
            )
        }),
    decreases events.len(),
{
    let state = warmup_state(streams, events);
    let sent = warmup_sent(streams, events);
    if events.len() > 0 {
        lemma_warmup_sent(streams, events.drop_last());
        if state.phase != WarmupPhase::Finished {
            assert(sent =~= Seq::new(
                if state.phase == WarmupPhase::Sending {
                    state.sent + 1
                } else {
                    state.sent
                },
                |k: int| chunk(streams, k),
            ));
        }
    } else {
        assert(sent =~= Seq::new(0, |k: int| chunk(streams, k)));
    }
}

/// A connection is handed over only when it was asked for every stream and has sent a message
/// after the last pause: whatever happened, the commands sent until then name all streams,
/// once each and in order.
pub proof fn law_ready_means_subscribed(
    streams: Seq<Seq<char>>,
    events: Seq<(WarmupEventView, u64)>,
)
    requires
        events.len() > 0,
        warmup_possible(streams, events),
        warmup_reply(streams, events) is Ready,
    ensures
        events.last().0 is Received,
        warmup_sent(streams, events) == Seq::new(
            chunk_count(streams.len()),
            |k: int| chunk(streams, k),
        ),
{
    lemma_warmup_sent(streams, events.drop_last());
}

/// Whether an event is a failure.
pub open spec fn is_failure(event: WarmupEventView) -> bool {
    event is ConnectFailed || event is SendFailed || event is ReadFailed || event is Closed
        || event is TimedOut
}

/// How many pauses have ended.
pub open spec fn pauses_over(events: Seq<(WarmupEventView, u64)>) -> nat
    decreases events.len(),
{
    if events.len() == 0 {
        0
    } else if events.last().0 is PauseOver {
        pauses_over(events.drop_last()) + 1
    } else {
        pauses_over(events.drop_last())
    }
}

/// Every command that was sent is followed by the end of its pause.
proof fn lemma_pauses(streams: Seq<Seq<char>>, events: Seq<(WarmupEventView, u64)>)
    requires
        warmup_possible(streams, events),
    ensures
        ({
            let state = warmup_state(streams, events);
            &&& state.phase == WarmupPhase::Draining ==> pauses_over(events) + 1 == state.sent
            &&& state.phase != WarmupPhase::Draining && state.phase != WarmupPhase::Finished
                ==> pauses_over(events) == state.sent
            &&& state.phase == WarmupPhase::Connecting ==> events.len() == 0
        }),
    decreases events.len(),
{
    if events.len() > 0 {
        lemma_pauses(streams, events.drop_last());
    }
}

/// Once nothing has failed and the last pause is over, the first message makes the connection
/// ready, whenever it comes and whatever was read during the pauses.
pub proof fn law_first_message_makes_ready(
    streams: Seq<Seq<char>>,
    events: Seq<(WarmupEventView, u64)>,
    now: u64,
)
    requires
        events.len() > 0,
        warmup_possible(streams, events),
        events.last().0 is Connected || events.last().0 is PauseOver,
        pauses_over(events) == chunk_count(streams.len()),
    ensures
        warmup_possible(streams, events.push((WarmupEventView::Received, now))),
        warmup_reply(streams, events.push((WarmupEventView::Received, now))) is Ready,
{
    lemma_pauses(streams, events);
    lemma_warmup_sent(streams, events);
    assert(events.push((WarmupEventView::Received, now)).drop_last() =~= events);
}

/// A connection is given up on only where something failed.
pub proof fn law_only_failures_fail(state: WarmupView, event: WarmupEventView, now: u64)
    requires
        state.wf(),
        state.expects(event),
    ensures
        state.after(event, now).1 is Fail <==> is_failure(event),
{
}

/// What happens where nothing goes wrong, until the `k`th pause is over: a connection, and for
/// each command that it is sent and that its pause ends.
pub open spec fn smooth_events(k: nat, now: u64) -> Seq<(WarmupEventView, u64)>
    decreases k,
{
    if k == 0 {
        seq![(WarmupEventView::Connected, now)]
    } else {
        smooth_events((k - 1) as nat, now).push((WarmupEventView::Sent, now)).push(
            (WarmupEventView::PauseOver, now),
        )
    }
}

/// Where nothing goes wrong for `k` commands, the next thing to wait for is the sending of one
/// more, or, after the last, a message.
proof fn lemma_smooth(streams: Seq<Seq<char>>, k: nat, now: u64)
    requires
        k <= chunk_count(streams.len()),
    ensures
        warmup_possible(streams, smooth_events(k, now)),
        warmup_state(streams, smooth_events(k, now)) == (WarmupView {
            streams,
            sent: k,
            phase: if k < chunk_count(streams.len()) {
                WarmupPhase::Sending
            } else {
                WarmupPhase::Probing
            },
        }),
    decreases k,
{
    if k == 0 {
        let events = smooth_events(0, now);
        assert(events.drop_last() =~= Seq::empty());
        assert(warmup_state(streams, events.drop_last()) == warmup_start(streams));
        assert(warmup_possible(streams, events.drop_last()));
    } else {
        lemma_smooth(streams, (k - 1) as nat, now);
        let before = smooth_events((k - 1) as nat, now);
        let sent = before.push((WarmupEventView::Sent, now));
        let events = smooth_events(k, now);
        assert(sent.drop_last() =~= before);
        assert(warmup_possible(streams, sent));
        assert(events.drop_last() =~= sent);
    }
}

/// Where nothing goes wrong, a connection is handed over: after every command was sent and its
/// pause is over, the first message makes it ready.
pub proof fn law_smooth_warmup_is_ready(streams: Seq<Seq<char>>, now: u64)
    ensures
        ({
            let events = smooth_events(chunk_count(streams.len()), now).push(
                (WarmupEventView::Received, now),
            );
            &&& warmup_possible(streams, events)
            &&& warmup_reply(streams, events) is Ready
        }),
{
    let smooth = smooth_events(chunk_count(streams.len()), now);
    lemma_smooth(streams, chunk_count(streams.len()), now);
    assert(smooth.push((WarmupEventView::Received, now)).drop_last() =~= smooth);
}

/// After the end nothing can happen, and the end is a connection or an error.
pub proof fn law_warmup_ends_once(state: WarmupView, event: WarmupEventView, now: u64)
    requires
        state.wf(),
        state.expects(event),
    ensures
        state.after(event, now).0.phase == WarmupPhase::Finished <==> (state.after(event, now).1
            is Ready || state.after(event, now).1 is Fail),
        state.after(event, now).0.phase == WarmupPhase::Finished ==> forall|e: WarmupEventView|
            !(#[trigger] state.after(event, now).0.expects(e)),
{
}

/// What is waited for at each moment: the connection at first, then for each command that it is
/// sent and that its pause ends, and a message at last; what may happen instead is a failure, and
/// during a pause a message. After the end nothing is waited for.
pub proof fn law_what_can_happen(state: WarmupView, event: WarmupEventView)
    ensures
        state.expects(event) <==> match event {
            WarmupEventView::Connected => state.phase == WarmupPhase::Connecting,
            WarmupEventView::ConnectFailed(_) => state.phase == WarmupPhase::Connecting,
            WarmupEventView::Sent => state.phase == WarmupPhase::Sending,
            WarmupEventView::SendFailed(_) => state.phase == WarmupPhase::Sending,
            WarmupEventView::PauseOver => state.phase == WarmupPhase::Draining,
            WarmupEventView::TimedOut => state.phase == WarmupPhase::Probing,
            _ => state.phase == WarmupPhase::Draining || state.phase == WarmupPhase::Probing,
        },
{
}

/// A command that is given out is a subscribe command with the time as its number, and names the
/// next streams that were not asked for yet, 50 of them or, if there are fewer, all that are
/// left. One is given out when the connection is made and after each pause, as long as there
/// are such streams.
pub proof fn law_next_command(state: WarmupView, event: WarmupEventView, now: u64)
    requires
        state.wf(),
        state.expects(event),
    ensures
        ({
            let (next, action) = state.after(event, now);
            let asked = 50 * state.sent;
            let left = state.streams.len() - asked;
            &&& next.streams == state.streams
            &&& action is Send <==> (event is Connected || event is PauseOver) && left > 0
            &&& action is Probe <==> (event is Connected || event is PauseOver) && left <= 0
            &&& action matches WarmupActionView::Send(command) ==> {
                &&& command.method == seq!['S', 'U', 'B', 'S', 'C', 'R', 'I', 'B', 'E']
                &&& command.id == now
                &&& command.params.len() == (if left < 50 {
                    left
                } else {
                    50
                })
                &&& forall|i: int|
                    0 <= i < command.params.len() ==> #[trigger] command.params[i]
                        == state.streams[asked + i]
                &&& next.phase == WarmupPhase::Sending
                &&& next.sent == state.sent
            }
            &&& action is Probe ==> next.phase == WarmupPhase::Probing && next.sent == state.sent
        }),
{
    reveal_strlit("SUBSCRIBE");
    assert("SUBSCRIBE"@ =~= seq!['S', 'U', 'B', 'S', 'C', 'R', 'I', 'B', 'E']);
}

/// A command that was sent counts as sent, and its pause begins; a message during the pause
/// changes nothing, and the pause goes on; a message after the last pause ends it all, well.
pub proof fn law_pauses_and_messages(state: WarmupView, event: WarmupEventView, now: u64)
    requires
        state.wf(),
        state.expects(event),
    ensures
        event is Sent ==> {
            &&& state.after(event, now).1 is Drain
            &&& state.after(event, now).0.sent == state.sent + 1
            &&& state.after(event, now).0.phase == WarmupPhase::Draining
        },
        event is Received && state.phase == WarmupPhase::Draining ==> {
            &&& state.after(event, now).1 is Drain
            &&& state.after(event, now).0 == state
        },
        event is Received && state.phase == WarmupPhase::Probing ==> {
            &&& state.after(event, now).1 is Ready
            &&& state.after(event, now).0.phase == WarmupPhase::Finished
        },
        state.after(event, now).1 is Drain <==> event is Sent || (event is Received && state.phase
            == WarmupPhase::Draining),
        state.after(event, now).1 is Ready <==> event is Received && state.phase
            == WarmupPhase::Probing,
{
}

/// A failure ends it all with the error of its kind, which has the words of the cause; what fails
/// during a pause is told apart from what fails where the first message is due.
pub proof fn law_failures_keep_their_words(state: WarmupView, event: WarmupEventView, now: u64)
    requires
        state.expects(event),
        is_failure(event),
    ensures
        ({
            let early = state.phase == WarmupPhase::Draining;
            state.after(event, now).1 matches WarmupActionView::Fail(error) && error.text() == (
            match event {
                WarmupEventView::ConnectFailed(e) => e,
                WarmupEventView::SendFailed(e) => "Ошибка отправки SUBSCRIBE: "@ + e,
                WarmupEventView::ReadFailed(e) => if early {
                    "Ошибка при чтении во время прогрева: "@ + e
                } else {
                    "Ошибка WS перед передачей: "@ + e
                },
                WarmupEventView::Closed => if early {
                    "Стрим закрыт сервером во время прогрева"@
                } else {
                    "Стрим закрылся перед передачей"@
                },
                _ => "Таймаут: биржа не прислала данные"@,
            })
        }),
        state.after(event, now).0.phase == WarmupPhase::Finished,
{
}

/// What an event and an error say is what they hold.
pub proof fn law_warmup_views_say_what_they_hold(event: WarmupEvent, action: WarmupAction)
    ensures
        match event {
            WarmupEvent::Connected => event@ is Connected,
            WarmupEvent::ConnectFailed(e) => event@ == WarmupEventView::ConnectFailed(e@),
            WarmupEvent::Sent => event@ is Sent,
            WarmupEvent::SendFailed(e) => event@ == WarmupEventView::SendFailed(e@),
            WarmupEvent::PauseOver => event@ is PauseOver,
            WarmupEvent::Received => event@ is Received,
            WarmupEvent::ReadFailed(e) => event@ == WarmupEventView::ReadFailed(e@),
            WarmupEvent::Closed => event@ is Closed,
            WarmupEvent::TimedOut => event@ is TimedOut,
        },
        match action {
            WarmupAction::Send(command) => action@ == WarmupActionView::Send(command@),
            WarmupAction::Drain => action@ is Drain,
            WarmupAction::Probe => action@ is Probe,
            WarmupAction::Ready => action@ is Ready,
            WarmupAction::Fail(error) => action@ == WarmupActionView::Fail(error@) && match error {
                WarmupError::Connect(e) => error@ == WarmupErrorView::Connect(e@),
                WarmupError::Send(e) => error@ == WarmupErrorView::Send(e@),
                WarmupError::Read(e) => error@ == WarmupErrorView::Read(e@),
                WarmupError::Closed => error@ is Closed,
                WarmupError::ReadBeforeHandover(e) => error@ == WarmupErrorView::ReadBeforeHandover(
                    e@,
                ),
                WarmupError::ClosedBeforeHandover => error@ is ClosedBeforeHandover,
                WarmupError::NoData => error@ is NoData,
            },
        },
{
}

/// A pause lasts 300 milliseconds, and the first message after the last pause has 3 seconds;
/// nothing else waits.
pub proof fn law_waits_of_a_warmup(action: WarmupActionView)
    ensures
        action is Drain ==> action.wait_ms() == Some(300u64),
        action is Probe ==> action.wait_ms() == Some(3000u64),
        !(action is Drain) && !(action is Probe) ==> action.wait_ms() is None,
{
}

} // verus!
