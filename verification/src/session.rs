//! The control session as a state machine. The caller owns the connection and
//! the clock: it reports what happened as a [`SessionEvent`], and does what
//! the returned [`SessionAction`] says.

use vstd::prelude::*;
use crate::frames::{is_login_accept, login_accept_frame, START_STREAM_FRAME_LEN};

verus! {

/// Seconds between two heartbeats.
pub const HEARTBEAT_PERIOD_SECS: u64 = 3;

/// How often a lost connection is tried again before the caller gives up.
pub const RECONNECT_ATTEMPTS: u32 = 5;

/// One doubled `n` times.
pub open spec fn doubled(n: nat) -> nat
    decreases n,
{
    if n == 0 {
        1
    } else {
        2 * doubled((n - 1) as nat)
    }
}

/// How long to wait, in seconds, before the attempt with this number, the
/// first being attempt 0: one second, doubled with every attempt. `None` once
/// all attempts are spent.
pub open spec fn reconnect_pause_secs(attempt: u32) -> Option<u64> {
    if attempt >= RECONNECT_ATTEMPTS {
        None
    } else {
        Some(doubled(attempt as nat) as u64)
    }
}

/// The pauses are 1, 2, 4, 8 and 16 seconds, each twice the one before, and
/// there is none from the fifth attempt on.
pub proof fn lemma_reconnect_pauses(attempt: u32)
    ensures
        reconnect_pause_secs(attempt) is None <==> attempt >= RECONNECT_ATTEMPTS,
        reconnect_pause_secs(0) == Some(1u64),
        reconnect_pause_secs(4) == Some(16u64),
        attempt + 1 < RECONNECT_ATTEMPTS ==> reconnect_pause_secs((attempt + 1) as u32)->0 == 2
            * reconnect_pause_secs(attempt)->0,
{
    reveal_with_fuel(doubled, 6);
}

/// How long to wait before the attempt with this number, or `None` when the
/// attempts are spent and the caller is to give up.
pub fn reconnect_pause(attempt: u32) -> (r: Option<u64>)
    ensures
        r == reconnect_pause_secs(attempt),
{
    if attempt >= RECONNECT_ATTEMPTS {
        return None;
    }
    let mut pause: u64 = 1;
    let mut i: u32 = 0;
    while i < attempt
        invariant
            i <= attempt < RECONNECT_ATTEMPTS,
            pause == doubled(i as nat),
            pause <= 16,
        decreases attempt - i,
    {
        proof {
            reveal_with_fuel(doubled, 6);
        }
        pause = pause * 2;
        i = i + 1;
    }
    Some(pause)
}

/// Where the session stands.
#[derive(Clone, Copy, Debug, PartialEq, Eq, Structural)]
pub enum SessionState {
    /// No connection yet, or the last one was lost.
    Connecting,
    /// Connected and the login request is on its way; the device has not
    /// answered.
    AwaitingLoginAck,
    /// Logged in, but the stream-start command did not go out whole: the
    /// session is kept alive by heartbeats and nothing more is asked.
    Alive,
    /// Logged in; the stream-start command is being written.
    StreamRequested,
    /// Logged in and the device was asked to stream.
    Streaming,
}

/// What the caller observed.
#[derive(Clone, Copy, Debug)]
pub enum SessionEvent {
    /// The connection to the device stands.
    Connected,
    /// Eight bytes were read from the device.
    FrameRead([u8; 8]),
    /// The write of the stream-start command returned, having written this
    /// many bytes.
    StartStreamWritten(usize),
    /// The heartbeat period has passed.
    HeartbeatDue,
    /// A read or a write on the connection failed.
    ConnectionLost,
}

/// What the caller is to do next.
#[derive(Clone, Copy, Debug, PartialEq, Eq, Structural)]
pub enum SessionAction {
    /// Nothing.
    Wait,
    /// Write the login request.
    SendLogin,
    /// Write the stream-start command, on a second handle to the connection,
    /// and report how many bytes went out.
    SendStartStream,
    /// Start the media ingest.
    StartMedia,
    /// Write the heartbeat frame.
    SendHeartbeat,
    /// Connect again; the handshake starts over.
    Reconnect,
}

/// The session: its state, and whether the media ingest was already started.
/// The ingest outlives a lost connection, so it is started once and never
/// again.
#[derive(Clone, Copy, Debug, PartialEq, Eq, Structural)]
pub struct SessionClient {
    pub state: SessionState,
    pub media_started: bool,
}

/// A step of the session: the session afterwards, and what to do.
pub struct SessionStep {
    pub client: SessionClient,
    pub action: SessionAction,
}

/// The session before anything happened.
pub open spec fn initial_session() -> SessionClient {
    SessionClient { state: SessionState::Connecting, media_started: false }
}

/// The rule of the session.
///
/// - A connection, while connecting, calls for the login request.
/// - A frame read while the login is unanswered is compared byte for byte
///   with the login-accept frame. If it is that frame, the stream is
///   requested; any other frame changes nothing.
/// - When the stream-start command has been written in full, all 16 bytes,
///   the session streams, and the media ingest is started unless it already
///   runs. A short write leaves the session alive without a stream.
/// - A heartbeat is due in every state and changes none.
/// - A lost connection sends the session back to connecting.
/// - Every other event changes nothing and calls for nothing.
pub open spec fn session_next(c: SessionClient, e: SessionEvent) -> SessionStep {
    match e {
        SessionEvent::Connected => {
            if c.state == SessionState::Connecting {
                SessionStep {
                    client: SessionClient { state: SessionState::AwaitingLoginAck, ..c },
                    action: SessionAction::SendLogin,
                }
            } else {
                SessionStep { client: c, action: SessionAction::Wait }
            }
        },
        SessionEvent::FrameRead(frame) => {
            if c.state == SessionState::AwaitingLoginAck && frame@ == login_accept_frame() {
                SessionStep {
                    client: SessionClient { state: SessionState::StreamRequested, ..c },
                    action: SessionAction::SendStartStream,
                }
            } else {
                SessionStep { client: c, action: SessionAction::Wait }
            }
        },
        SessionEvent::StartStreamWritten(written) => {
            if c.state != SessionState::StreamRequested {
                SessionStep { client: c, action: SessionAction::Wait }
            } else if written == START_STREAM_FRAME_LEN {
                SessionStep {
                    client: SessionClient { state: SessionState::Streaming, media_started: true },
                    action: if c.media_started {
                        SessionAction::Wait
                    } else {
                        SessionAction::StartMedia
                    },
                }
            } else {
                SessionStep {
                    client: SessionClient { state: SessionState::Alive, ..c },
                    action: SessionAction::Wait,
                }
            }
        },
        SessionEvent::HeartbeatDue => SessionStep { client: c, action: SessionAction::SendHeartbeat },
        SessionEvent::ConnectionLost => SessionStep {
            client: SessionClient { state: SessionState::Connecting, ..c },
            action: SessionAction::Reconnect,
        },
    }
}

impl SessionClient {
    /// The invariant of a session: it streams only once the media ingest was
    /// started.
    pub open spec fn wf(self) -> bool {
        self.state == SessionState::Streaming ==> self.media_started
    }

    /// A session that has not connected yet.
    pub fn new() -> (c: SessionClient)
        ensures
            c == initial_session(),
            c.wf(),
    {
        SessionClient { state: SessionState::Connecting, media_started: false }
    }

    /// True while the session waits for the device's answer to the login:
    /// the one state in which the caller reads a frame.
    pub fn awaits_frame(&self) -> (r: bool)
        ensures
            r == (self.state == SessionState::AwaitingLoginAck),
    {
        self.state == SessionState::AwaitingLoginAck
    }

    /// Takes one event: moves the session on and says what to do.
    pub fn step(&mut self, event: &SessionEvent) -> (action: SessionAction)
        ensures
            *final(self) == session_next(*old(self), *event).client,
            action == session_next(*old(self), *event).action,
            old(self).wf() ==> final(self).wf(),
    {
        match event {
            SessionEvent::Connected => {
                if self.state == SessionState::Connecting {
                    self.state = SessionState::AwaitingLoginAck;
                    SessionAction::SendLogin
                } else {
                    SessionAction::Wait
                }
            },
            SessionEvent::FrameRead(frame) => {
                if self.state == SessionState::AwaitingLoginAck && is_login_accept(
                    frame.as_slice(),
                ) {
                    self.state = SessionState::StreamRequested;
                    SessionAction::SendStartStream
                } else {
                    SessionAction::Wait
                }
            },
            SessionEvent::StartStreamWritten(written) => {
                if self.state != SessionState::StreamRequested {
                    SessionAction::Wait
                } else if *written == START_STREAM_FRAME_LEN {
                    let first = !self.media_started;
                    self.state = SessionState::Streaming;
                    self.media_started = true;
                    if first {
                        SessionAction::StartMedia
                    } else {
                        SessionAction::Wait
                    }
                } else {
                    self.state = SessionState::Alive;
                    SessionAction::Wait
                }
            },
            SessionEvent::HeartbeatDue => SessionAction::SendHeartbeat,
            SessionEvent::ConnectionLost => {
                self.state = SessionState::Connecting;
                SessionAction::Reconnect
            },
        }
    }
}

/// Where a run of events leads, and the action that each event called for.
pub struct SessionRun {
    pub end: SessionClient,
    pub actions: Seq<SessionAction>,
}

/// The session rule applied to a whole run of events, starting from `c`.
pub open spec fn session_run(c: SessionClient, events: Seq<SessionEvent>) -> SessionRun
    decreases events.len(),
{
    if events.len() == 0 {
        SessionRun { end: c, actions: Seq::empty() }
    } else {
        let before = session_run(c, events.drop_last());
        let step = session_next(before.end, events.last());
        SessionRun { end: step.client, actions: before.actions.push(step.action) }
    }
}

/// True of the event that reports the login-accept frame.
pub open spec fn is_accept_event(e: SessionEvent) -> bool {
    e matches SessionEvent::FrameRead(frame) && frame@ == login_accept_frame()
}

/// While the login is unanswered, the login-accept frame, and no other,
/// moves the session on: it requests the stream and calls for exactly the
/// stream-start command. Every other frame, and every frame in any other
/// state, changes nothing and calls for nothing.
pub proof fn lemma_only_login_accept_advances(c: SessionClient, frame: [u8; 8])
    ensures
        c.state == SessionState::AwaitingLoginAck && frame@ == login_accept_frame() ==> session_next(
            c,
            SessionEvent::FrameRead(frame),
        ) == (SessionStep {
            client: SessionClient { state: SessionState::StreamRequested, ..c },
            action: SessionAction::SendStartStream,
        }),
        !(c.state == SessionState::AwaitingLoginAck && frame@ == login_accept_frame())
            ==> session_next(c, SessionEvent::FrameRead(frame)) == (SessionStep {
            client: c,
            action: SessionAction::Wait,
        }),
{
}

/// The stream-start command is called for by the login-accept frame read
/// while the login is unanswered, and by no other event in no other state.
pub proof fn lemma_start_stream_only_on_accept(c: SessionClient, e: SessionEvent)
    ensures
        session_next(c, e).action == SessionAction::SendStartStream <==> c.state
            == SessionState::AwaitingLoginAck && is_accept_event(e),
{
}

/// A heartbeat is called for whenever one is due, whatever the state, and
/// leaves the session as it was. Nothing else calls for one.
pub proof fn lemma_heartbeat_in_every_state(c: SessionClient, e: SessionEvent)
    ensures
        session_next(c, SessionEvent::HeartbeatDue) == (SessionStep {
            client: c,
            action: SessionAction::SendHeartbeat,
        }),
        session_next(c, e).action == SessionAction::SendHeartbeat <==> e is HeartbeatDue,
{
}

/// The media ingest is started only by a stream-start command that went out
/// whole, all 16 bytes, after the stream was requested.
pub proof fn lemma_start_media_needs_full_write(c: SessionClient, e: SessionEvent)
    ensures
        session_next(c, e).action == SessionAction::StartMedia <==> {
            &&& c.state == SessionState::StreamRequested
            &&& !c.media_started
            &&& e matches SessionEvent::StartStreamWritten(written)
            &&& written == START_STREAM_FRAME_LEN
        },
{
}

/// No step breaks the session's invariant.
pub proof fn lemma_step_keeps_invariant(c: SessionClient, e: SessionEvent)
    requires
        c.wf(),
    ensures
        session_next(c, e).client.wf(),
{
}

/// No run of steps breaks the session's invariant; so a session that began
/// in the initial state and streams has started the media ingest.
pub proof fn lemma_run_keeps_invariant(c: SessionClient, events: Seq<SessionEvent>)
    requires
        c.wf(),
    ensures
        session_run(c, events).end.wf(),
    decreases events.len(),
{
    if events.len() > 0 {
        lemma_run_keeps_invariant(c, events.drop_last());
    }
}

/// Each event of a run calls for one action: the one that the rule gives in
/// the state that the events before it led to.
pub proof fn lemma_action_of_event(c: SessionClient, events: Seq<SessionEvent>, k: int)
    requires
        0 <= k < events.len(),
    ensures
        session_run(c, events).actions.len() == events.len(),
        session_run(c, events).actions[k] == session_next(
            session_run(c, events.take(k)).end,
            events[k],
        ).action,
    decreases events.len(),
{
    let front = events.drop_last();
    lemma_actions_len(c, events);
    if k == events.len() - 1 {
        assert(events.take(k) =~= front);
        lemma_actions_len(c, front);
    } else {
        lemma_action_of_event(c, front, k);
        assert(front.take(k) =~= events.take(k));
    }
}

/// A run calls for as many actions as it has events.
pub proof fn lemma_actions_len(c: SessionClient, events: Seq<SessionEvent>)
    ensures
        session_run(c, events).actions.len() == events.len(),
    decreases events.len(),
{
    if events.len() > 0 {
        lemma_actions_len(c, events.drop_last());
    }
}

/// Over any run of events the media ingest is started at most once, and not
/// at all if it already runs. Once started it counts as started for good.
pub proof fn lemma_media_started_at_most_once(c: SessionClient, events: Seq<SessionEvent>)
    ensures
        session_run(c, events).actions.len() == events.len(),
        c.media_started ==> session_run(c, events).end.media_started,
        forall|i: int|
            0 <= i < events.len() && #[trigger] session_run(c, events).actions[i]
                == SessionAction::StartMedia ==> !c.media_started && session_run(
                c,
                events,
            ).end.media_started,
        forall|i: int, j: int|
            0 <= i < j < events.len() ==> !(#[trigger] session_run(c, events).actions[i]
                == SessionAction::StartMedia && #[trigger] session_run(c, events).actions[j]
                == SessionAction::StartMedia),
    decreases events.len(),
{
    if events.len() > 0 {
        let front = events.drop_last();
        let before = session_run(c, front);
        let run = session_run(c, events);
        lemma_media_started_at_most_once(c, front);
        assert forall|i: int|
            0 <= i < events.len() && #[trigger] run.actions[i]
                == SessionAction::StartMedia implies !c.media_started && run.end.media_started by {
            if i < front.len() {
                assert(run.actions[i] == before.actions[i]);
            }
        }
        assert forall|i: int, j: int| 0 <= i < j < events.len() implies !(#[trigger] run.actions[i]
            == SessionAction::StartMedia && #[trigger] run.actions[j]
            == SessionAction::StartMedia) by {
            assert(run.actions[i] == before.actions[i]);
            if j < front.len() {
                assert(run.actions[j] == before.actions[j]);
            }
        }
    }
}

/// From the initial state the session requests the stream only after the
/// login-accept frame was read, so the media ingest is started only after
/// that frame and a stream-start command that went out whole.
pub proof fn lemma_stream_follows_accept(events: Seq<SessionEvent>)
    ensures
        ({
            let s = session_run(initial_session(), events).end.state;
            s == SessionState::StreamRequested || s == SessionState::Streaming || s
                == SessionState::Alive
        }) ==> exists|i: int| 0 <= i < events.len() && is_accept_event(#[trigger] events[i]),
        forall|j: int|
            0 <= j < events.len() && #[trigger] session_run(initial_session(), events).actions[j]
                == SessionAction::StartMedia ==> {
                &&& events[j] matches SessionEvent::StartStreamWritten(written)
                &&& written == START_STREAM_FRAME_LEN
                &&& exists|i: int| 0 <= i < j && is_accept_event(#[trigger] events[i])
            },
    decreases events.len(),
{
    if events.len() > 0 {
        let front = events.drop_last();
        let before = session_run(initial_session(), front);
        let run = session_run(initial_session(), events);
        lemma_stream_follows_accept(front);
        lemma_actions_len(initial_session(), front);
        let last = events.len() - 1;
        if run.end.state == SessionState::StreamRequested || run.end.state
            == SessionState::Streaming || run.end.state == SessionState::Alive {
            if before.end.state == SessionState::StreamRequested || before.end.state
                == SessionState::Streaming || before.end.state == SessionState::Alive {
                let i = choose|i: int| 0 <= i < front.len() && is_accept_event(#[trigger] front[i]);
                assert(is_accept_event(events[i]));
            } else {
                assert(is_accept_event(events[last]));
            }
        }
        assert forall|j: int|
            0 <= j < events.len() && #[trigger] run.actions[j] == SessionAction::StartMedia implies {
            &&& events[j] matches SessionEvent::StartStreamWritten(written)
            &&& written == START_STREAM_FRAME_LEN
            &&& exists|i: int| 0 <= i < j && is_accept_event(#[trigger] events[i])
        } by {
            if j < front.len() {
                assert(run.actions[j] == before.actions[j]);
                assert(front[j] == events[j]);
                let i = choose|i: int| 0 <= i < j && is_accept_event(#[trigger] front[i]);
                assert(is_accept_event(events[i]));
            } else {
                assert(before.end.state == SessionState::StreamRequested);
                let i = choose|i: int| 0 <= i < front.len() && is_accept_event(#[trigger] front[i]);
                assert(is_accept_event(events[i]));
            }
        }
    }
}

} // verus!
